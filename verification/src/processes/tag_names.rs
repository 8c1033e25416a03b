//! Name tags: tags for torrents whose names contain a configured text,
//! compared without regard to case.
use vstd::prelude::*;
use crate::config::{ControllerConfig, Name};
use crate::processes::common::ProcessError;
use crate::qbit_api::Torrent;
use crate::tags::{distinct, opt_chars, parse_tags, set_of, sorted_tags_string, tag_set, tags_minus, tags_text, tags_union};
use crate::text::{contains_str, contains_text, views};

verus! {

/// What `str::to_lowercase` gives for a string: its Unicode lowercase
/// mapping.
pub uninterp spec fn lowercase(s: Seq<char>) -> Seq<char>;

/// `str::to_lowercase`.
#[verifier::external_body]
fn to_lowercase(s: &str) -> (r: String)
    ensures
        r@ == lowercase(s@),
{
    s.to_lowercase()
}

/// The torrent name contains the configured text, case aside.
pub open spec fn name_hits(torrent_name: Seq<char>, key: Seq<char>) -> bool {
    contains_text(lowercase(torrent_name), lowercase(key))
}

/// The tags of the configured names that the torrent name contains.
pub open spec fn name_tags(names: Seq<(String, Name)>, torrent_name: Seq<char>, n: int) -> Set<Seq<char>> {
    Set::new(
        |x: Seq<char>|
            exists|i: int|
                0 <= i < n && name_hits(torrent_name, (#[trigger] names[i]).0@) && set_of(
                    names[i].1.tags@,
                ).contains(x),
    )
}

/// Tags to add to one torrent.
pub struct TagAddition {
    pub tags_to_add: Vec<String>,
    /// The tags the torrent carries afterwards, as the tag list is written.
    pub new_tags: String,
}

/// The name configuration, which the name-tag process needs.
pub fn names_config(config: &ControllerConfig) -> (r: Result<&Vec<(String, Name)>, ProcessError>)
    ensures
        match config.names {
            Some(m) => r == Ok::<&Vec<(String, Name)>, ProcessError>(&m),
            None => r == Err::<&Vec<(String, Name)>, ProcessError>(ProcessError::MissingConfig),
        },
{
    match &config.names {
        Some(m) => Ok(m),
        None => Err(ProcessError::MissingConfig),
    }
}

/// The name tags a torrent lacks: `None` for a torrent without a name, or
/// when it carries every tag its name calls for.
pub fn tag_name_additions(names: &Vec<(String, Name)>, torrent: &Torrent) -> (r: Option<TagAddition>)
    ensures
        match torrent.name {
            None => r is None,
            Some(tn) => {
                let add = name_tags(names@, tn@, names@.len() as int).difference(
                    tag_set(opt_chars(torrent.tags)),
                );
                match r {
                    None => add =~= Set::<Seq<char>>::empty(),
                    Some(a) => add == set_of(a.tags_to_add@) && distinct(a.tags_to_add@) && a.tags_to_add@.len()
                        > 0 && tags_text(tag_set(opt_chars(torrent.tags)).union(add), a.new_tags@),
                }
            },
        },
{
    let torrent_name = match &torrent.name {
        Some(n) => n,
        None => {
            return None;
        },
    };
    let lower_name = to_lowercase(torrent_name.as_str());
    let current = parse_tags(&torrent.tags);
    let mut wanted: Vec<String> = Vec::new();
    let mut i: usize = 0;
    assert(set_of(wanted@) =~= name_tags(names@, torrent_name@, 0));
    while i < names.len()
        invariant
            i <= names@.len(),
            lower_name@ == lowercase(torrent_name@),
            distinct(wanted@),
            set_of(wanted@) == name_tags(names@, torrent_name@, i as int),
        decreases names@.len() - i,
    {
        let key = to_lowercase(names[i].0.as_str());
        if contains_str(lower_name.as_str(), key.as_str()) {
            wanted = tags_union(&wanted, &names[i].1.tags);
        }
        assert(set_of(wanted@) =~= name_tags(names@, torrent_name@, i + 1));
        i = i + 1;
    }
    let tags_to_add = tags_minus(&wanted, &current);
    if tags_to_add.len() == 0 {
        assert(set_of(tags_to_add@) =~= Set::<Seq<char>>::empty());
        return None;
    }
    let all = tags_union(&current, &tags_to_add);
    assert(set_of(all@) =~= set_of(current@).union(set_of(wanted@).difference(set_of(current@))));
    let new_tags = sorted_tags_string(&all);
    Some(TagAddition { tags_to_add, new_tags })
}

/// Every configured name that the torrent name contains, case aside,
/// contributes all its tags, whatever names before it matched.
pub proof fn law_name_tags_every_match(names: Seq<(String, Name)>, torrent_name: Seq<char>, i: int, k: int)
    requires
        0 <= i < names.len(),
        contains_text(lowercase(torrent_name), lowercase(names[i].0@)),
        0 <= k < names[i].1.tags@.len(),
    ensures
        name_tags(names, torrent_name, names.len() as int).contains(names[i].1.tags@[k]@),
{
    assert(views(names[i].1.tags@)[k] == names[i].1.tags@[k]@);
    assert(set_of(names[i].1.tags@).contains(names[i].1.tags@[k]@));
}

/// The name tags come only from configured names that the torrent name
/// contains, case aside: each is a tag of one of them.
pub proof fn law_name_tags_only_from_matches(names: Seq<(String, Name)>, torrent_name: Seq<char>, x: Seq<char>)
    requires
        name_tags(names, torrent_name, names.len() as int).contains(x),
    ensures
        exists|i: int, k: int|
            0 <= i < names.len() && contains_text(lowercase(torrent_name), lowercase((#[trigger] names[i]).0@))
                && 0 <= k < names[i].1.tags@.len() && (#[trigger] names[i].1.tags@[k])@ == x,
{
    let i = choose|i: int|
        0 <= i < names.len() && name_hits(torrent_name, (#[trigger] names[i]).0@) && set_of(
            names[i].1.tags@,
        ).contains(x);
    let k = choose|k: int| 0 <= k < views(names[i].1.tags@).len() && views(names[i].1.tags@)[k] == x;
    assert(names[i].1.tags@[k]@ == x);
}

} // verus!
