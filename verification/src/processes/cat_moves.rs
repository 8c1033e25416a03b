//! Category moves: a torrent's category rewritten by the first rule that
//! its category and tags match.
use vstd::prelude::*;
use indexmap::IndexMap;
use crate::config::{CatMove, ControllerConfig, cat_move_entries, cat_moves_in_order};
use crate::processes::common::ProcessError;
use crate::processes::share_limits::holds_all;
use crate::qbit_api::Torrent;
use crate::tags::{has_tag, opt_chars, parse_tags, set_of, tag_set};
use crate::text::{contains_string, str_eq, views};

verus! {

/// The rule names neither categories nor tags.
pub open spec fn unconditioned(rule: CatMove) -> bool {
    rule.categories is None && rule.tags is None
}

/// A torrent with this category and these tags meets the rule: its
/// category among the rule's categories, and the rule's tags all among its
/// tags, each part holding when not given.
pub open spec fn move_matches(rule: CatMove, category: Seq<char>, tags: Set<Seq<char>>) -> bool {
    &&& (rule.categories matches Some(c) ==> views(c@).contains(category))
    &&& (rule.tags matches Some(r) ==> holds_all(r@, tags))
}

/// The rule decides: it is unconditioned (an error) or it matches.
pub open spec fn decides(rule: CatMove, category: Seq<char>, tags: Set<Seq<char>>) -> bool {
    unconditioned(rule) || move_matches(rule, category, tags)
}

/// The rule at `i` is the first that decides.
pub open spec fn first_deciding(e: Seq<(Seq<char>, CatMove)>, category: Seq<char>, tags: Set<Seq<char>>, i: int) -> bool {
    &&& 0 <= i < e.len()
    &&& decides(e[i].1, category, tags)
    &&& forall|j: int| 0 <= j < i ==> !decides(#[trigger] e[j].1, category, tags)
}

/// The category-move rules of the configuration, which the process needs.
pub fn cat_move_rules(config: &ControllerConfig) -> (r: Result<&IndexMap<String, CatMove>, ProcessError>)
    ensures
        match config.cat_moves {
            Some(m) => r == Ok::<&IndexMap<String, CatMove>, ProcessError>(&m),
            None => r == Err::<&IndexMap<String, CatMove>, ProcessError>(ProcessError::MissingConfig),
        },
{
    match &config.cat_moves {
        Some(m) => Ok(m),
        None => Err(ProcessError::MissingConfig),
    }
}

/// The new category of a torrent, when it changes: the first deciding rule
/// gives it, or stops the process when it names no condition. A torrent
/// without a name is left alone; an absent category counts as empty.
pub fn decide_category(rules: &IndexMap<String, CatMove>, torrent: &Torrent) -> (r: Result<Option<String>, ProcessError>)
    ensures
        torrent.name is None ==> r matches Ok(None),
        torrent.name is Some ==> {
            let e = cat_move_entries(*rules);
            let cat = opt_chars(torrent.category);
            let tags = tag_set(opt_chars(torrent.tags));
            match r {
                Err(x) => x matches ProcessError::RuleWithoutCondition(k) && exists|i: int|
                    first_deciding(e, cat, tags, i) && unconditioned(#[trigger] e[i].1) && k@
                        == e[i].0,
                Ok(Some(c)) => exists|i: int|
                    first_deciding(e, cat, tags, i) && !unconditioned(#[trigger] e[i].1) && c@
                        == e[i].1.new_category@ && c@ != cat,
                Ok(None) => (forall|j: int| 0 <= j < e.len() ==> !decides(#[trigger] e[j].1, cat, tags))
                    || exists|i: int|
                    first_deciding(e, cat, tags, i) && !unconditioned(#[trigger] e[i].1)
                        && e[i].1.new_category@ == cat,
            }
        },
{
    if torrent.name.is_none() {
        return Ok(None);
    }
    let category: &str = match &torrent.category {
        Some(c) => c.as_str(),
        None => "",
    };
    proof {
        reveal_strlit("");
    }
    assert(category@ == opt_chars(torrent.category));
    let tags = parse_tags(&torrent.tags);
    let entries = cat_moves_in_order(rules);
    let ghost e = cat_move_entries(*rules);
    let ghost ts = tag_set(opt_chars(torrent.tags));
    let mut i: usize = 0;
    while i < entries.len()
        invariant
            i <= entries@.len(),
            entries@.len() == e.len(),
            forall|k: int|
                0 <= k < entries@.len() ==> (#[trigger] entries@[k]).0@ == e[k].0 && *entries@[k].1
                    == e[k].1,
            set_of(tags@) == ts,
            ts == tag_set(opt_chars(torrent.tags)),
            e == cat_move_entries(*rules),
            torrent.name is Some,
            category@ == opt_chars(torrent.category),
            forall|j: int| 0 <= j < i ==> !decides(#[trigger] e[j].1, category@, ts),
        decreases entries@.len() - i,
    {
        let rule = entries[i].1;
        assert(*rule == e[i as int].1);
        let categories_match = match &rule.categories {
            Some(categories) => contains_string(categories, category),
            None => true,
        };
        let tags_match = match &rule.tags {
            Some(required) => {
                let mut k: usize = 0;
                let mut all = true;
                while k < required.len()
                    invariant
                        k <= required@.len(),
                        all == forall|q: int| 0 <= q < k ==> ts.contains(#[trigger] required@[q]@),
                        set_of(tags@) == ts,
                    decreases required@.len() - k,
                {
                    if !has_tag(&tags, required[k].as_str()) {
                        all = false;
                    }
                    k = k + 1;
                }
                all
            },
            None => true,
        };
        if rule.categories.is_none() && rule.tags.is_none() {
            assert(first_deciding(e, category@, ts, i as int));
            return Err(ProcessError::RuleWithoutCondition(entries[i].0.clone()));
        }
        assert(categories_match && tags_match <==> move_matches(e[i as int].1, category@, ts));
        if categories_match && tags_match {
            assert(first_deciding(e, category@, ts, i as int));
            if str_eq(rule.new_category.as_str(), category) {
                return Ok(None);
            }
            return Ok(Some(rule.new_category.clone()));
        }
        i = i + 1;
    }
    Ok(None)
}

/// The tag rule of a category move: with tags listed, a rule matches a
/// torrent exactly when it would without them and the torrent carries every
/// one of them (tags `dc` and `4k` do not match a torrent tagged only `dc`).
pub proof fn law_move_tags_all_required(rule: CatMove, category: Seq<char>, tags: Set<Seq<char>>, r: Vec<String>)
    requires
        rule.tags == Some(r),
    ensures
        move_matches(rule, category, tags) == (move_matches(CatMove { tags: None, ..rule }, category, tags)
            && forall|k: int| 0 <= k < r@.len() ==> tags.contains(#[trigger] r@[k]@)),
{
}

/// The category rule of a category move: with categories listed, a rule
/// matches a torrent exactly when it would without them and the torrent's
/// category is one of them.
pub proof fn law_move_categories(rule: CatMove, category: Seq<char>, tags: Set<Seq<char>>, c: Vec<String>)
    requires
        rule.categories == Some(c),
    ensures
        move_matches(rule, category, tags) == (move_matches(CatMove { categories: None, ..rule }, category, tags)
            && exists|k: int| 0 <= k < c@.len() && (#[trigger] c@[k])@ == category),
{
    if exists|k: int| 0 <= k < c@.len() && (#[trigger] c@[k])@ == category {
        let k = choose|k: int| 0 <= k < c@.len() && (#[trigger] c@[k])@ == category;
        assert(views(c@)[k] == category);
    }
    if views(c@).contains(category) {
        let k = choose|k: int| 0 <= k < views(c@).len() && views(c@)[k] == category;
        assert(c@[k]@ == category);
    }
}

/// A rule that names neither categories nor tags decides every torrent (as
/// an error); one that names either decides only the torrents it matches.
pub proof fn law_move_decides(rule: CatMove, category: Seq<char>, tags: Set<Seq<char>>)
    ensures
        (rule.categories is None && rule.tags is None) ==> decides(rule, category, tags),
        (rule.categories is Some || rule.tags is Some) ==> (decides(rule, category, tags) == move_matches(
            rule,
            category,
            tags,
        )),
{
}

/// The deciding rule is the first: at most one index is first to decide,
/// and it comes before every other rule that decides.
pub proof fn law_first_deciding_unique(e: Seq<(Seq<char>, CatMove)>, category: Seq<char>, tags: Set<Seq<char>>, i: int, j: int)
    requires
        first_deciding(e, category, tags, i),
        0 <= j < e.len(),
        decides(e[j].1, category, tags),
    ensures
        i <= j,
        first_deciding(e, category, tags, j) ==> i == j,
{
    if j < i {
        assert(!decides(e[j].1, category, tags));
    }
}

} // verus!
