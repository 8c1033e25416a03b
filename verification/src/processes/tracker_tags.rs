//! Tracker tags: tags chosen by the URLs of a torrent's trackers, and a tag
//! for torrents whose trackers all fail.
use vstd::prelude::*;
use vstd::string::*;
use indexmap::IndexMap;
use crate::config::{ControllerConfig, TrackerRule, tracker_rule_entries, tracker_rule_get, tracker_rules_in_order};
use crate::processes::common::ProcessError;
use crate::qbit_api::{Torrent, Tracker};
use crate::tags::{
    law_parsed_tags_valid, law_tags_round_trip, valid_tag, distinct, insert_tag, opt_chars, parse_tags, set_of, sorted_tags_string, tag_set, tags_minus,
    tags_text, tags_union,
};
use crate::text::{
    chars_of, contains_str, contains_text, fields, lemma_fields_concat, lemma_fields_nonempty,
    lemma_fields_single, str_eq, trim, trim_bounds, views,
};

verus! {

/// The scheme of a URL as `str::split(':').next()` gives it: all before
/// the first colon.
pub open spec fn url_scheme(url: Seq<char>) -> Seq<char> {
    fields(url, ':')[0]
}

/// A URL of a real tracker, not a DHT, PeX or LSD pseudo-tracker.
pub open spec fn real_tracker_url(url: Seq<char>) -> bool {
    let s = url_scheme(url);
    s == "http"@ || s == "https"@ || s == "udp"@ || s == "ws"@ || s == "wss"@
}

proof fn lemma_first_field(s: Seq<char>, sep: char, k: int)
    requires
        0 <= k <= s.len(),
        forall|j: int| 0 <= j < k ==> s[j] != sep,
        k == s.len() || s[k] == sep,
    ensures
        fields(s, sep)[0] == s.take(k),
{
    assert(!s.take(k).contains(sep));
    lemma_fields_single(s.take(k), sep);
    if k < s.len() {
        let rest = s.subrange(k + 1, s.len() as int);
        assert(s =~= s.take(k) + seq![sep] + rest);
        lemma_fields_concat(s.take(k), rest, sep);
    } else {
        assert(s.take(k) =~= s);
    }
}

/// Whether a tracker URL is that of a real tracker: its scheme is `http`,
/// `https`, `udp`, `ws` or `wss`.
pub fn is_real_tracker_url(url: &str) -> (b: bool)
    ensures
        b == real_tracker_url(url@),
{
    let v = chars_of(url);
    let mut k: usize = 0;
    while k < v.len() && v[k] != ':'
        invariant
            k <= v@.len(),
            v@ == url@,
            forall|j: int| 0 <= j < k ==> v@[j] != ':',
        decreases v@.len() - k,
    {
        k = k + 1;
    }
    proof {
        lemma_first_field(url@, ':', k as int);
    }
    let scheme = url.substring_char(0, k);
    assert(scheme@ == url@.take(k as int));
    str_eq(scheme, "http") || str_eq(scheme, "https") || str_eq(scheme, "udp") || str_eq(
        scheme,
        "ws",
    ) || str_eq(scheme, "wss")
}

/// Some tracker's non-empty URL contains the text.
pub open spec fn some_url_contains(trackers: Seq<Tracker>, pattern: Seq<char>) -> bool {
    exists|u: int|
        0 <= u < trackers.len() && trackers[u].url@.len() > 0 && contains_text(
            #[trigger] trackers[u].url@,
            pattern,
        )
}

/// A pattern of a rule key (trimmed, non-empty) occurs in some tracker URL.
pub open spec fn pattern_hits(f: Seq<char>, trackers: Seq<Tracker>) -> bool {
    trim(f).len() > 0 && some_url_contains(trackers, trim(f))
}

/// Some `|`-separated pattern of the key occurs in a tracker URL.
pub open spec fn key_matches(key: Seq<char>, trackers: Seq<Tracker>) -> bool {
    exists|p: int| 0 <= p < fields(key, '|').len() && pattern_hits(#[trigger] fields(key, '|')[p], trackers)
}

fn url_hit(trackers: &Vec<Tracker>, pattern: &str) -> (b: bool)
    ensures
        b == some_url_contains(trackers@, pattern@),
{
    let mut u: usize = 0;
    while u < trackers.len()
        invariant
            u <= trackers@.len(),
            forall|j: int|
                0 <= j < u ==> !(trackers@[j].url@.len() > 0 && contains_text(
                    #[trigger] trackers@[j].url@,
                    pattern@,
                )),
        decreases trackers@.len() - u,
    {
        let url = trackers[u].url.as_str();
        if url.unicode_len() > 0 && contains_str(url, pattern) {
            return true;
        }
        u = u + 1;
    }
    false
}

/// Whether some pattern of the rule key occurs in a tracker URL.
fn rule_key_matches(key: &str, trackers: &Vec<Tracker>) -> (b: bool)
    ensures
        b == key_matches(key@, trackers@),
{
    let v = chars_of(key);
    let mut start: usize = 0;
    let mut i: usize = 0;
    assert(v@.take(0) =~= Seq::<char>::empty());
    while i < v.len()
        invariant
            start <= i <= v@.len(),
            v@ == key@,
            fields(v@.take(i as int), '|').len() >= 1,
            fields(v@.take(i as int), '|').last() == v@.subrange(start as int, i as int),
            forall|p: int|
                0 <= p < fields(v@.take(i as int), '|').len() - 1 ==> !pattern_hits(
                    #[trigger] fields(v@.take(i as int), '|')[p],
                    trackers@,
                ),
        decreases v@.len() - i,
    {
        let ghost f = fields(v@.take(i as int), '|');
        assert(v@.take(i + 1).drop_last() =~= v@.take(i as int));
        proof {
            lemma_fields_nonempty(v@.take(i + 1), '|');
        }
        if v[i] == '|' {
            let (a, b) = trim_bounds(&v, start, i);
            if a < b {
                let pattern = key.substring_char(a, b);
                if url_hit(trackers, pattern) {
                    let ghost g = fields(v@.take(i + 1), '|');
                    assert(g[f.len() - 1] == f.last());
                    assert(pattern_hits(g[f.len() - 1], trackers@));
                    proof {
                        lemma_fields_prefix_of_whole(v@, i + 1, f.len() - 1, '|');
                    }
                    return true;
                }
            }
            let ghost g = fields(v@.take(i + 1), '|');
            assert forall|p: int| 0 <= p < g.len() - 1 implies !pattern_hits(#[trigger] g[p], trackers@) by {
                if p < f.len() - 1 {
                    assert(g[p] == f[p]);
                } else {
                    assert(g[p] == f.last());
                }
            }
            start = i + 1;
            assert(v@.subrange(start as int, i + 1) =~= Seq::<char>::empty());
        } else {
            let ghost g = f.update(f.len() - 1, f.last().push(v@[i as int]));
            assert(g.last() =~= v@.subrange(start as int, i + 1));
            assert forall|p: int| 0 <= p < g.len() - 1 implies !pattern_hits(#[trigger] g[p], trackers@) by {
                assert(g[p] == f[p]);
            }
        }
        i = i + 1;
    }
    assert(v@.take(v@.len() as int) =~= v@);
    let (a, b) = trim_bounds(&v, start, v.len());
    let ghost f = fields(key@, '|');
    if a < b {
        let pattern = key.substring_char(a, b);
        if url_hit(trackers, pattern) {
            assert(pattern_hits(f[f.len() - 1], trackers@));
            return true;
        }
    }
    assert forall|p: int| 0 <= p < f.len() implies !pattern_hits(#[trigger] f[p], trackers@) by {
        if p == f.len() - 1 {
            assert(f[p] == f.last());
        }
    }
    false
}

/// The fields of a prefix, but for the last, are fields of the whole.
proof fn lemma_fields_prefix_of_whole(s: Seq<char>, k: int, p: int, sep: char)
    requires
        0 <= k <= s.len(),
        0 <= p < fields(s.take(k), sep).len() - 1,
    ensures
        p < fields(s, sep).len(),
        fields(s, sep)[p] == fields(s.take(k), sep)[p],
    decreases s.len() - k,
{
    lemma_fields_nonempty(s.take(k), sep);
    if k < s.len() {
        assert(s.take(k + 1).drop_last() =~= s.take(k));
        lemma_fields_nonempty(s.take(k + 1), sep);
        lemma_fields_prefix_of_whole(s, k + 1, p, sep);
    } else {
        assert(s.take(k) =~= s);
    }
}


/// Some tracker has a non-empty URL.
pub open spec fn has_url(trackers: Seq<Tracker>) -> bool {
    exists|u: int| 0 <= u < trackers.len() && (#[trigger] trackers[u]).url@.len() > 0
}

/// Some real tracker has the status.
pub open spec fn some_real_with(trackers: Seq<Tracker>, status: i8) -> bool {
    exists|u: int|
        0 <= u < trackers.len() && real_tracker_url((#[trigger] trackers[u]).url@) && trackers[u].status
            == status
}

/// The rule at `i` is not the fallback `other` rule, and its key matches.
pub open spec fn rule_hit(e: Seq<(Seq<char>, TrackerRule)>, i: int, trackers: Seq<Tracker>) -> bool {
    e[i].0 != "other"@ && key_matches(e[i].0, trackers)
}

/// The tags of the rules whose keys match.
pub open spec fn matched_tags(e: Seq<(Seq<char>, TrackerRule)>, trackers: Seq<Tracker>, n: int) -> Set<Seq<char>> {
    Set::new(
        |x: Seq<char>|
            exists|i: int|
                0 <= i < n && rule_hit(e, i, trackers) && set_of((#[trigger] e[i]).1.tags@).contains(x),
    )
}

/// The tags of the `other` rule, if there is one.
pub open spec fn other_tags(e: Seq<(Seq<char>, TrackerRule)>) -> Set<Seq<char>> {
    Set::new(
        |x: Seq<char>|
            exists|i: int|
                0 <= i < e.len() && (#[trigger] e[i]).0 == "other"@ && set_of(e[i].1.tags@).contains(x),
    )
}

/// The tracker tags a torrent with these trackers should carry: the tags of
/// every rule whose key matches a tracker URL; failing that, those of the
/// `other` rule when some tracker has a URL; and the error tag, when tracker
/// errors are tagged, some real tracker is not working and none is working.
pub open spec fn desired_tracker_set(config: ControllerConfig, e: Seq<(Seq<char>, TrackerRule)>, trackers: Seq<Tracker>) -> Set<Seq<char>> {
    let base = matched_tags(e, trackers, e.len() as int);
    let any_hit = exists|i: int| 0 <= i < e.len() && #[trigger] rule_hit(e, i, trackers);
    let with_other = if !any_hit && has_url(trackers) {
        base.union(other_tags(e))
    } else {
        base
    };
    if config.processes.tracker_errors && some_real_with(trackers, 4) && !some_real_with(trackers, 2) {
        with_other.insert(config.settings.tracker_error_tag@)
    } else {
        with_other
    }
}

fn any_url(trackers: &Vec<Tracker>) -> (b: bool)
    ensures
        b == has_url(trackers@),
{
    let mut u: usize = 0;
    while u < trackers.len()
        invariant
            u <= trackers@.len(),
            forall|j: int| 0 <= j < u ==> (#[trigger] trackers@[j]).url@.len() == 0,
        decreases trackers@.len() - u,
    {
        if trackers[u].url.as_str().unicode_len() > 0 {
            return true;
        }
        u = u + 1;
    }
    false
}

fn any_real_with(trackers: &Vec<Tracker>, status: i8) -> (b: bool)
    ensures
        b == some_real_with(trackers@, status),
{
    let mut u: usize = 0;
    while u < trackers.len()
        invariant
            u <= trackers@.len(),
            forall|j: int|
                0 <= j < u ==> !(real_tracker_url((#[trigger] trackers@[j]).url@) && trackers@[j].status
                    == status),
        decreases trackers@.len() - u,
    {
        if trackers[u].status == status && is_real_tracker_url(trackers[u].url.as_str()) {
            return true;
        }
        u = u + 1;
    }
    false
}

/// The tracker tags a torrent with these trackers should carry.
pub fn desired_tracker_tags(config: &ControllerConfig, tracker_config: &IndexMap<String, TrackerRule>, trackers: &Vec<Tracker>) -> (r: Vec<String>)
    ensures
        distinct(r@),
        set_of(r@) == desired_tracker_set(*config, tracker_rule_entries(*tracker_config), trackers@),
{
    let entries = tracker_rules_in_order(tracker_config);
    let ghost e = tracker_rule_entries(*tracker_config);
    let mut desired: Vec<String> = Vec::new();
    let mut matched = false;
    let mut i: usize = 0;
    assert(set_of(desired@) =~= matched_tags(e, trackers@, 0));
    while i < entries.len()
        invariant
            i <= entries@.len(),
            entries@.len() == e.len(),
            forall|k: int|
                0 <= k < entries@.len() ==> (#[trigger] entries@[k]).0@ == e[k].0 && *entries@[k].1
                    == e[k].1,
            distinct(desired@),
            set_of(desired@) == matched_tags(e, trackers@, i as int),
            matched == exists|j: int| 0 <= j < i && #[trigger] rule_hit(e, j, trackers@),
        decreases entries@.len() - i,
    {
        let key = entries[i].0.as_str();
        let rule = entries[i].1;
        assert(key@ == e[i as int].0 && *rule == e[i as int].1);
        proof {
            reveal_strlit("other");
        }
        let hit = !str_eq(key, "other") && rule_key_matches(key, trackers);
        assert(hit == rule_hit(e, i as int, trackers@));
        if hit {
            matched = true;
            desired = tags_union(&desired, &rule.tags);
            assert(set_of(desired@) =~= matched_tags(e, trackers@, i + 1));
        } else {
            assert(set_of(desired@) =~= matched_tags(e, trackers@, i + 1));
        }
        i = i + 1;
    }
    let ghost with_other = if !matched && has_url(trackers@) {
        matched_tags(e, trackers@, e.len() as int).union(other_tags(e))
    } else {
        matched_tags(e, trackers@, e.len() as int)
    };
    if !matched && any_url(trackers) {
        match tracker_rule_get(tracker_config, "other") {
            Some(rule) => {
                let ghost w = choose|w: int| 0 <= w < e.len() && e[w].0 == "other"@ && e[w].1 == *rule;
                assert(other_tags(e) =~= set_of(rule.tags@)) by {
                    assert forall|x: Seq<char>| other_tags(e).contains(x) implies set_of(rule.tags@).contains(x) by {
                        let j = choose|j: int|
                            0 <= j < e.len() && (#[trigger] e[j]).0 == "other"@ && set_of(e[j].1.tags@).contains(x);
                        assert(entries@[j].0@ == entries@[w].0@);
                    }
                    assert forall|x: Seq<char>| set_of(rule.tags@).contains(x) implies other_tags(e).contains(x) by {
                        assert(e[w].0 == "other"@);
                    }
                }
                desired = tags_union(&desired, &rule.tags);
            },
            None => {
                assert(other_tags(e) =~= Set::<Seq<char>>::empty());
                assert(set_of(desired@).union(other_tags(e)) =~= set_of(desired@));
            },
        }
    }
    assert(set_of(desired@) == with_other);
    if config.processes.tracker_errors && any_real_with(trackers, 4) && !any_real_with(trackers, 2) {
        insert_tag(&mut desired, config.settings.tracker_error_tag.clone());
    }
    desired
}

/// The tags that the tracker process owns: those of every rule, and the
/// error tag when tracker errors are tagged.
pub open spec fn owned_tracker_set(config: ControllerConfig, e: Seq<(Seq<char>, TrackerRule)>) -> Set<Seq<char>> {
    let rules = Set::new(
        |x: Seq<char>| exists|i: int| 0 <= i < e.len() && set_of((#[trigger] e[i]).1.tags@).contains(x),
    );
    if config.processes.tracker_errors {
        rules.insert(config.settings.tracker_error_tag@)
    } else {
        rules
    }
}

/// The tags that the tracker process owns.
pub fn owned_tracker_tags(config: &ControllerConfig, tracker_config: &IndexMap<String, TrackerRule>) -> (r: Vec<String>)
    ensures
        distinct(r@),
        set_of(r@) == owned_tracker_set(*config, tracker_rule_entries(*tracker_config)),
{
    let entries = tracker_rules_in_order(tracker_config);
    let ghost e = tracker_rule_entries(*tracker_config);
    let mut owned: Vec<String> = Vec::new();
    let mut i: usize = 0;
    assert(set_of(owned@) =~= Set::new(
        |x: Seq<char>| exists|j: int| 0 <= j < 0 && set_of((#[trigger] e[j]).1.tags@).contains(x),
    ));
    while i < entries.len()
        invariant
            i <= entries@.len(),
            entries@.len() == e.len(),
            forall|k: int|
                0 <= k < entries@.len() ==> (#[trigger] entries@[k]).0@ == e[k].0 && *entries@[k].1
                    == e[k].1,
            distinct(owned@),
            set_of(owned@) == Set::new(
                |x: Seq<char>| exists|j: int| 0 <= j < i && set_of((#[trigger] e[j]).1.tags@).contains(x),
            ),
        decreases entries@.len() - i,
    {
        let rule = entries[i].1;
        assert(*rule == e[i as int].1);
        owned = tags_union(&owned, &rule.tags);
        assert(set_of(owned@) =~= Set::new(
            |x: Seq<char>| exists|j: int| 0 <= j < i + 1 && set_of((#[trigger] e[j]).1.tags@).contains(x),
        ));
        i = i + 1;
    }
    if config.processes.tracker_errors {
        insert_tag(&mut owned, config.settings.tracker_error_tag.clone());
    }
    owned
}

/// The tag changes for one torrent.
pub struct TagPlan {
    pub tags_to_remove: Vec<String>,
    pub tags_to_add: Vec<String>,
    /// The tags the torrent carries afterwards, as the tag list is written.
    pub new_tags: String,
}

/// The tracker tags of a torrent brought to those desired: the owned tags
/// not desired are removed, the desired tags missing are added.
pub fn plan_tracker_tags(torrent: &Torrent, desired: &Vec<String>, owned: &Vec<String>) -> (r: TagPlan)
    ensures
        distinct(r.tags_to_remove@),
        set_of(r.tags_to_remove@) == tag_set(opt_chars(torrent.tags)).intersect(set_of(owned@)).difference(
            set_of(desired@),
        ),
        distinct(r.tags_to_add@),
        set_of(r.tags_to_add@) == set_of(desired@).difference(tag_set(opt_chars(torrent.tags))),
        tags_text(
            tag_set(opt_chars(torrent.tags)).difference(set_of(r.tags_to_remove@)).union(set_of(r.tags_to_add@)),
            r.new_tags@,
        ),
{
    let current = parse_tags(&torrent.tags);
    let not_owned = tags_minus(&current, owned);
    let current_owned = tags_minus(&current, &not_owned);
    assert(set_of(current_owned@) =~= set_of(current@).intersect(set_of(owned@)));
    let tags_to_remove = tags_minus(&current_owned, desired);
    let tags_to_add = tags_minus(desired, &current);
    let kept = tags_minus(&current, &tags_to_remove);
    let all = tags_union(&kept, &tags_to_add);
    let new_tags = sorted_tags_string(&all);
    TagPlan { tags_to_remove, tags_to_add, new_tags }
}

/// The hash of a torrent that a tag process handles; `None` for a torrent
/// without a name, which it skips.
pub fn named_torrent_hash(torrent: &Torrent) -> (r: Result<Option<String>, ProcessError>)
    ensures
        torrent.name is None ==> r matches Ok(None),
        torrent.name is Some ==> match torrent.hash {
            Some(h) => r matches Ok(Some(x)) && x@ == h@,
            None => r == Err::<Option<String>, ProcessError>(ProcessError::MissingHash),
        },
{
    if torrent.name.is_none() {
        return Ok(None);
    }
    match &torrent.hash {
        Some(h) => Ok(Some(h.clone())),
        None => Err(ProcessError::MissingHash),
    }
}

/// The tracker rules of the configuration, which the tracker process needs.
pub fn tracker_rules(config: &ControllerConfig) -> (r: Result<&IndexMap<String, TrackerRule>, ProcessError>)
    ensures
        match config.trackers {
            Some(m) => r == Ok::<&IndexMap<String, TrackerRule>, ProcessError>(&m),
            None => r == Err::<&IndexMap<String, TrackerRule>, ProcessError>(ProcessError::MissingConfig),
        },
{
    match &config.trackers {
        Some(m) => Ok(m),
        None => Err(ProcessError::MissingConfig),
    }
}


/// The error tag follows the trackers alone: unless a rule lists it, a
/// torrent is meant to carry it exactly when tracker errors are tagged, some
/// real tracker is not working and no real tracker is working (so pseudo
/// trackers and partly working torrents are never flagged).
pub proof fn law_error_tag(config: ControllerConfig, e: Seq<(Seq<char>, TrackerRule)>, trackers: Seq<Tracker>)
    requires
        forall|i: int| 0 <= i < e.len() ==> !set_of((#[trigger] e[i]).1.tags@).contains(config.settings.tracker_error_tag@),
    ensures
        desired_tracker_set(config, e, trackers).contains(config.settings.tracker_error_tag@) <==> (
        config.processes.tracker_errors && some_real_with(trackers, 4) && !some_real_with(trackers, 2)),
{
    let x = config.settings.tracker_error_tag@;
    assert(!matched_tags(e, trackers, e.len() as int).contains(x));
    assert(!other_tags(e).contains(x));
}

/// Once a torrent's tracker tags are written, the next run changes nothing:
/// reading the tags back, no owned tag is left to remove and no desired tag
/// to add (for desired tags that a tag list can hold).
pub proof fn law_tracker_tags_steady(tags: Seq<char>, desired: Set<Seq<char>>, owned: Set<Seq<char>>, text: Seq<char>)
    requires
        forall|t: Seq<char>| desired.contains(t) ==> valid_tag(t),
        tags_text(
            tag_set(tags).difference(tag_set(tags).intersect(owned).difference(desired)).union(
                desired.difference(tag_set(tags)),
            ),
            text,
        ),
    ensures
        tag_set(text).intersect(owned).difference(desired) =~= Set::<Seq<char>>::empty(),
        desired.difference(tag_set(text)) =~= Set::<Seq<char>>::empty(),
{
    let c = tag_set(tags);
    let n = c.difference(c.intersect(owned).difference(desired)).union(desired.difference(c));
    law_parsed_tags_valid(tags);
    assert forall|t: Seq<char>| n.contains(t) implies valid_tag(t) by {
        if c.contains(t) {
        }
    }
    law_tags_round_trip(n, text);
}

/// Every rule other than `other` with a `|`-separated pattern (trimmed,
/// non-empty) found in a tracker's URL gives all its tags to the torrent,
/// whatever rules before it matched.
pub proof fn law_matched_rule_tags_desired(
    config: ControllerConfig,
    e: Seq<(Seq<char>, TrackerRule)>,
    trackers: Seq<Tracker>,
    i: int,
    p: int,
    u: int,
    k: int,
)
    requires
        0 <= i < e.len(),
        e[i].0 != "other"@,
        0 <= p < fields(e[i].0, '|').len(),
        trim(fields(e[i].0, '|')[p]).len() > 0,
        0 <= u < trackers.len(),
        trackers[u].url@.len() > 0,
        contains_text(trackers[u].url@, trim(fields(e[i].0, '|')[p])),
        0 <= k < e[i].1.tags@.len(),
    ensures
        desired_tracker_set(config, e, trackers).contains(e[i].1.tags@[k]@),
{
    let f = fields(e[i].0, '|')[p];
    assert(some_url_contains(trackers, trim(f)));
    assert(pattern_hits(f, trackers));
    assert(key_matches(e[i].0, trackers));
    assert(rule_hit(e, i, trackers));
    assert(views(e[i].1.tags@)[k] == e[i].1.tags@[k]@);
    assert(set_of(e[i].1.tags@).contains(e[i].1.tags@[k]@));
    assert(matched_tags(e, trackers, e.len() as int).contains(e[i].1.tags@[k]@));
}

/// The `other` rule gives its tags when no rule matched and some tracker
/// has a URL.
pub proof fn law_other_rule_fallback(config: ControllerConfig, e: Seq<(Seq<char>, TrackerRule)>, trackers: Seq<Tracker>, i: int, u: int, k: int)
    requires
        forall|j: int| 0 <= j < e.len() ==> !(#[trigger] rule_hit(e, j, trackers)),
        0 <= u < trackers.len(),
        trackers[u].url@.len() > 0,
        0 <= i < e.len(),
        e[i].0 == "other"@,
        0 <= k < e[i].1.tags@.len(),
    ensures
        desired_tracker_set(config, e, trackers).contains(e[i].1.tags@[k]@),
{
    assert(has_url(trackers));
    assert(views(e[i].1.tags@)[k] == e[i].1.tags@[k]@);
    assert(other_tags(e).contains(e[i].1.tags@[k]@));
}

/// Once a rule matched, the `other` rule adds nothing: every desired tag
/// comes from a matching rule, or is the error tag.
pub proof fn law_other_rule_only_without_match(config: ControllerConfig, e: Seq<(Seq<char>, TrackerRule)>, trackers: Seq<Tracker>, i: int, x: Seq<char>)
    requires
        0 <= i < e.len(),
        rule_hit(e, i, trackers),
        desired_tracker_set(config, e, trackers).contains(x),
    ensures
        matched_tags(e, trackers, e.len() as int).contains(x) || x == config.settings.tracker_error_tag@,
{
}

/// A rule's tags come only from a real match: each tag of a matching rule
/// belongs to a rule other than `other` with a trimmed, non-empty
/// `|`-separated pattern found in a non-empty tracker URL.
pub proof fn law_matched_tags_only_from_hits(e: Seq<(Seq<char>, TrackerRule)>, trackers: Seq<Tracker>, x: Seq<char>)
    requires
        matched_tags(e, trackers, e.len() as int).contains(x),
    ensures
        exists|i: int, p: int, u: int|
            0 <= i < e.len() && (#[trigger] e[i]).0 != "other"@ && 0 <= p < fields(e[i].0, '|').len()
                && trim(#[trigger] fields(e[i].0, '|')[p]).len() > 0 && 0 <= u < trackers.len()
                && (#[trigger] trackers[u]).url@.len() > 0 && contains_text(trackers[u].url@, trim(fields(e[i].0, '|')[p]))
                && set_of(e[i].1.tags@).contains(x),
{
    let i = choose|i: int|
        0 <= i < e.len() && rule_hit(e, i, trackers) && set_of((#[trigger] e[i]).1.tags@).contains(x);
    let p = choose|p: int| 0 <= p < fields(e[i].0, '|').len() && pattern_hits(#[trigger] fields(e[i].0, '|')[p], trackers);
    let f = fields(e[i].0, '|')[p];
    let u = choose|u: int|
        0 <= u < trackers.len() && trackers[u].url@.len() > 0 && contains_text(#[trigger] trackers[u].url@, trim(f));
    assert(trackers[u].url@.len() > 0);
}

/// The error tag is desired only for a failing real tracker (scheme `http`,
/// `https`, `udp`, `ws` or `wss`, status 4) with no working one (status
/// 2), and only when tracker errors are tagged (unless a rule lists it).
pub proof fn law_error_tag_needs_failing_real_tracker(config: ControllerConfig, e: Seq<(Seq<char>, TrackerRule)>, trackers: Seq<Tracker>)
    requires
        forall|i: int| 0 <= i < e.len() ==> !set_of((#[trigger] e[i]).1.tags@).contains(config.settings.tracker_error_tag@),
        desired_tracker_set(config, e, trackers).contains(config.settings.tracker_error_tag@),
    ensures
        config.processes.tracker_errors,
        exists|u: int|
            0 <= u < trackers.len() && (#[trigger] trackers[u]).status == 4 && {
                let s = fields(trackers[u].url@, ':')[0];
                s == "http"@ || s == "https"@ || s == "udp"@ || s == "ws"@ || s == "wss"@
            },
        forall|u: int|
            0 <= u < trackers.len() && (#[trigger] trackers[u]).status == 2 ==> {
                let s = fields(trackers[u].url@, ':')[0];
                !(s == "http"@ || s == "https"@ || s == "udp"@ || s == "ws"@ || s == "wss"@)
            },
{
    law_error_tag(config, e, trackers);
    let u = choose|u: int|
        0 <= u < trackers.len() && real_tracker_url((#[trigger] trackers[u]).url@) && trackers[u].status == 4;
    assert(trackers[u].status == 4);
    assert forall|w: int| 0 <= w < trackers.len() && (#[trigger] trackers[w]).status == 2 implies {
        let s = fields(trackers[w].url@, ':')[0];
        !(s == "http"@ || s == "https"@ || s == "udp"@ || s == "ws"@ || s == "wss"@)
    } by {
        if real_tracker_url(trackers[w].url@) {
            assert(some_real_with(trackers, 2));
        }
    }
}

} // verus!
