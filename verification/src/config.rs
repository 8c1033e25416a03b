//! The controller's configuration, as the library reads it.
use vstd::prelude::*;
use indexmap::IndexMap;
pub use crate::duration::DurationValue;

verus! {

/// Where the qBittorrent Web API is, and the account to log in with.
pub struct Qbit {
    pub url: String,
    pub username: String,
    pub password: String,
}

/// Which processes a run performs.
pub struct Processes {
    pub tag_names: bool,
    pub cat_move: bool,
    pub tracker_tags: bool,
    pub tracker_errors: bool,
    pub share_limits: bool,
}

impl Default for Processes {
    fn default() -> (r: Self)
        ensures
            !r.tag_names,
            !r.cat_move,
            !r.tracker_tags,
            !r.tracker_errors,
            !r.share_limits,
    {
        Processes {
            tag_names: false,
            cat_move: false,
            tracker_tags: false,
            tracker_errors: false,
            share_limits: false,
        }
    }
}

/// Settings that shape every process.
pub struct Settings {
    pub dry_run: bool,
    pub enable_auto_management: bool,
    pub auto_management_ignore_tags: Vec<String>,
    pub quiet: bool,
    pub share_limits_tag: String,
    pub tracker_error_tag: String,
    pub share_limits_min_seeding_time_tag: String,
    pub share_limits_min_num_seeds_tag: String,
    pub share_limits_filter_completed: bool,
}

impl Default for Settings {
    fn default() -> (r: Self)
        ensures
            !r.dry_run,
            !r.enable_auto_management,
            r.auto_management_ignore_tags@.len() == 0,
            !r.quiet,
            r.share_limits_tag@ == "z"@,
            r.tracker_error_tag@ == "issue"@,
            r.share_limits_min_seeding_time_tag@ == "MinSeedTimeNotReached"@,
            r.share_limits_min_num_seeds_tag@ == "MinSeedsNotMet"@,
            r.share_limits_filter_completed,
    {
        Settings {
            dry_run: false,
            enable_auto_management: false,
            auto_management_ignore_tags: Vec::new(),
            quiet: false,
            share_limits_tag: default_share_limits_tag(),
            tracker_error_tag: default_tracker_error_tag(),
            share_limits_min_seeding_time_tag: default_min_seeding_time_tag(),
            share_limits_min_num_seeds_tag: default_min_num_seeds_tag(),
            share_limits_filter_completed: true,
        }
    }
}

/// The prefix of the tags that name a share-limit group.
pub fn default_share_limits_tag() -> (s: String)
    ensures
        s@ == "z"@,
{
    "z".to_owned()
}

/// The tag for torrents whose trackers all fail.
pub fn default_tracker_error_tag() -> (s: String)
    ensures
        s@ == "issue"@,
{
    "issue".to_owned()
}

/// The tag for torrents kept from their limits until they have seeded long
/// enough.
pub fn default_min_seeding_time_tag() -> (s: String)
    ensures
        s@ == "MinSeedTimeNotReached"@,
{
    "MinSeedTimeNotReached".to_owned()
}

/// The tag for torrents kept from their limits until enough peers seed them.
pub fn default_min_num_seeds_tag() -> (s: String)
    ensures
        s@ == "MinSeedsNotMet"@,
{
    "MinSeedsNotMet".to_owned()
}

/// The default of the settings that are on unless configured off.
pub fn default_true() -> (b: bool)
    ensures
        b,
{
    true
}

/// Tags to add to a torrent whose name contains a configured text.
pub struct Name {
    pub tags: Vec<String>,
}

/// A category to move torrents to, by their category and tags.
pub struct CatMove {
    pub categories: Option<Vec<String>>,
    pub tags: Option<Vec<String>>,
    pub new_category: String,
}

/// Tags for torrents whose tracker URLs match a rule's key.
pub struct TrackerRule {
    pub tags: Vec<String>,
}

/// A share-limit group: which torrents it takes, and what it does to them.
/// (Its ratio limit, a floating-point number, stays outside the library.)
pub struct ShareLimit {
    pub priority: u32,
    pub cleanup: bool,
    pub max_seeding_time: Option<DurationValue>,
    pub min_seeding_time: Option<DurationValue>,
    pub min_num_seeds: Option<i64>,
    pub limit_upload_speed: Option<i64>,
    pub resume_torrent_after_change: bool,
    pub categories: Option<Vec<String>>,
    pub include_all_tags: Option<Vec<String>>,
    pub include_any_tags: Option<Vec<String>>,
    pub exclude_all_tags: Option<Vec<String>>,
    pub exclude_any_tags: Option<Vec<String>>,
}

/// The whole configuration.
pub struct ControllerConfig {
    pub qbit: Qbit,
    pub settings: Settings,
    pub processes: Processes,
    pub names: Option<Vec<(String, Name)>>,
    pub cat_moves: Option<IndexMap<String, CatMove>>,
    pub trackers: Option<IndexMap<String, TrackerRule>>,
    pub share_limits: Option<IndexMap<String, ShareLimit>>,
}

#[verifier::external_type_specification]
#[verifier::external_body]
#[verifier::reject_recursive_types(K)]
#[verifier::reject_recursive_types(V)]
#[verifier::reject_recursive_types(S)]
pub struct ExIndexMap<K, V, S>(IndexMap<K, V, S>);

/// The entries of a map of tracker rules, in the map's order.
pub uninterp spec fn tracker_rule_entries(m: IndexMap<String, TrackerRule>) -> Seq<(Seq<char>, TrackerRule)>;

/// The entries of a map of category moves, in the map's order.
pub uninterp spec fn cat_move_entries(m: IndexMap<String, CatMove>) -> Seq<(Seq<char>, CatMove)>;

/// The entries of a map of share-limit groups, in the map's order.
pub uninterp spec fn share_limit_entries(m: IndexMap<String, ShareLimit>) -> Seq<(Seq<char>, ShareLimit)>;

/// `IndexMap::iter` on tracker rules: each entry once, in the map's order;
/// an `IndexMap` holds each key once.
#[verifier::external_body]
pub(crate) fn tracker_rules_in_order(m: &IndexMap<String, TrackerRule>) -> (v: Vec<(&String, &TrackerRule)>)
    ensures
        v@.len() == tracker_rule_entries(*m).len(),
        forall|i: int|
            0 <= i < v@.len() ==> (#[trigger] v@[i]).0@ == tracker_rule_entries(*m)[i].0 && *v@[i].1
                == tracker_rule_entries(*m)[i].1,
        forall|i: int, j: int|
            0 <= i < v@.len() && 0 <= j < v@.len() && (#[trigger] v@[i]).0@ == (#[trigger] v@[j]).0@
                ==> i == j,
{
    m.iter().collect()
}

/// `IndexMap::get` on tracker rules: the rule stored under `key`, if any.
#[verifier::external_body]
pub(crate) fn tracker_rule_get<'a>(m: &'a IndexMap<String, TrackerRule>, key: &str) -> (r: Option<&'a TrackerRule>)
    ensures
        match r {
            None => forall|i: int| 0 <= i < tracker_rule_entries(*m).len()
                ==> #[trigger] tracker_rule_entries(*m)[i].0 != key@,
            Some(rule) => exists|i: int|
                0 <= i < tracker_rule_entries(*m).len() && #[trigger] tracker_rule_entries(*m)[i].0
                    == key@ && tracker_rule_entries(*m)[i].1 == *rule,
        },
{
    m.get(key)
}

/// `IndexMap::iter` on category moves: each entry once, in the map's order.
#[verifier::external_body]
pub(crate) fn cat_moves_in_order(m: &IndexMap<String, CatMove>) -> (v: Vec<(&String, &CatMove)>)
    ensures
        v@.len() == cat_move_entries(*m).len(),
        forall|i: int|
            0 <= i < v@.len() ==> (#[trigger] v@[i]).0@ == cat_move_entries(*m)[i].0 && *v@[i].1
                == cat_move_entries(*m)[i].1,
{
    m.iter().collect()
}

/// `IndexMap::iter` on share-limit groups: each entry once, in the map's
/// order.
#[verifier::external_body]
pub(crate) fn share_limits_in_order(m: &IndexMap<String, ShareLimit>) -> (v: Vec<(&String, &ShareLimit)>)
    ensures
        v@.len() == share_limit_entries(*m).len(),
        forall|i: int|
            0 <= i < v@.len() ==> (#[trigger] v@[i]).0@ == share_limit_entries(*m)[i].0 && *v@[i].1
                == share_limit_entries(*m)[i].1,
{
    m.iter().collect()
}

} // verus!
