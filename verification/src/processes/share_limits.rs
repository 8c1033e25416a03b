//! Share limits: which group a torrent falls in, whether it is protected,
//! whether it is due for cleanup, and which limits and tags it should carry.
use vstd::prelude::*;
use vstd::string::*;
use indexmap::IndexMap;
use crate::config::{ControllerConfig, Settings, ShareLimit, share_limit_entries, share_limits_in_order};
use crate::duration::{
    DurationError, DurationValue, duration_fits, duration_in_range, duration_result,
    parse_duration_minutes,
};
use crate::processes::common::{ProcessError, complete, is_complete};
use crate::qbit_api::{MinuteLimit, Torrent, has_prefix, starts_with, minute_limit_value};
use crate::tags::{
    law_parsed_tags_valid, law_tags_round_trip, valid_tag, distinct, has_tag, insert_tag, opt_chars, parse_tags, set_of, sorted_tags_string, tag_set,
    tags_minus, tags_text, tags_union,
};
use crate::text::{contains_string, decimal, decimal_string, str_eq, views};

verus! {

/// Every one of `req` is among `tags`.
pub open spec fn holds_all(req: Seq<String>, tags: Set<Seq<char>>) -> bool {
    forall|i: int| 0 <= i < req.len() ==> tags.contains(#[trigger] req[i]@)
}

/// Some one of `req` is among `tags`.
pub open spec fn holds_any(req: Seq<String>, tags: Set<Seq<char>>) -> bool {
    exists|i: int| 0 <= i < req.len() && tags.contains(#[trigger] req[i]@)
}

/// A torrent with this category and these tags falls in the group.
pub open spec fn group_matches(g: ShareLimit, category: Seq<char>, tags: Set<Seq<char>>) -> bool {
    &&& (g.categories matches Some(c) ==> views(c@).contains(category))
    &&& (g.include_all_tags matches Some(r) ==> holds_all(r@, tags))
    &&& (g.include_any_tags matches Some(r) ==> holds_any(r@, tags))
    &&& (g.exclude_all_tags matches Some(r) ==> !holds_all(r@, tags))
    &&& (g.exclude_any_tags matches Some(r) ==> !holds_any(r@, tags))
}

fn all_held(req: &Vec<String>, tags: &Vec<String>) -> (b: bool)
    ensures
        b == holds_all(req@, set_of(tags@)),
{
    let mut i: usize = 0;
    while i < req.len()
        invariant
            i <= req@.len(),
            forall|k: int| 0 <= k < i ==> set_of(tags@).contains(#[trigger] req@[k]@),
        decreases req@.len() - i,
    {
        if !has_tag(tags, req[i].as_str()) {
            return false;
        }
        i = i + 1;
    }
    true
}

fn any_held(req: &Vec<String>, tags: &Vec<String>) -> (b: bool)
    ensures
        b == holds_any(req@, set_of(tags@)),
{
    let mut i: usize = 0;
    while i < req.len()
        invariant
            i <= req@.len(),
            forall|k: int| 0 <= k < i ==> !set_of(tags@).contains(#[trigger] req@[k]@),
        decreases req@.len() - i,
    {
        if has_tag(tags, req[i].as_str()) {
            return true;
        }
        i = i + 1;
    }
    false
}

/// Whether a torrent, with the tags given, falls in the group: its category
/// among the group's categories, and its tags passing each tag rule given.
pub fn matches_share_limit_group(group: &ShareLimit, torrent: &Torrent, torrent_tags: &Vec<String>) -> (b: bool)
    ensures
        b == group_matches(*group, opt_chars(torrent.category), set_of(torrent_tags@)),
{
    if let Some(categories) = &group.categories {
        let category: &str = match &torrent.category {
            Some(c) => c.as_str(),
            None => "",
        };
        proof {
            reveal_strlit("");
        }
        assert(category@ == opt_chars(torrent.category));
        if !contains_string(categories, category) {
            return false;
        }
    }
    if let Some(required) = &group.include_all_tags {
        if !all_held(required, torrent_tags) {
            return false;
        }
    }
    if let Some(any) = &group.include_any_tags {
        if !any_held(any, torrent_tags) {
            return false;
        }
    }
    if let Some(excluded) = &group.exclude_all_tags {
        if all_held(excluded, torrent_tags) {
            return false;
        }
    }
    if let Some(excluded) = &group.exclude_any_tags {
        if any_held(excluded, torrent_tags) {
            return false;
        }
    }
    true
}

/// Why a torrent is kept from its group's limits, with the tag that says so.
#[derive(Debug, Clone)]
pub enum Protection {
    Unprotected,
    MinSeedingTime(String),
    MinSeeds(String),
}

impl Protection {
    /// Whether the torrent is protected.
    pub fn is_protected(&self) -> (b: bool)
        ensures
            b == !(*self is Unprotected),
    {
        match self {
            Protection::Unprotected => false,
            _ => true,
        }
    }

    /// The tag that marks the protection, if any.
    pub fn protection_tag(&self) -> (r: Option<String>)
        ensures
            match *self {
                Protection::Unprotected => r is None,
                Protection::MinSeedingTime(t) => r matches Some(s) && s@ == t@,
                Protection::MinSeeds(t) => r matches Some(s) && s@ == t@,
            },
    {
        match self {
            Protection::Unprotected => None,
            Protection::MinSeedingTime(tag) => Some(tag.clone()),
            Protection::MinSeeds(tag) => Some(tag.clone()),
        }
    }
}

/// Seconds the torrent has seeded, 0 when unknown.
pub open spec fn seeded_seconds(t: Torrent) -> int {
    match t.seeding_time {
        Some(s) => s as int,
        None => 0,
    }
}

/// Peers seeding the torrent, 0 when unknown.
pub open spec fn seed_count(t: Torrent) -> int {
    match t.num_complete {
        Some(n) => n as int,
        None => 0,
    }
}

/// The group wants a positive minimum seeding time that the torrent has not
/// reached.
pub open spec fn min_time_short(g: ShareLimit, t: Torrent) -> bool {
    g.min_seeding_time matches Some(v) && duration_result(v) matches Ok(m) && m * 60 > 0
        && seeded_seconds(t) < m * 60
}

/// The group wants a positive number of seeds that the torrent lacks.
pub open spec fn min_seeds_short(g: ShareLimit, t: Torrent) -> bool {
    g.min_num_seeds matches Some(n) && n > 0 && seed_count(t) < n
}

/// The torrent is protected from its group's limits.
pub open spec fn protected(g: ShareLimit, t: Torrent) -> bool {
    min_time_short(g, t) || min_seeds_short(g, t)
}

/// The error met reading the group's minimum seeding time, if any.
pub open spec fn protection_error(g: ShareLimit) -> Option<DurationError> {
    match g.min_seeding_time {
        Some(v) => match duration_result(v) {
            Err(e) => Some(e),
            Ok(_) => None,
        },
        None => None,
    }
}

/// Reading the minimum seeding time, and turning it into seconds, stays
/// within `i64`.
pub open spec fn protection_fits(g: ShareLimit) -> bool {
    g.min_seeding_time matches Some(v) ==> duration_fits(v) && (duration_result(v) matches Ok(m)
        ==> i64::MIN <= m * 60 <= i64::MAX)
}

/// Whether, and why, a torrent is kept from its group's limits: first a
/// minimum seeding time not yet reached, then too few seeds.
pub fn protection_reason(config: &ControllerConfig, group: &ShareLimit, torrent: &Torrent) -> (r: Result<Protection, DurationError>)
    requires
        protection_fits(*group),
    ensures
        match r {
            Err(e) => protection_error(*group) == Some(e),
            Ok(p) => protection_error(*group) is None && match p {
                Protection::MinSeedingTime(tag) => min_time_short(*group, *torrent) && tag@
                    == config.settings.share_limits_min_seeding_time_tag@,
                Protection::MinSeeds(tag) => !min_time_short(*group, *torrent) && min_seeds_short(
                    *group,
                    *torrent,
                ) && tag@ == config.settings.share_limits_min_num_seeds_tag@,
                Protection::Unprotected => !protected(*group, *torrent),
            },
        },
{
    if let Some(min_seeding_time) = &group.min_seeding_time {
        let minutes = match parse_duration_minutes(min_seeding_time) {
            Ok(m) => m,
            Err(e) => {
                return Err(e);
            },
        };
        let min_seconds = minutes * 60;
        let seeded: i64 = match torrent.seeding_time {
            Some(s) => s,
            None => 0,
        };
        if min_seconds > 0 && seeded < min_seconds {
            return Ok(
                Protection::MinSeedingTime(config.settings.share_limits_min_seeding_time_tag.clone()),
            );
        }
    }
    if let Some(min_num_seeds) = group.min_num_seeds {
        let seeds: i64 = match torrent.num_complete {
            Some(n) => n,
            None => 0,
        };
        if min_num_seeds > 0 && seeds < min_num_seeds {
            return Ok(
                Protection::MinSeeds(config.settings.share_limits_min_num_seeds_tag.clone()),
            );
        }
    }
    Ok(Protection::Unprotected)
}

/// Whether a torrent's group deletes it now, or why that cannot be told.
pub open spec fn cleanup_result(g: ShareLimit, t: Torrent, is_protected: bool, max_ratio_reached: bool) -> Result<bool, DurationError> {
    if !g.cleanup || is_protected {
        Ok(false)
    } else {
        match g.max_seeding_time {
            None => Ok(max_ratio_reached),
            Some(v) => match duration_result(v) {
                Err(e) => Err(e),
                Ok(m) => Ok(max_ratio_reached || (m >= 0 && seeded_seconds(t) >= m * 60)),
            },
        }
    }
}

/// Deciding the cleanup stays within `i64`.
pub open spec fn cleanup_fits(g: ShareLimit, is_protected: bool) -> bool {
    (g.cleanup && !is_protected) ==> (g.max_seeding_time matches Some(v) ==> duration_fits(v) && (
    duration_result(v) matches Ok(m) ==> (m >= 0 ==> m * 60 <= i64::MAX)))
}

/// Whether the group deletes the torrent: it cleans up, the torrent is not
/// protected, and its maximum ratio or seeding time is reached. Whether the
/// ratio is reached is a comparison of floating-point numbers, made outside
/// the library and handed in as `max_ratio_reached`.
pub fn should_cleanup(group: &ShareLimit, torrent: &Torrent, is_protected: bool, max_ratio_reached: bool) -> (r: Result<bool, DurationError>)
    requires
        cleanup_fits(*group, is_protected),
    ensures
        r == cleanup_result(*group, *torrent, is_protected, max_ratio_reached),
{
    if !group.cleanup || is_protected {
        return Ok(false);
    }
    let max_time_reached = match &group.max_seeding_time {
        Some(max_seeding_time) => {
            let minutes = match parse_duration_minutes(max_seeding_time) {
                Ok(m) => m,
                Err(e) => {
                    return Err(e);
                },
            };
            let seeded: i64 = match torrent.seeding_time {
                Some(s) => s,
                None => 0,
            };
            minutes >= 0 && seeded >= minutes * 60
        },
        None => false,
    };
    Ok(max_ratio_reached || max_time_reached)
}

/// The seeding-time limit for a configured maximum: none configured gives
/// the global limit, a negative one no limit.
pub open spec fn seeding_limit_result(value: Option<DurationValue>) -> Result<MinuteLimit, DurationError> {
    match value {
        None => Ok(MinuteLimit::Global),
        Some(v) => match duration_result(v) {
            Err(e) => Err(e),
            Ok(m) => if m < 0 {
                Ok(MinuteLimit::NoLimit)
            } else {
                Ok(MinuteLimit::Limited(m as u64))
            },
        },
    }
}

/// The seeding-time limit for a configured maximum.
pub fn seeding_time_limit(value: &Option<DurationValue>) -> (r: Result<MinuteLimit, DurationError>)
    requires
        *value matches Some(v) ==> duration_fits(v),
    ensures
        r == seeding_limit_result(*value),
{
    match value {
        Some(v) => match parse_duration_minutes(v) {
            Err(e) => Err(e),
            Ok(minutes) => if minutes < 0 {
                Ok(MinuteLimit::NoLimit)
            } else {
                Ok(MinuteLimit::Limited(minutes as u64))
            },
        },
        None => Ok(MinuteLimit::Global),
    }
}

/// Bytes per second for a limit in KiB per second; a negative limit is none.
pub open spec fn upload_bytes(kib_per_second: i64) -> int {
    if kib_per_second < 0 {
        0
    } else {
        kib_per_second * 1024
    }
}

/// Bytes per second for an upload limit in KiB per second.
pub fn upload_limit_bytes(kib_per_second: i64) -> (r: u64)
    requires
        kib_per_second * 1024 <= u64::MAX,
    ensures
        r == upload_bytes(kib_per_second),
{
    if kib_per_second < 0 {
        0
    } else {
        kib_per_second as u64 * 1024
    }
}

/// What qBittorrent reports for a torrent's seeding-time limit is the limit
/// wanted.
pub open spec fn seeding_limit_agrees(desired: MinuteLimit, current: Option<i64>) -> bool {
    match current {
        None => false,
        Some(c) => match desired {
            MinuteLimit::Global => c == -2,
            MinuteLimit::NoLimit => c == -1,
            MinuteLimit::Limited(v) => c >= 0 && c == v,
        },
    }
}

/// Whether the reported seeding-time limit is the one wanted.
pub fn seeding_time_limit_matches(desired: MinuteLimit, current: Option<i64>) -> (b: bool)
    ensures
        b == seeding_limit_agrees(desired, current),
{
    let current = match current {
        Some(value) => value,
        None => {
            return false;
        },
    };
    match desired {
        MinuteLimit::Global => current == -2,
        MinuteLimit::NoLimit => current == -1,
        MinuteLimit::Limited(value) => current >= 0 && current as u64 == value,
    }
}

/// What qBittorrent reports for a torrent's upload limit is the limit
/// wanted; 0 bytes wanted means none, which it reports as 0 or less.
pub open spec fn upload_limit_agrees(desired_bytes: u64, current: Option<i64>) -> bool {
    match current {
        None => false,
        Some(c) => if desired_bytes == 0 {
            c <= 0
        } else {
            c >= 0 && c == desired_bytes
        },
    }
}

/// Whether the reported upload limit is the one wanted.
pub fn upload_limit_matches(desired_bytes: u64, current: Option<i64>) -> (b: bool)
    ensures
        b == upload_limit_agrees(desired_bytes, current),
{
    let current = match current {
        Some(value) => value,
        None => {
            return false;
        },
    };
    if desired_bytes == 0 {
        current <= 0
    } else {
        current >= 0 && current as u64 == desired_bytes
    }
}

/// The tag naming a group: the configured prefix, `_`, the priority, `.`,
/// the group's name.
pub open spec fn group_tag_text(prefix: Seq<char>, priority: u32, name: Seq<char>) -> Seq<char> {
    prefix + "_"@ + decimal(priority as nat) + "."@ + name
}

/// The tag naming a share-limit group.
pub fn share_limit_group_tag(config: &ControllerConfig, name: &str, priority: u32) -> (r: String)
    ensures
        r@ == group_tag_text(config.settings.share_limits_tag@, priority, name@),
{
    let mut r = config.settings.share_limits_tag.clone();
    r.append("_");
    let p = decimal_string(priority as u64);
    r.append(p.as_str());
    r.append(".");
    r.append(name);
    r
}

/// A tag that the share-limit process owns: a group tag (the configured
/// prefix and `_`), or one of the two protection tags.
pub open spec fn managed_tag(s: Settings, tag: Seq<char>) -> bool {
    ||| has_prefix(tag, s.share_limits_tag@ + "_"@)
    ||| tag == s.share_limits_min_seeding_time_tag@
    ||| tag == s.share_limits_min_num_seeds_tag@
}

/// Whether the share-limit process owns the tag.
pub fn is_managed_share_limit_tag(config: &ControllerConfig, tag: &str) -> (b: bool)
    ensures
        b == managed_tag(config.settings, tag@),
{
    let mut prefix = config.settings.share_limits_tag.clone();
    prefix.append("_");
    starts_with(tag, prefix.as_str()) || str_eq(
        tag,
        config.settings.share_limits_min_seeding_time_tag.as_str(),
    ) || str_eq(tag, config.settings.share_limits_min_num_seeds_tag.as_str())
}


/// The group a torrent falls in: among the groups it matches, the one with
/// the lowest priority number, the earlier in the configuration on a tie.
pub open spec fn group_chosen(e: Seq<(Seq<char>, ShareLimit)>, cat: Seq<char>, tags: Set<Seq<char>>, i: int) -> bool {
    &&& 0 <= i < e.len()
    &&& group_matches(e[i].1, cat, tags)
    &&& forall|j: int|
        0 <= j < e.len() && group_matches(#[trigger] e[j].1, cat, tags) ==> e[i].1.priority
            < e[j].1.priority || (e[i].1.priority == e[j].1.priority && i <= j)
}

/// The torrent matches no group.
pub open spec fn no_group(e: Seq<(Seq<char>, ShareLimit)>, cat: Seq<char>, tags: Set<Seq<char>>) -> bool {
    forall|j: int| 0 <= j < e.len() ==> !group_matches(#[trigger] e[j].1, cat, tags)
}

/// The share-limit pass leaves the torrent alone: unfinished while only
/// finished torrents are handled, or without a name.
pub open spec fn share_limit_skips(s: Settings, t: Torrent) -> bool {
    (s.share_limits_filter_completed && !complete(t)) || t.name is None
}

/// The tags a torrent carries.
pub open spec fn current_tags(t: Torrent) -> Set<Seq<char>> {
    tag_set(opt_chars(t.tags))
}

/// The groups of the configuration, which the share-limit pass needs.
pub fn share_limit_groups(config: &ControllerConfig) -> (r: Result<&IndexMap<String, ShareLimit>, ProcessError>)
    ensures
        match config.share_limits {
            Some(m) => r == Ok::<&IndexMap<String, ShareLimit>, ProcessError>(&m),
            None => r == Err::<&IndexMap<String, ShareLimit>, ProcessError>(ProcessError::MissingConfig),
        },
{
    match &config.share_limits {
        Some(m) => Ok(m),
        None => Err(ProcessError::MissingConfig),
    }
}

/// The position, in the configuration's order, of the group that a torrent
/// falls in; `None` when the pass leaves it alone or no group matches. A
/// torrent that the pass handles needs a hash.
pub fn select_share_limit_group(config: &ControllerConfig, groups: &IndexMap<String, ShareLimit>, torrent: &Torrent) -> (r: Result<Option<usize>, ProcessError>)
    ensures
        share_limit_skips(config.settings, *torrent) ==> r == Ok::<Option<usize>, ProcessError>(None),
        !share_limit_skips(config.settings, *torrent) && torrent.hash is None ==> r == Err::<
            Option<usize>,
            ProcessError,
        >(ProcessError::MissingHash),
        !share_limit_skips(config.settings, *torrent) && torrent.hash is Some ==> match r {
            Ok(Some(i)) => group_chosen(
                share_limit_entries(*groups),
                opt_chars(torrent.category),
                current_tags(*torrent),
                i as int,
            ),
            Ok(None) => no_group(
                share_limit_entries(*groups),
                opt_chars(torrent.category),
                current_tags(*torrent),
            ),
            Err(_) => false,
        },
{
    if config.settings.share_limits_filter_completed && !is_complete(torrent) {
        return Ok(None);
    }
    if torrent.name.is_none() {
        return Ok(None);
    }
    if torrent.hash.is_none() {
        return Err(ProcessError::MissingHash);
    }
    let tags = parse_tags(&torrent.tags);
    let entries = share_limits_in_order(groups);
    let ghost e = share_limit_entries(*groups);
    let ghost cat = opt_chars(torrent.category);
    let ghost ts = current_tags(*torrent);
    let mut best: Option<usize> = None;
    let mut i: usize = 0;
    while i < entries.len()
        invariant
            i <= entries@.len(),
            entries@.len() == e.len(),
            forall|k: int|
                0 <= k < entries@.len() ==> (#[trigger] entries@[k]).0@ == e[k].0 && *entries@[k].1
                    == e[k].1,
            set_of(tags@) == ts,
            cat == opt_chars(torrent.category),
            match best {
                Some(b) => b < i && group_matches(e[b as int].1, cat, ts) && forall|j: int|
                    0 <= j < i && group_matches(#[trigger] e[j].1, cat, ts) ==> e[b as int].1.priority
                        < e[j].1.priority || (e[b as int].1.priority == e[j].1.priority && b <= j),
                None => forall|j: int| 0 <= j < i ==> !group_matches(#[trigger] e[j].1, cat, ts),
            },
        decreases entries@.len() - i,
    {
        let group = entries[i].1;
        assert(*group == e[i as int].1);
        let m = matches_share_limit_group(group, torrent, &tags);
        assert(m == group_matches(e[i as int].1, cat, ts));
        if m {
            match best {
                None => {
                    best = Some(i);
                },
                Some(b) => {
                    assert(*entries@[b as int].1 == e[b as int].1);
                    if group.priority < entries[b].1.priority {
                        best = Some(i);
                    }
                },
            }
        }
        i = i + 1;
    }
    Ok(best)
}

/// The ratio limit to set: none, or the group's maximum ratio (a
/// floating-point number, which the caller holds).
#[derive(Clone, Copy, Debug, PartialEq, Eq, Structural)]
pub enum RatioChoice {
    NoLimit,
    GroupLimit,
}

/// Comparisons of floating-point ratios, made by the caller for a torrent
/// and its group: whether the torrent's ratio reached the group's maximum
/// (a maximum below 0 is never reached); whether qBittorrent reports the
/// ratio limit that the group's maximum gives; whether it reports no ratio
/// limit.
#[derive(Clone, Copy, Debug)]
pub struct RatioFacts {
    pub max_ratio_reached: bool,
    pub group_ratio_matches: bool,
    pub no_limit_ratio_matches: bool,
}

/// Limits to change on a torrent.
pub struct LimitChanges {
    /// Ratio and seeding-time limits to set, when they differ.
    pub share_limits: Option<(RatioChoice, MinuteLimit)>,
    /// Upload limit in bytes per second to set, when it differs.
    pub upload_limit: Option<u64>,
    /// Whether to start the torrent afterwards.
    pub resume: bool,
}

/// What happens to a torrent once its group tags are synchronised.
pub enum ShareLimitAction {
    /// The torrent and its data are deleted.
    Delete,
    /// The torrent stays; its limits change when `changes` says so, and its
    /// tags become `new_tags`.
    Keep { changes: Option<LimitChanges>, new_tags: String },
}

/// The share-limit decisions for one torrent, in the order they are
/// carried out: tags removed, tags added, then the outcome (which may be an
/// error met after the tags were synchronised).
pub struct ShareLimitPlan {
    pub tags_to_remove: Vec<String>,
    pub tags_to_add: Vec<String>,
    pub outcome: Result<ShareLimitAction, DurationError>,
}

/// The tag that marks the torrent's protection, if any.
pub open spec fn protection_tag_of(s: Settings, g: ShareLimit, t: Torrent) -> Option<Seq<char>> {
    if min_time_short(g, t) {
        Some(s.share_limits_min_seeding_time_tag@)
    } else if min_seeds_short(g, t) {
        Some(s.share_limits_min_num_seeds_tag@)
    } else {
        None
    }
}

/// The managed tags a torrent of the group should carry: the group's tag
/// and its protection tag.
pub open spec fn desired_managed(s: Settings, name: Seq<char>, g: ShareLimit, t: Torrent) -> Set<Seq<char>> {
    let base = set![group_tag_text(s.share_limits_tag@, g.priority, name)];
    match protection_tag_of(s, g, t) {
        Some(x) => base.insert(x),
        None => base,
    }
}

/// The managed tags among `tags`.
pub open spec fn managed_among(s: Settings, tags: Set<Seq<char>>) -> Set<Seq<char>> {
    tags.filter(|x: Seq<char>| managed_tag(s, x))
}

/// The managed tags of `v`.
pub fn managed_tags(config: &ControllerConfig, v: &Vec<String>) -> (r: Vec<String>)
    ensures
        distinct(r@),
        set_of(r@) == managed_among(config.settings, set_of(v@)),
{
    let mut r: Vec<String> = Vec::new();
    let mut i: usize = 0;
    assert(set_of(r@) =~= managed_among(config.settings, set_of(v@.take(0))));
    while i < v.len()
        invariant
            i <= v@.len(),
            distinct(r@),
            set_of(r@) == managed_among(config.settings, set_of(v@.take(i as int))),
        decreases v@.len() - i,
    {
        assert(views(v@.take(i + 1)) =~= views(v@.take(i as int)).push(v@[i as int]@));
        proof {
            crate::tags::lemma_push_to_set(views(v@.take(i as int)), v@[i as int]@);
        }
        if is_managed_share_limit_tag(config, v[i].as_str()) {
            insert_tag(&mut r, v[i].clone());
        }
        assert(set_of(r@) =~= managed_among(config.settings, set_of(v@.take(i + 1))));
        i = i + 1;
    }
    assert(v@.take(v@.len() as int) =~= v@);
    r
}

/// The arithmetic of the plan for a torrent stays within its integer types.
pub open spec fn plan_fits(g: ShareLimit, t: Torrent, facts: RatioFacts) -> bool {
    &&& protection_fits(g)
    &&& protection_error(g) is None ==> {
        &&& cleanup_fits(g, protected(g, t))
        &&& cleanup_result(g, t, protected(g, t), facts.max_ratio_reached) == Ok::<
            bool,
            DurationError,
        >(false) ==> {
            &&& (!protected(g, t) ==> (g.max_seeding_time matches Some(v) ==> duration_fits(v)))
            &&& ((protected(g, t) || seeding_limit_result(g.max_seeding_time) is Ok) ==> (
            g.limit_upload_speed matches Some(k) ==> k * 1024 <= u64::MAX))
        }
    }
}

/// The seeding-time limit a torrent gets: none while protected, else its
/// group's.
pub open spec fn wanted_seeding_limit(g: ShareLimit, t: Torrent) -> Result<MinuteLimit, DurationError> {
    if protected(g, t) {
        Ok(MinuteLimit::NoLimit)
    } else {
        seeding_limit_result(g.max_seeding_time)
    }
}

/// The limit changes for a kept torrent, given its seeding-time limit.
pub open spec fn changes_wanted(g: ShareLimit, t: Torrent, facts: RatioFacts, limit: MinuteLimit, c: Option<LimitChanges>) -> bool {
    let prot = protected(g, t);
    let ratio_ok = if prot {
        facts.no_limit_ratio_matches
    } else {
        facts.group_ratio_matches
    };
    let share_ok = ratio_ok && seeding_limit_agrees(limit, t.seeding_time_limit);
    let upload_ok = match g.limit_upload_speed {
        None => true,
        Some(k) => upload_limit_agrees(upload_bytes(k) as u64, t.up_limit),
    };
    if share_ok && upload_ok {
        c is None
    } else {
        c matches Some(ch) && ch.share_limits == (if share_ok {
            None
        } else {
            Some(
                (
                    if prot {
                        RatioChoice::NoLimit
                    } else {
                        RatioChoice::GroupLimit
                    },
                    limit,
                ),
            )
        }) && ch.upload_limit == (match g.limit_upload_speed {
            Some(k) => if upload_ok {
                None
            } else {
                Some(upload_bytes(k) as u64)
            },
            None => None,
        }) && ch.resume == g.resume_torrent_after_change
    }
}

/// The outcome for a torrent once its tags are synchronised.
pub open spec fn outcome_wanted(s: Settings, name: Seq<char>, g: ShareLimit, t: Torrent, facts: RatioFacts, o: Result<ShareLimitAction, DurationError>) -> bool {
    match cleanup_result(g, t, protected(g, t), facts.max_ratio_reached) {
        Err(e) => o == Err::<ShareLimitAction, DurationError>(e),
        Ok(true) => o matches Ok(ShareLimitAction::Delete),
        Ok(false) => match wanted_seeding_limit(g, t) {
            Err(e) => o == Err::<ShareLimitAction, DurationError>(e),
            Ok(limit) => o matches Ok(ShareLimitAction::Keep { changes, new_tags }) && changes_wanted(
                g,
                t,
                facts,
                limit,
                changes,
            ) && tags_text(
                current_tags(t).difference(managed_among(s, current_tags(t))).union(
                    desired_managed(s, name, g, t),
                ),
                new_tags@,
            ),
        },
    }
}

/// The share-limit decisions for a torrent in a group: its managed tags
/// brought to the group's tag and protection tag; then its deletion, when
/// the group cleans up and a maximum is reached; else its limits brought to
/// the group's (or cleared while protected) and its tags rewritten.
pub fn plan_share_limit(config: &ControllerConfig, group_name: &str, group: &ShareLimit, torrent: &Torrent, facts: RatioFacts) -> (r: Result<ShareLimitPlan, DurationError>)
    requires
        plan_fits(*group, *torrent, facts),
    ensures
        match protection_error(*group) {
            Some(e) => r matches Err(x) && x == e,
            None => r matches Ok(plan) && {
                let desired = desired_managed(config.settings, group_name@, *group, *torrent);
                let current = current_tags(*torrent);
                &&& distinct(plan.tags_to_remove@)
                &&& set_of(plan.tags_to_remove@) == managed_among(config.settings, current).difference(desired)
                &&& distinct(plan.tags_to_add@)
                &&& set_of(plan.tags_to_add@) == desired.difference(current)
                &&& outcome_wanted(config.settings, group_name@, *group, *torrent, facts, plan.outcome)
            },
        },
{
    let protection = match protection_reason(config, group, torrent) {
        Ok(p) => p,
        Err(e) => {
            return Err(e);
        },
    };
    let is_protected = protection.is_protected();
    assert(is_protected == protected(*group, *torrent));
    let current = parse_tags(&torrent.tags);
    let mut desired: Vec<String> = Vec::new();
    insert_tag(&mut desired, share_limit_group_tag(config, group_name, group.priority));
    if let Some(tag) = protection.protection_tag() {
        insert_tag(&mut desired, tag);
    }
    assert(set_of(desired@) =~= desired_managed(config.settings, group_name@, *group, *torrent));
    let managed = managed_tags(config, &current);
    let tags_to_remove = tags_minus(&managed, &desired);
    let tags_to_add = tags_minus(&desired, &current);
    let outcome = match should_cleanup(group, torrent, is_protected, facts.max_ratio_reached) {
        Err(e) => Err(e),
        Ok(true) => Ok(ShareLimitAction::Delete),
        Ok(false) => {
            let limit = if is_protected {
                Ok(MinuteLimit::NoLimit)
            } else {
                seeding_time_limit(&group.max_seeding_time)
            };
            match limit {
                Err(e) => Err(e),
                Ok(limit) => {
                    let ratio_ok = if is_protected {
                        facts.no_limit_ratio_matches
                    } else {
                        facts.group_ratio_matches
                    };
                    let share_ok = ratio_ok && seeding_time_limit_matches(
                        limit,
                        torrent.seeding_time_limit,
                    );
                    let desired_upload: Option<u64> = match group.limit_upload_speed {
                        Some(k) => Some(upload_limit_bytes(k)),
                        None => None,
                    };
                    let upload_ok = match desired_upload {
                        Some(bytes) => upload_limit_matches(bytes, torrent.up_limit),
                        None => true,
                    };
                    let changes = if share_ok && upload_ok {
                        None
                    } else {
                        let ratio = if is_protected {
                            RatioChoice::NoLimit
                        } else {
                            RatioChoice::GroupLimit
                        };
                        Some(
                            LimitChanges {
                                share_limits: if share_ok {
                                    None
                                } else {
                                    Some((ratio, limit))
                                },
                                upload_limit: match desired_upload {
                                    Some(bytes) => if upload_ok {
                                        None
                                    } else {
                                        Some(bytes)
                                    },
                                    None => None,
                                },
                                resume: group.resume_torrent_after_change,
                            },
                        )
                    };
                    let unmanaged = tags_minus(&current, &managed);
                    let kept = tags_union(&unmanaged, &desired);
                    let new_tags = sorted_tags_string(&kept);
                    Ok(ShareLimitAction::Keep { changes, new_tags })
                },
            }
        },
    };
    Ok(ShareLimitPlan { tags_to_remove, tags_to_add, outcome })
}


/// Whether the plan for a torrent keeps its arithmetic within its integer
/// types, which `plan_share_limit` needs.
pub fn plan_share_limit_fits(config: &ControllerConfig, group: &ShareLimit, torrent: &Torrent, facts: RatioFacts) -> (b: bool)
    ensures
        b == plan_fits(*group, *torrent, facts),
{
    if let Some(v) = &group.min_seeding_time {
        if !duration_in_range(v) {
            return false;
        }
        match parse_duration_minutes(v) {
            Ok(m) => {
                if m.checked_mul(60).is_none() {
                    return false;
                }
            },
            Err(_) => {
                return true;
            },
        }
    }
    let is_protected = match protection_reason(config, group, torrent) {
        Ok(p) => p.is_protected(),
        Err(_) => {
            return true;
        },
    };
    if group.cleanup && !is_protected {
        if let Some(v) = &group.max_seeding_time {
            if !duration_in_range(v) {
                return false;
            }
            if let Ok(m) = parse_duration_minutes(v) {
                if m >= 0 && m.checked_mul(60).is_none() {
                    return false;
                }
            }
        }
    }
    match should_cleanup(group, torrent, is_protected, facts.max_ratio_reached) {
        Ok(false) => {},
        _ => {
            return true;
        },
    }
    if !is_protected {
        if let Some(v) = &group.max_seeding_time {
            if !duration_in_range(v) {
                return false;
            }
        }
    }
    let seeding_ok = is_protected || seeding_time_limit(&group.max_seeding_time).is_ok();
    if seeding_ok {
        if let Some(k) = group.limit_upload_speed {
            if k > 18014398509481983 {
                return false;
            }
        }
    }
    true
}


/// Every managed tag that a torrent of a group is meant to carry is one the
/// share-limit process owns, so a later run removes it once it is stale.
pub proof fn law_desired_tags_managed(s: Settings, name: Seq<char>, g: ShareLimit, t: Torrent)
    ensures
        forall|x: Seq<char>| desired_managed(s, name, g, t).contains(x) ==> managed_tag(s, x),
{
    let p = s.share_limits_tag@ + "_"@;
    let tag = group_tag_text(s.share_limits_tag@, g.priority, name);
    assert(tag.take(p.len() as int) =~= p);
}

/// A protected torrent is never deleted, and the limits it gets are none.
pub proof fn law_protected_kept(s: Settings, name: Seq<char>, g: ShareLimit, t: Torrent, facts: RatioFacts, o: Result<ShareLimitAction, DurationError>)
    requires
        protected(g, t),
        outcome_wanted(s, name, g, t, facts, o),
    ensures
        !(o matches Ok(ShareLimitAction::Delete)),
        o matches Ok(ShareLimitAction::Keep { changes: Some(c), .. }) ==> (c.share_limits matches Some(
            l,
        ) ==> l == (RatioChoice::NoLimit, MinuteLimit::NoLimit)),
{
}

/// Limits read back as they were set: qBittorrent reporting the number
/// that a minute limit is written as agrees with that limit.
pub proof fn law_seeding_limit_read_back(l: MinuteLimit)
    requires
        l matches MinuteLimit::Limited(v) ==> v <= i64::MAX,
    ensures
        seeding_limit_agrees(l, Some(minute_limit_value(l) as i64)),
{
}

/// An upload limit reads back as it was set.
pub proof fn law_upload_limit_read_back(bytes: u64)
    requires
        bytes <= i64::MAX,
    ensures
        upload_limit_agrees(bytes, Some(bytes as i64)),
{
}

/// Once a torrent's group tags are written, the next run changes no tag:
/// reading them back, no managed tag is left to remove and none of those
/// desired is missing (for desired tags that a tag list can hold).
pub proof fn law_share_tags_steady(s: Settings, tags: Seq<char>, desired: Set<Seq<char>>, text: Seq<char>)
    requires
        forall|t: Seq<char>| desired.contains(t) ==> valid_tag(t),
        tags_text(
            tag_set(tags).difference(managed_among(s, tag_set(tags))).union(desired),
            text,
        ),
    ensures
        managed_among(s, tag_set(text)).difference(desired) =~= Set::<Seq<char>>::empty(),
        desired.difference(tag_set(text)) =~= Set::<Seq<char>>::empty(),
{
    let c = tag_set(tags);
    let n = c.difference(managed_among(s, c)).union(desired);
    law_parsed_tags_valid(tags);
    assert forall|t: Seq<char>| n.contains(t) implies valid_tag(t) by {
        if c.contains(t) {
        }
    }
    law_tags_round_trip(n, text);
}

/// Cleanup by seeding time: for a group that cleans up and whose maximum
/// seeding time reads as `m >= 0` minutes, an unprotected torrent whose
/// maximum ratio is not reached is deleted exactly when it has seeded at
/// least `m * 60` seconds (a group of `30d` keeps a torrent seeded one day).
pub proof fn law_cleanup_at_max_seeding_time(g: ShareLimit, t: Torrent, v: DurationValue, m: int)
    requires
        g.cleanup,
        g.max_seeding_time == Some(v),
        duration_result(v) == Ok::<int, DurationError>(m),
        m >= 0,
    ensures
        cleanup_result(g, t, false, false) == Ok::<bool, DurationError>(
            (match t.seeding_time {
                Some(s) => s as int,
                None => 0int,
            }) >= m * 60,
        ),
{
}

/// A negative maximum seeding time sets no time limit: only the ratio can
/// then make the group delete an unprotected torrent.
pub proof fn law_cleanup_negative_max_seeding_time(g: ShareLimit, t: Torrent, v: DurationValue, m: int, max_ratio_reached: bool)
    requires
        g.cleanup,
        g.max_seeding_time == Some(v),
        duration_result(v) == Ok::<int, DurationError>(m),
        m < 0,
    ensures
        cleanup_result(g, t, false, max_ratio_reached) == Ok::<bool, DurationError>(max_ratio_reached),
{
}

/// A torrent is never deleted by a group that does not clean up, nor while
/// it is protected; a group that cleans up deletes an unprotected torrent
/// whose maximum ratio is reached (its maximum seeding time, if any, being
/// readable); without a maximum seeding time only the ratio counts.
pub proof fn law_cleanup_conditions(g: ShareLimit, t: Torrent, is_protected: bool, max_ratio_reached: bool)
    ensures
        (!g.cleanup || is_protected) ==> cleanup_result(g, t, is_protected, max_ratio_reached)
            == Ok::<bool, DurationError>(false),
        (g.cleanup && !is_protected && max_ratio_reached && (g.max_seeding_time matches Some(v)
            ==> duration_result(v) is Ok)) ==> cleanup_result(g, t, is_protected, max_ratio_reached)
            == Ok::<bool, DurationError>(true),
        (g.cleanup && !is_protected && g.max_seeding_time is None) ==> cleanup_result(
            g,
            t,
            is_protected,
            max_ratio_reached,
        ) == Ok::<bool, DurationError>(max_ratio_reached),
        (g.cleanup && !is_protected && (g.max_seeding_time matches Some(v) && duration_result(v) is Err))
            ==> cleanup_result(g, t, is_protected, max_ratio_reached) == Err::<bool, DurationError>(
            duration_result(g.max_seeding_time->0)->Err_0,
        ),
{
}

/// Seeding longer never saves a torrent: one deleted after some seeding
/// time is deleted after any longer one, all else equal.
pub proof fn law_cleanup_monotone(g: ShareLimit, t1: Torrent, t2: Torrent, is_protected: bool, max_ratio_reached: bool)
    requires
        (match t1.seeding_time {
            Some(s) => s as int,
            None => 0int,
        }) <= (match t2.seeding_time {
            Some(s) => s as int,
            None => 0int,
        }),
        cleanup_result(g, t1, is_protected, max_ratio_reached) == Ok::<bool, DurationError>(true),
    ensures
        cleanup_result(g, t2, is_protected, max_ratio_reached) == Ok::<bool, DurationError>(true),
{
}

/// The category rule of a group: with categories listed, a torrent falls in
/// the group exactly when it would without them and its category is one of
/// them.
pub proof fn law_group_categories(g: ShareLimit, category: Seq<char>, tags: Set<Seq<char>>, c: Vec<String>)
    requires
        g.categories == Some(c),
    ensures
        group_matches(g, category, tags) == (group_matches(ShareLimit { categories: None, ..g }, category, tags)
            && exists|k: int| 0 <= k < c@.len() && (#[trigger] c@[k])@ == category),
{
    if exists|k: int| 0 <= k < c@.len() && (#[trigger] c@[k])@ == category {
        let k = choose|k: int| 0 <= k < c@.len() && (#[trigger] c@[k])@ == category;
        assert(views(c@)[k] == category);
    }
    if views(c@).contains(category) {
        let k = choose|k: int| 0 <= k < views(c@).len() && views(c@)[k] == category;
        assert(c@[k]@ == category);
    }
}

/// The include-all rule of a group: with tags listed, a torrent falls in
/// the group exactly when it would without them and it carries every one.
pub proof fn law_group_include_all(g: ShareLimit, category: Seq<char>, tags: Set<Seq<char>>, r: Vec<String>)
    requires
        g.include_all_tags == Some(r),
    ensures
        group_matches(g, category, tags) == (group_matches(ShareLimit { include_all_tags: None, ..g }, category, tags)
            && forall|k: int| 0 <= k < r@.len() ==> tags.contains(#[trigger] r@[k]@)),
{
}

/// The include-any rule of a group: with tags listed, a torrent falls in
/// the group exactly when it would without them and it carries at least one
/// of them; carrying one suffices, all are not needed.
pub proof fn law_group_include_any(g: ShareLimit, category: Seq<char>, tags: Set<Seq<char>>, r: Vec<String>)
    requires
        g.include_any_tags == Some(r),
    ensures
        group_matches(g, category, tags) == (group_matches(ShareLimit { include_any_tags: None, ..g }, category, tags)
            && exists|k: int| 0 <= k < r@.len() && tags.contains(#[trigger] r@[k]@)),
{
}

/// The exclude-all rule of a group: with tags listed, a torrent falls in
/// the group exactly when it would without them and it lacks at least one.
pub proof fn law_group_exclude_all(g: ShareLimit, category: Seq<char>, tags: Set<Seq<char>>, r: Vec<String>)
    requires
        g.exclude_all_tags == Some(r),
    ensures
        group_matches(g, category, tags) == (group_matches(ShareLimit { exclude_all_tags: None, ..g }, category, tags)
            && exists|k: int| 0 <= k < r@.len() && !tags.contains(#[trigger] r@[k]@)),
{
}

/// The exclude-any rule of a group: with tags listed, a torrent falls in
/// the group exactly when it would without them and it carries none.
pub proof fn law_group_exclude_any(g: ShareLimit, category: Seq<char>, tags: Set<Seq<char>>, r: Vec<String>)
    requires
        g.exclude_any_tags == Some(r),
    ensures
        group_matches(g, category, tags) == (group_matches(ShareLimit { exclude_any_tags: None, ..g }, category, tags)
            && forall|k: int| 0 <= k < r@.len() ==> !tags.contains(#[trigger] r@[k]@)),
{
}

/// A group with no rule takes every torrent.
pub proof fn law_group_without_rules(g: ShareLimit, category: Seq<char>, tags: Set<Seq<char>>)
    requires
        g.categories is None,
        g.include_all_tags is None,
        g.include_any_tags is None,
        g.exclude_all_tags is None,
        g.exclude_any_tags is None,
    ensures
        group_matches(g, category, tags),
{
}

/// The group chosen for a torrent is the one it matches with the lowest
/// priority number, the earliest on a tie, and there is only one.
pub proof fn law_group_chosen_lowest(e: Seq<(Seq<char>, ShareLimit)>, cat: Seq<char>, tags: Set<Seq<char>>, i: int, j: int)
    requires
        group_chosen(e, cat, tags, i),
        0 <= j < e.len(),
        group_matches(e[j].1, cat, tags),
    ensures
        e[i].1.priority <= e[j].1.priority,
        e[i].1.priority == e[j].1.priority ==> i <= j,
        group_chosen(e, cat, tags, j) ==> i == j,
{
}

} // verus!
