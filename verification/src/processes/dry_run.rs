//! A dry run decides as a live run does: it only sends nothing.
use vstd::prelude::*;
use crate::config::{ControllerConfig, ShareLimit, TrackerRule};
use crate::duration::DurationError;
use crate::processes::common::auto_hashes;
use crate::processes::share_limits::{
    current_tags, desired_managed, managed_among, managed_tag, outcome_wanted, protection_tag_of,
    share_limit_skips, RatioFacts, ShareLimitAction,
};
use crate::processes::steps::steps_wanted;
use crate::processes::tracker_tags::{desired_tracker_set, owned_tracker_set};
use crate::qbit_api::{Torrent, Tracker};

verus! {

/// The two configurations differ at most in `settings.dry_run`.
pub open spec fn same_but_dry_run(a: ControllerConfig, b: ControllerConfig) -> bool {
    &&& a.qbit == b.qbit
    &&& a.processes == b.processes
    &&& a.names == b.names
    &&& a.cat_moves == b.cat_moves
    &&& a.trackers == b.trackers
    &&& a.share_limits == b.share_limits
    &&& a.settings.enable_auto_management == b.settings.enable_auto_management
    &&& a.settings.auto_management_ignore_tags == b.settings.auto_management_ignore_tags
    &&& a.settings.quiet == b.settings.quiet
    &&& a.settings.share_limits_tag == b.settings.share_limits_tag
    &&& a.settings.tracker_error_tag == b.settings.tracker_error_tag
    &&& a.settings.share_limits_min_seeding_time_tag == b.settings.share_limits_min_seeding_time_tag
    &&& a.settings.share_limits_min_num_seeds_tag == b.settings.share_limits_min_num_seeds_tag
    &&& a.settings.share_limits_filter_completed == b.settings.share_limits_filter_completed
}

/// A dry run makes the decisions of a live run: two configurations that
/// differ only in `dry_run` run the same processes, and give the same
/// torrents to put under automatic management, the same tracker tags, the
/// same share-limit group choice, managed tags, protection and outcome
/// (new tags, limits or deletion), and hence the same counts. Only the
/// requests differ: a dry run sends none (see the request builders).
pub proof fn law_dry_run_decides_alike(
    a: ControllerConfig,
    b: ControllerConfig,
    torrents: Seq<Torrent>,
    e: Seq<(Seq<char>, TrackerRule)>,
    trackers: Seq<Tracker>,
    name: Seq<char>,
    g: ShareLimit,
    t: Torrent,
    tags: Set<Seq<char>>,
    facts: RatioFacts,
    o: Result<ShareLimitAction, DurationError>,
)
    requires
        same_but_dry_run(a, b),
    ensures
        steps_wanted(a) == steps_wanted(b),
        auto_hashes(a.settings.auto_management_ignore_tags@, torrents) == auto_hashes(
            b.settings.auto_management_ignore_tags@,
            torrents,
        ),
        desired_tracker_set(a, e, trackers) == desired_tracker_set(b, e, trackers),
        owned_tracker_set(a, e) == owned_tracker_set(b, e),
        share_limit_skips(a.settings, t) == share_limit_skips(b.settings, t),
        managed_among(a.settings, tags) == managed_among(b.settings, tags),
        protection_tag_of(a.settings, g, t) == protection_tag_of(b.settings, g, t),
        desired_managed(a.settings, name, g, t) == desired_managed(b.settings, name, g, t),
        outcome_wanted(a.settings, name, g, t, facts, o) == outcome_wanted(b.settings, name, g, t, facts, o),
{
    assert forall|x: Seq<char>| managed_tag(a.settings, x) == managed_tag(b.settings, x) by {}
    assert(managed_among(a.settings, tags) =~= managed_among(b.settings, tags));
    let current = current_tags(t);
    assert(managed_among(a.settings, current) =~= managed_among(b.settings, current));
    assert(desired_managed(a.settings, name, g, t) =~= desired_managed(b.settings, name, g, t));
}

} // verus!
