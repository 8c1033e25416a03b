//! The processes of a run, and the order they run in.
use vstd::prelude::*;
use crate::config::ControllerConfig;

verus! {

/// A process of a run.
#[derive(Clone, Copy, Debug, PartialEq, Eq, Structural)]
pub enum Step {
    AutoManagement,
    TrackerTags,
    ShareLimits,
    TagNames,
    CatMoves,
}

/// The processes a configuration turns on, in the order they run:
/// automatic management, tracker tags (for tags or for errors), share
/// limits, name tags, category moves.
pub open spec fn steps_wanted(c: ControllerConfig) -> Seq<Step> {
    let s0 = Seq::<Step>::empty();
    let s1 = if c.settings.enable_auto_management {
        s0.push(Step::AutoManagement)
    } else {
        s0
    };
    let s2 = if c.processes.tracker_tags || c.processes.tracker_errors {
        s1.push(Step::TrackerTags)
    } else {
        s1
    };
    let s3 = if c.processes.share_limits {
        s2.push(Step::ShareLimits)
    } else {
        s2
    };
    let s4 = if c.processes.tag_names {
        s3.push(Step::TagNames)
    } else {
        s3
    };
    if c.processes.cat_move {
        s4.push(Step::CatMoves)
    } else {
        s4
    }
}

/// The processes to run, in order.
pub fn steps_to_run(config: &ControllerConfig) -> (r: Vec<Step>)
    ensures
        r@ == steps_wanted(*config),
{
    let mut r: Vec<Step> = Vec::new();
    if config.settings.enable_auto_management {
        r.push(Step::AutoManagement);
    }
    if config.processes.tracker_tags || config.processes.tracker_errors {
        r.push(Step::TrackerTags);
    }
    if config.processes.share_limits {
        r.push(Step::ShareLimits);
    }
    if config.processes.tag_names {
        r.push(Step::TagNames);
    }
    if config.processes.cat_move {
        r.push(Step::CatMoves);
    }
    r
}

} // verus!
