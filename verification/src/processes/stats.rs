//! Counts of what a run did, and the text that reports them.
use vstd::prelude::*;
use vstd::string::*;
use crate::processes::share_limits::{ShareLimitAction, ShareLimitPlan};
use crate::processes::tag_names::TagAddition;
use crate::processes::tracker_tags::TagPlan;
use crate::text::{decimal, decimal_string};

verus! {

/// Counts of what a run did.
#[derive(Debug, Default, Clone)]
pub struct RunStats {
    pub torrents_total: usize,
    pub auto_management_enabled: usize,
    pub tracker_tags_added: usize,
    pub tracker_tags_removed: usize,
    pub share_limits_applied: usize,
    pub share_limits_cleaned_up: usize,
    pub share_limit_tags_added: usize,
    pub share_limit_tags_removed: usize,
    pub name_tags_added: usize,
    pub categories_changed: usize,
}

/// A line of the summary: its label, then the count.
pub open spec fn summary_line(label: Seq<char>, n: usize) -> Seq<char> {
    "\n  "@ + label + " : "@ + decimal(n as nat)
}

/// The summary of a run, with `(dry-run)` in its heading for a dry run.
pub open spec fn summary_text(s: RunStats, dry_run: bool) -> Seq<char> {
    "==================== Summary"@ + (if dry_run {
        " (dry-run)"@
    } else {
        ""@
    }) + " ===================="@ + summary_line("Torrents inspected        "@, s.torrents_total)
        + summary_line("Auto-management enabled   "@, s.auto_management_enabled) + summary_line(
        "Tracker tags added        "@,
        s.tracker_tags_added,
    ) + summary_line("Tracker tags removed      "@, s.tracker_tags_removed) + summary_line(
        "Share limits applied      "@,
        s.share_limits_applied,
    ) + summary_line("Share limits cleaned up   "@, s.share_limits_cleaned_up) + summary_line(
        "Share-limit tags added    "@,
        s.share_limit_tags_added,
    ) + summary_line("Share-limit tags removed  "@, s.share_limit_tags_removed) + summary_line(
        "Name tags added           "@,
        s.name_tags_added,
    ) + summary_line("Categories changed        "@, s.categories_changed)
}

/// Whether `a + b` fits in a `usize`.
pub open spec fn room(a: usize, b: int) -> bool {
    a + b <= usize::MAX
}

/// 1 for a share-limit plan that deletes the torrent, else 0.
pub open spec fn cleaned_up_count(plan: ShareLimitPlan) -> int {
    if plan.outcome matches Ok(ShareLimitAction::Delete) {
        1
    } else {
        0
    }
}

/// 1 for a share-limit plan that changes the torrent's limits, else 0.
pub open spec fn applied_count(plan: ShareLimitPlan) -> int {
    if plan.outcome matches Ok(ShareLimitAction::Keep { changes: Some(_), .. }) {
        1
    } else {
        0
    }
}

fn push_line(text: &mut String, label: &str, n: usize)
    ensures
        final(text)@ == old(text)@ + summary_line(label@, n),
{
    text.append("\n  ");
    text.append(label);
    text.append(" : ");
    let d = decimal_string(n as u64);
    text.append(d.as_str());
}

impl RunStats {
    /// The counts at the start of a run over `torrents` torrents: all else
    /// zero.
    pub fn for_torrents(torrents: usize) -> (r: RunStats)
        ensures
            r == (RunStats {
                torrents_total: torrents,
                auto_management_enabled: 0,
                tracker_tags_added: 0,
                tracker_tags_removed: 0,
                share_limits_applied: 0,
                share_limits_cleaned_up: 0,
                share_limit_tags_added: 0,
                share_limit_tags_removed: 0,
                name_tags_added: 0,
                categories_changed: 0,
            }),
    {
        RunStats {
            torrents_total: torrents,
            auto_management_enabled: 0,
            tracker_tags_added: 0,
            tracker_tags_removed: 0,
            share_limits_applied: 0,
            share_limits_cleaned_up: 0,
            share_limit_tags_added: 0,
            share_limit_tags_removed: 0,
            name_tags_added: 0,
            categories_changed: 0,
        }
    }

    /// Counts the torrents put under automatic management. Where a count
    /// would overflow, nothing is counted and the result is false.
    pub fn record_auto_management(&mut self, hashes: &Vec<String>) -> (counted: bool)
        ensures
            counted == room(old(self).auto_management_enabled, hashes@.len() as int),
            counted ==> *final(self) == (RunStats {
                auto_management_enabled: (old(self).auto_management_enabled + hashes@.len()) as usize,
                ..*old(self)
            }),
            !counted ==> *final(self) == *old(self),
    {
        if self.auto_management_enabled > usize::MAX - hashes.len() {
            return false;
        }
        self.auto_management_enabled = self.auto_management_enabled + hashes.len();
        true
    }

    /// Counts the tags a tracker-tag plan removes and adds.
    pub fn record_tracker_plan(&mut self, plan: &TagPlan) -> (counted: bool)
        ensures
            counted == (room(old(self).tracker_tags_removed, plan.tags_to_remove@.len() as int)
                && room(old(self).tracker_tags_added, plan.tags_to_add@.len() as int)),
            counted ==> *final(self) == (RunStats {
                tracker_tags_removed: (old(self).tracker_tags_removed + plan.tags_to_remove@.len()) as usize,
                tracker_tags_added: (old(self).tracker_tags_added + plan.tags_to_add@.len()) as usize,
                ..*old(self)
            }),
            !counted ==> *final(self) == *old(self),
    {
        if self.tracker_tags_removed > usize::MAX - plan.tags_to_remove.len()
            || self.tracker_tags_added > usize::MAX - plan.tags_to_add.len() {
            return false;
        }
        self.tracker_tags_removed = self.tracker_tags_removed + plan.tags_to_remove.len();
        self.tracker_tags_added = self.tracker_tags_added + plan.tags_to_add.len();
        true
    }

    /// Counts the tags a share-limit plan removes and adds, and the torrent
    /// as cleaned up (when the plan deletes it) or as given new limits
    /// (when the plan changes them).
    pub fn record_share_limit_plan(&mut self, plan: &ShareLimitPlan) -> (counted: bool)
        ensures
            counted == (room(old(self).share_limit_tags_removed, plan.tags_to_remove@.len() as int)
                && room(old(self).share_limit_tags_added, plan.tags_to_add@.len() as int)
                && room(old(self).share_limits_cleaned_up, cleaned_up_count(*plan))
                && room(old(self).share_limits_applied, applied_count(*plan))),
            counted ==> *final(self) == (RunStats {
                share_limit_tags_removed: (old(self).share_limit_tags_removed
                    + plan.tags_to_remove@.len()) as usize,
                share_limit_tags_added: (old(self).share_limit_tags_added + plan.tags_to_add@.len()) as usize,
                share_limits_cleaned_up: (old(self).share_limits_cleaned_up + cleaned_up_count(*plan)) as usize,
                share_limits_applied: (old(self).share_limits_applied + applied_count(*plan)) as usize,
                ..*old(self)
            }),
            !counted ==> *final(self) == *old(self),
    {
        let cleaned: usize = match &plan.outcome {
            Ok(ShareLimitAction::Delete) => 1,
            _ => 0,
        };
        let applied: usize = match &plan.outcome {
            Ok(ShareLimitAction::Keep { changes: Some(_), .. }) => 1,
            _ => 0,
        };
        if self.share_limit_tags_removed > usize::MAX - plan.tags_to_remove.len()
            || self.share_limit_tags_added > usize::MAX - plan.tags_to_add.len()
            || self.share_limits_cleaned_up > usize::MAX - cleaned
            || self.share_limits_applied > usize::MAX - applied {
            return false;
        }
        self.share_limit_tags_removed = self.share_limit_tags_removed + plan.tags_to_remove.len();
        self.share_limit_tags_added = self.share_limit_tags_added + plan.tags_to_add.len();
        self.share_limits_cleaned_up = self.share_limits_cleaned_up + cleaned;
        self.share_limits_applied = self.share_limits_applied + applied;
        true
    }

    /// Counts the tags a name-tag addition adds.
    pub fn record_name_tags(&mut self, addition: &TagAddition) -> (counted: bool)
        ensures
            counted == room(old(self).name_tags_added, addition.tags_to_add@.len() as int),
            counted ==> *final(self) == (RunStats {
                name_tags_added: (old(self).name_tags_added + addition.tags_to_add@.len()) as usize,
                ..*old(self)
            }),
            !counted ==> *final(self) == *old(self),
    {
        if self.name_tags_added > usize::MAX - addition.tags_to_add.len() {
            return false;
        }
        self.name_tags_added = self.name_tags_added + addition.tags_to_add.len();
        true
    }

    /// Counts a torrent moved to another category.
    pub fn record_category_move(&mut self) -> (counted: bool)
        ensures
            counted == room(old(self).categories_changed, 1),
            counted ==> *final(self) == (RunStats {
                categories_changed: (old(self).categories_changed + 1) as usize,
                ..*old(self)
            }),
            !counted ==> *final(self) == *old(self),
    {
        if self.categories_changed == usize::MAX {
            return false;
        }
        self.categories_changed = self.categories_changed + 1;
        true
    }

    /// The summary of the run, as it is logged at the end.
    pub fn log_summary(&self, dry_run: bool) -> (r: String)
        ensures
            r@ == summary_text(*self, dry_run),
    {
        let mut text = "==================== Summary".to_owned();
        if dry_run {
            text.append(" (dry-run)");
        } else {
            text.append("");
        }
        text.append(" ====================");
        push_line(&mut text, "Torrents inspected        ", self.torrents_total);
        push_line(&mut text, "Auto-management enabled   ", self.auto_management_enabled);
        push_line(&mut text, "Tracker tags added        ", self.tracker_tags_added);
        push_line(&mut text, "Tracker tags removed      ", self.tracker_tags_removed);
        push_line(&mut text, "Share limits applied      ", self.share_limits_applied);
        push_line(&mut text, "Share limits cleaned up   ", self.share_limits_cleaned_up);
        push_line(&mut text, "Share-limit tags added    ", self.share_limit_tags_added);
        push_line(&mut text, "Share-limit tags removed  ", self.share_limit_tags_removed);
        push_line(&mut text, "Name tags added           ", self.name_tags_added);
        push_line(&mut text, "Categories changed        ", self.categories_changed);
        text
    }
}

/// The heading of a section of the log.
pub open spec fn section_text(name: Seq<char>) -> Seq<char> {
    "=========== "@ + name + " ==========="@
}

/// The heading that opens a process's section of the log.
pub fn log_section(name: &str) -> (r: String)
    ensures
        r@ == section_text(name@),
{
    let mut text = "=========== ".to_owned();
    text.append(name);
    text.append(" ===========");
    text
}

} // verus!
