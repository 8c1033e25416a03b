//! What every process shares: errors, the dry-run prefix, a torrent's hash
//! and whether it has finished downloading.
use vstd::prelude::*;
use vstd::string::*;
use crate::config::ControllerConfig;
use crate::duration::DurationError;
use crate::qbit_api::Torrent;
use crate::tags::{has_tag, opt_chars, set_of, tag_set};
use crate::text::{str_eq, views};
pub use crate::duration::{parse_duration_minutes, parse_duration_text};
pub use crate::tags::{parse_tags, sorted_tags_string};

verus! {

/// Why a process stops.
#[derive(Clone, Debug, PartialEq, Eq)]
pub enum ProcessError {
    /// The process is on but its section of the configuration is missing.
    MissingConfig,
    /// A torrent without a hash, where one is needed.
    MissingHash,
    /// A duration in the configuration that cannot be read.
    Duration(DurationError),
    /// A category move, by its key, that names neither categories nor tags.
    RuleWithoutCondition(String),
}

/// The prefix of each logged action: `[DRY-RUN] ` in a dry run.
pub fn dry_run_prefix(config: &ControllerConfig) -> (r: &'static str)
    ensures
        r@ == (if config.settings.dry_run {
            "[DRY-RUN] "@
        } else {
            ""@
        }),
{
    if config.settings.dry_run {
        "[DRY-RUN] "
    } else {
        ""
    }
}

/// The hash of a torrent, which every change to it needs.
pub fn torrent_hash(torrent: &Torrent) -> (r: Result<String, ProcessError>)
    ensures
        match torrent.hash {
            Some(h) => r matches Ok(s) && s@ == h@,
            None => r == Err::<String, ProcessError>(ProcessError::MissingHash),
        },
{
    match &torrent.hash {
        Some(h) => Ok(h.clone()),
        None => Err(ProcessError::MissingHash),
    }
}

/// The states in which qBittorrent has all of a torrent.
pub open spec fn seeding_state(s: Seq<char>) -> bool {
    ||| s == "uploading"@
    ||| s == "pausedUP"@
    ||| s == "stoppedUP"@
    ||| s == "queuedUP"@
    ||| s == "stalledUP"@
    ||| s == "checkingUP"@
    ||| s == "forcedUP"@
}

/// A torrent is complete when fully downloaded or in a seeding state.
pub open spec fn complete(torrent: Torrent) -> bool {
    torrent.fully_downloaded || (torrent.state matches Some(s) && seeding_state(s@))
}

/// Whether a torrent has finished downloading.
pub fn is_complete(torrent: &Torrent) -> (b: bool)
    ensures
        b == complete(*torrent),
{
    if torrent.fully_downloaded {
        return true;
    }
    match &torrent.state {
        None => false,
        Some(s) => {
            let s = s.as_str();
            str_eq(s, "uploading") || str_eq(s, "pausedUP") || str_eq(s, "stoppedUP") || str_eq(
                s,
                "queuedUP",
            ) || str_eq(s, "stalledUP") || str_eq(s, "checkingUP") || str_eq(s, "forcedUP")
        },
    }
}


/// The torrent carries none of the ignored tags.
pub open spec fn not_ignored(ignore: Seq<String>, t: Torrent) -> bool {
    forall|i: int| 0 <= i < ignore.len() ==> !tag_set(opt_chars(t.tags)).contains(#[trigger] ignore[i]@)
}

/// The hashes, in order, of the torrents not yet under automatic management
/// that carry none of the ignored tags (torrents without a hash are passed
/// over).
pub open spec fn auto_hashes(ignore: Seq<String>, ts: Seq<Torrent>) -> Seq<Seq<char>>
    decreases ts.len(),
{
    if ts.len() == 0 {
        Seq::<Seq<char>>::empty()
    } else {
        let rest = auto_hashes(ignore, ts.drop_last());
        let t = ts.last();
        if not_ignored(ignore, t) && t.auto_tmm != Some(true) && t.hash is Some {
            rest.push(t.hash->0@)
        } else {
            rest
        }
    }
}

/// The hashes of the torrents to put under automatic management: every
/// torrent not already under it that carries none of the configured ignore
/// tags.
pub fn auto_management_hashes(config: &ControllerConfig, torrents: &Vec<Torrent>) -> (r: Vec<String>)
    ensures
        views(r@) == auto_hashes(config.settings.auto_management_ignore_tags@, torrents@),
{
    let ignore = &config.settings.auto_management_ignore_tags;
    let mut r: Vec<String> = Vec::new();
    let mut i: usize = 0;
    assert(torrents@.take(0) =~= Seq::<Torrent>::empty());
    assert(views(r@) =~= Seq::<Seq<char>>::empty());
    while i < torrents.len()
        invariant
            i <= torrents@.len(),
            ignore == &config.settings.auto_management_ignore_tags,
            views(r@) == auto_hashes(ignore@, torrents@.take(i as int)),
        decreases torrents@.len() - i,
    {
        let t = &torrents[i];
        assert(torrents@.take(i + 1).drop_last() =~= torrents@.take(i as int));
        let tags = crate::tags::parse_tags(&t.tags);
        let mut k: usize = 0;
        let mut keep = true;
        while k < ignore.len()
            invariant
                k <= ignore@.len(),
                set_of(tags@) == tag_set(opt_chars(t.tags)),
                keep == forall|q: int| 0 <= q < k ==> !tag_set(opt_chars(t.tags)).contains(
                    #[trigger] ignore@[q]@,
                ),
            decreases ignore@.len() - k,
        {
            if has_tag(&tags, ignore[k].as_str()) {
                keep = false;
            }
            k = k + 1;
        }
        let ghost before = views(r@);
        let managed = match t.auto_tmm {
            Some(b) => b,
            None => false,
        };
        if keep && !managed {
            if let Some(h) = &t.hash {
                r.push(h.clone());
                assert(views(r@) =~= before.push(h@));
            }
        }
        i = i + 1;
    }
    assert(torrents@.take(torrents@.len() as int) =~= torrents@);
    r
}

} // verus!
