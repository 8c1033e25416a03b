//! The changes sent to qBittorrent. Each is decided here, and none is sent
//! in a dry run.
use vstd::prelude::*;
use crate::config::ControllerConfig;
use crate::processes::common::{auto_hashes, auto_management_hashes, torrent_hash, ProcessError};
use crate::processes::share_limits::{RatioChoice, ShareLimitAction};
use crate::qbit_api::{MinuteLimit, Torrent};
use crate::text::views;

verus! {

/// A change to send to qBittorrent's Web API.
#[derive(Debug)]
pub enum ApiRequest {
    /// Put the torrents under automatic management.
    SetAutoManagement { hashes: Vec<String> },
    RemoveTags { hash: String, tags: Vec<String> },
    AddTags { hash: String, tags: Vec<String> },
    /// Delete the torrent and its data.
    DeleteTorrent { hash: String },
    /// Set the ratio and seeding-time limits; the inactive seeding-time
    /// limit becomes the global one.
    SetShareLimits { hash: String, ratio: RatioChoice, seeding_time: MinuteLimit },
    /// Set the upload limit in bytes per second.
    SetUploadLimit { hash: String, bytes: u64 },
    StartTorrent { hash: String },
    SetCategory { hash: String, category: String },
}

/// The request that puts the torrents not yet under automatic management
/// (and carrying no ignored tag) under it; none in a dry run or when there
/// is no such torrent.
pub fn auto_management_request(config: &ControllerConfig, torrents: &Vec<Torrent>) -> (r: Option<ApiRequest>)
    ensures
        config.settings.dry_run ==> r is None,
        !config.settings.dry_run ==> {
            let want = auto_hashes(config.settings.auto_management_ignore_tags@, torrents@);
            &&& want.len() == 0 ==> r is None
            &&& want.len() > 0 ==> (r matches Some(ApiRequest::SetAutoManagement { hashes }) && views(hashes@) == want)
        },
{
    if config.settings.dry_run {
        return None;
    }
    let hashes = auto_management_hashes(config, torrents);
    if hashes.len() == 0 {
        assert(views(hashes@).len() == 0);
        None
    } else {
        Some(ApiRequest::SetAutoManagement { hashes })
    }
}

/// The request that removes tags from a torrent; none in a dry run or when
/// there is no tag to remove.
pub fn remove_tags_request(config: &ControllerConfig, hash: &str, tags: &Vec<String>) -> (r: Option<ApiRequest>)
    ensures
        config.settings.dry_run || tags@.len() == 0 ==> r is None,
        !config.settings.dry_run && tags@.len() > 0 ==> (r matches Some(ApiRequest::RemoveTags { hash: h, tags: t })
            && h@ == hash@ && views(t@) == views(tags@)),
{
    if config.settings.dry_run || tags.len() == 0 {
        return None;
    }
    let t = tags.clone();
    assert(views(t@) =~= views(tags@));
    Some(ApiRequest::RemoveTags { hash: hash.to_owned(), tags: t })
}

/// The request that adds tags to a torrent; none in a dry run or when there
/// is no tag to add.
pub fn add_tags_request(config: &ControllerConfig, hash: &str, tags: &Vec<String>) -> (r: Option<ApiRequest>)
    ensures
        config.settings.dry_run || tags@.len() == 0 ==> r is None,
        !config.settings.dry_run && tags@.len() > 0 ==> (r matches Some(ApiRequest::AddTags { hash: h, tags: t })
            && h@ == hash@ && views(t@) == views(tags@)),
{
    if config.settings.dry_run || tags.len() == 0 {
        return None;
    }
    let t = tags.clone();
    assert(views(t@) =~= views(tags@));
    Some(ApiRequest::AddTags { hash: hash.to_owned(), tags: t })
}

/// The requests that carry out a share-limit outcome, in order: delete the
/// torrent; or set its share limits, its upload limit and start it, as the
/// changes say. None in a dry run.
pub fn share_limit_requests(config: &ControllerConfig, hash: &str, action: &ShareLimitAction) -> (r: Vec<ApiRequest>)
    ensures
        config.settings.dry_run ==> r@.len() == 0,
        !config.settings.dry_run ==> match *action {
            ShareLimitAction::Delete => r@.len() == 1 && (r@[0] matches ApiRequest::DeleteTorrent { hash: h }
                && h@ == hash@),
            ShareLimitAction::Keep { changes: None, .. } => r@.len() == 0,
            ShareLimitAction::Keep { changes: Some(c), .. } => {
                let x: int = if c.share_limits is Some { 1 } else { 0 };
                let y: int = if c.upload_limit is Some { 1 } else { 0 };
                let z: int = if c.resume { 1 } else { 0 };
                &&& r@.len() == x + y + z
                &&& c.share_limits matches Some(l) ==> (r@[0] matches ApiRequest::SetShareLimits {
                    hash: h,
                    ratio,
                    seeding_time,
                } && h@ == hash@ && ratio == l.0 && seeding_time == l.1)
                &&& c.upload_limit matches Some(b) ==> (r@[x] matches ApiRequest::SetUploadLimit {
                    hash: h,
                    bytes,
                } && h@ == hash@ && bytes == b)
                &&& c.resume ==> (r@[x + y] matches ApiRequest::StartTorrent { hash: h } && h@ == hash@)
            },
        },
{
    let mut r: Vec<ApiRequest> = Vec::new();
    if config.settings.dry_run {
        return r;
    }
    match action {
        ShareLimitAction::Delete => {
            r.push(ApiRequest::DeleteTorrent { hash: hash.to_owned() });
        },
        ShareLimitAction::Keep { changes, .. } => {
            if let Some(c) = changes {
                if let Some((ratio, seeding_time)) = c.share_limits {
                    r.push(ApiRequest::SetShareLimits { hash: hash.to_owned(), ratio, seeding_time });
                }
                if let Some(bytes) = c.upload_limit {
                    r.push(ApiRequest::SetUploadLimit { hash: hash.to_owned(), bytes });
                }
                if c.resume {
                    r.push(ApiRequest::StartTorrent { hash: hash.to_owned() });
                }
            }
        },
    }
    r
}

/// The request that adds name tags to a torrent: none in a dry run, where
/// no hash is needed; else the torrent's hash is.
pub fn name_tags_request(config: &ControllerConfig, torrent: &Torrent, tags: &Vec<String>) -> (r: Result<Option<ApiRequest>, ProcessError>)
    ensures
        config.settings.dry_run ==> r matches Ok(None),
        !config.settings.dry_run ==> match torrent.hash {
            None => r == Err::<Option<ApiRequest>, ProcessError>(ProcessError::MissingHash),
            Some(hash) => (r matches Ok(Some(ApiRequest::AddTags { hash: h, tags: t })) && h@ == hash@
                && views(t@) == views(tags@)),
        },
{
    if config.settings.dry_run {
        return Ok(None);
    }
    let hash = match torrent_hash(torrent) {
        Ok(h) => h,
        Err(e) => {
            return Err(e);
        },
    };
    let t = tags.clone();
    assert(views(t@) =~= views(tags@));
    Ok(Some(ApiRequest::AddTags { hash, tags: t }))
}

/// The request that moves a torrent to a category: none in a dry run, where
/// no hash is needed; else the torrent's hash is.
pub fn set_category_request(config: &ControllerConfig, torrent: &Torrent, category: &str) -> (r: Result<Option<ApiRequest>, ProcessError>)
    ensures
        config.settings.dry_run ==> r matches Ok(None),
        !config.settings.dry_run ==> match torrent.hash {
            None => r == Err::<Option<ApiRequest>, ProcessError>(ProcessError::MissingHash),
            Some(hash) => (r matches Ok(Some(ApiRequest::SetCategory { hash: h, category: c })) && h@
                == hash@ && c@ == category@),
        },
{
    if config.settings.dry_run {
        return Ok(None);
    }
    let hash = match torrent_hash(torrent) {
        Ok(h) => h,
        Err(e) => {
            return Err(e);
        },
    };
    Ok(Some(ApiRequest::SetCategory { hash, category: category.to_owned() }))
}

} // verus!
