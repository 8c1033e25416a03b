use qbit_controller::config::{ControllerConfig, Processes, Qbit, Settings};
use qbit_controller::duration::parse_duration_text;
use qbit_controller::processes::common::ProcessError;
use qbit_controller::processes::requests::{
    add_tags_request, auto_management_request, name_tags_request, remove_tags_request,
    set_category_request, share_limit_requests, ApiRequest,
};
use qbit_controller::processes::share_limits::{LimitChanges, RatioChoice, ShareLimitAction};
use qbit_controller::processes::stats::RunStats;
use qbit_controller::processes::steps::{steps_to_run, Step};
use qbit_controller::processes::tag_names::TagAddition;
use qbit_controller::processes::tracker_tags::{desired_tracker_tags, TagPlan};
use qbit_controller::processes::common::auto_management_hashes;
use qbit_controller::processes::share_limits::ShareLimitPlan;
use qbit_controller::qbit_api::Tracker;
use qbit_controller::config::TrackerRule;
use qbit_controller::qbit_api::{api_url, qbit_base_url, MinuteLimit, Torrent};

fn config(dry_run: bool) -> ControllerConfig {
    let mut settings = Settings::default();
    settings.dry_run = dry_run;
    ControllerConfig {
        qbit: Qbit {
            url: "10.0.0.10:8080".to_owned(),
            username: "user".to_owned(),
            password: "pass".to_owned(),
        },
        settings,
        processes: Processes::default(),
        names: None,
        cat_moves: None,
        trackers: None,
        share_limits: None,
    }
}

fn torrent(hash: Option<&str>, tags: &str, auto_tmm: Option<bool>) -> Torrent {
    Torrent {
        added_on: None,
        auto_tmm,
        category: None,
        hash: hash.map(|h| h.to_owned()),
        name: Some("t".to_owned()),
        num_complete: None,
        fully_downloaded: true,
        seeding_time: None,
        seeding_time_limit: None,
        state: None,
        tags: Some(tags.to_owned()),
        tracker: None,
        up_limit: None,
    }
}

fn strings(items: &[&str]) -> Vec<String> {
    items.iter().map(|s| s.to_string()).collect()
}

#[test]
fn steps_run_in_fixed_order() {
    let mut c = config(false);
    c.settings.enable_auto_management = true;
    c.processes = Processes {
        tracker_tags: false,
        tracker_errors: true,
        share_limits: true,
        tag_names: true,
        cat_move: true,
    };
    assert_eq!(
        steps_to_run(&c),
        vec![Step::AutoManagement, Step::TrackerTags, Step::ShareLimits, Step::TagNames, Step::CatMoves]
    );
    c.settings.enable_auto_management = false;
    c.processes.tracker_errors = false;
    c.processes.share_limits = false;
    assert_eq!(steps_to_run(&c), vec![Step::TagNames, Step::CatMoves]);
    c.processes.tag_names = false;
    c.processes.cat_move = false;
    assert!(steps_to_run(&c).is_empty());
}

#[test]
fn dry_run_builds_no_request() {
    let c = config(true);
    let t = torrent(Some("h1"), "", Some(false));
    let tags = strings(&["a"]);
    assert!(auto_management_request(&c, &vec![torrent(Some("h1"), "", Some(false))]).is_none());
    assert!(remove_tags_request(&c, "h1", &tags).is_none());
    assert!(add_tags_request(&c, "h1", &tags).is_none());
    assert!(share_limit_requests(&c, "h1", &ShareLimitAction::Delete).is_empty());
    assert!(matches!(name_tags_request(&c, &t, &tags), Ok(None)));
    assert!(matches!(set_category_request(&c, &t, "tv"), Ok(None)));
    let no_hash = torrent(None, "", None);
    assert!(matches!(name_tags_request(&c, &no_hash, &tags), Ok(None)));
}

#[test]
fn requests_carry_hash_and_tags() {
    let c = config(false);
    let tags = strings(&["a", "b"]);
    match remove_tags_request(&c, "h1", &tags) {
        Some(ApiRequest::RemoveTags { hash, tags: t }) => {
            assert_eq!(hash, "h1");
            assert_eq!(t, tags);
        }
        other => panic!("unexpected {other:?}"),
    }
    match add_tags_request(&c, "h2", &tags) {
        Some(ApiRequest::AddTags { hash, tags: t }) => {
            assert_eq!(hash, "h2");
            assert_eq!(t, tags);
        }
        other => panic!("unexpected {other:?}"),
    }
    assert!(add_tags_request(&c, "h2", &Vec::new()).is_none());
    assert!(remove_tags_request(&c, "h2", &Vec::new()).is_none());
}

#[test]
fn auto_management_request_skips_managed_and_ignored() {
    let mut c = config(false);
    c.settings.auto_management_ignore_tags = strings(&["keep"]);
    let torrents = vec![
        torrent(Some("h1"), "", Some(false)),
        torrent(Some("h2"), "keep", Some(false)),
        torrent(Some("h3"), "", Some(true)),
        torrent(None, "", Some(false)),
        torrent(Some("h5"), "x", None),
    ];
    match auto_management_request(&c, &torrents) {
        Some(ApiRequest::SetAutoManagement { hashes }) => {
            assert_eq!(hashes, strings(&["h1", "h5"]))
        }
        other => panic!("unexpected {other:?}"),
    }
    assert!(auto_management_request(&c, &vec![torrent(Some("h3"), "", Some(true))]).is_none());
}

#[test]
fn share_limit_requests_in_order() {
    let c = config(false);
    let delete = share_limit_requests(&c, "h", &ShareLimitAction::Delete);
    assert_eq!(delete.len(), 1);
    assert!(matches!(&delete[0], ApiRequest::DeleteTorrent { hash } if hash == "h"));
    let keep = ShareLimitAction::Keep {
        changes: Some(LimitChanges {
            share_limits: Some((RatioChoice::GroupLimit, MinuteLimit::Limited(60))),
            upload_limit: Some(1024),
            resume: true,
        }),
        new_tags: "z".to_owned(),
    };
    let r = share_limit_requests(&c, "h", &keep);
    assert_eq!(r.len(), 3);
    assert!(matches!(
        &r[0],
        ApiRequest::SetShareLimits { hash, ratio: RatioChoice::GroupLimit, seeding_time: MinuteLimit::Limited(60) }
            if hash == "h"
    ));
    assert!(matches!(&r[1], ApiRequest::SetUploadLimit { hash, bytes: 1024 } if hash == "h"));
    assert!(matches!(&r[2], ApiRequest::StartTorrent { hash } if hash == "h"));
    let only_resume = ShareLimitAction::Keep {
        changes: Some(LimitChanges { share_limits: None, upload_limit: None, resume: true }),
        new_tags: String::new(),
    };
    let r = share_limit_requests(&c, "h", &only_resume);
    assert_eq!(r.len(), 1);
    assert!(matches!(&r[0], ApiRequest::StartTorrent { .. }));
    let unchanged = ShareLimitAction::Keep { changes: None, new_tags: String::new() };
    assert!(share_limit_requests(&c, "h", &unchanged).is_empty());
}

#[test]
fn name_and_category_requests_need_a_hash() {
    let c = config(false);
    let tags = strings(&["anime"]);
    let no_hash = torrent(None, "", None);
    assert!(matches!(name_tags_request(&c, &no_hash, &tags), Err(ProcessError::MissingHash)));
    assert!(matches!(set_category_request(&c, &no_hash, "tv"), Err(ProcessError::MissingHash)));
    let t = torrent(Some("h9"), "", None);
    match set_category_request(&c, &t, "tv") {
        Ok(Some(ApiRequest::SetCategory { hash, category })) => {
            assert_eq!(hash, "h9");
            assert_eq!(category, "tv");
        }
        other => panic!("unexpected {other:?}"),
    }
    match name_tags_request(&c, &t, &tags) {
        Ok(Some(ApiRequest::AddTags { hash, tags: added })) => {
            assert_eq!(hash, "h9");
            assert_eq!(added, tags);
        }
        other => panic!("unexpected {other:?}"),
    }
}

#[test]
fn api_urls_join_the_base() {
    let base = qbit_base_url("10.0.0.10:8080").expect("a URL");
    assert_eq!(base.as_text(), "http://10.0.0.10:8080/");
    let version = api_url(&base, "app/version").expect("a URL");
    assert_eq!(version.as_text(), "http://10.0.0.10:8080/api/v2/app/version");
    let base = qbit_base_url("https://qbit.example.org/sub").expect("a URL");
    let login = api_url(&base, "auth/login").expect("a URL");
    assert_eq!(login.as_text(), "https://qbit.example.org/sub/api/v2/auth/login");
    assert!(qbit_base_url("http://[::1").is_none());
}

#[test]
fn invalid_qbit_url_is_refused() {
    assert!(qbit_base_url("http://exa mple.com").is_none());
    assert!(qbit_base_url("http://:80").is_none());
}

#[test]
fn decimal_text_reads_back_as_minutes() {
    for n in [0i64, 1, 7, 42, 1440, 99999, -1, -250, i64::MAX, i64::MIN] {
        assert_eq!(parse_duration_text(&n.to_string()), Ok(n));
    }
}

#[test]
fn dry_run_decides_as_live_run() {
    let mut live = config(false);
    let mut dry = config(true);
    for c in [&mut live, &mut dry] {
        c.settings.enable_auto_management = true;
        c.processes.tracker_errors = true;
        c.processes.tracker_tags = true;
    }
    assert_eq!(steps_to_run(&live), steps_to_run(&dry));
    let torrents = vec![torrent(Some("h1"), "", Some(false)), torrent(Some("h2"), "", Some(true))];
    assert_eq!(auto_management_hashes(&live, &torrents), auto_management_hashes(&dry, &torrents));
    let mut rules = indexmap::IndexMap::new();
    rules.insert("tracker.example".to_owned(), TrackerRule { tags: vec!["ex".to_owned()] });
    let trackers = vec![Tracker { url: "https://tracker.example/a".to_owned(), status: 4, msg: String::new() }];
    let d_live = desired_tracker_tags(&live, &rules, &trackers);
    let d_dry = desired_tracker_tags(&dry, &rules, &trackers);
    assert_eq!(d_live.len(), d_dry.len());
    for tag in &d_live {
        assert!(d_dry.contains(tag));
    }
    assert!(auto_management_request(&live, &torrents).is_some());
    assert!(auto_management_request(&dry, &torrents).is_none());
}

#[test]
fn run_counts_follow_the_plans() {
    let mut stats = RunStats::for_torrents(5);
    assert_eq!(stats.torrents_total, 5);
    assert!(stats.record_auto_management(&strings(&["h1", "h2"])));
    assert_eq!(stats.auto_management_enabled, 2);
    let plan = TagPlan { tags_to_remove: strings(&["a"]), tags_to_add: strings(&["b", "c"]), new_tags: "b, c".to_owned() };
    assert!(stats.record_tracker_plan(&plan));
    assert_eq!((stats.tracker_tags_removed, stats.tracker_tags_added), (1, 2));
    let delete = ShareLimitPlan { tags_to_remove: Vec::new(), tags_to_add: strings(&["z_1.g"]), outcome: Ok(ShareLimitAction::Delete) };
    assert!(stats.record_share_limit_plan(&delete));
    assert_eq!((stats.share_limit_tags_added, stats.share_limits_cleaned_up, stats.share_limits_applied), (1, 1, 0));
    let apply = ShareLimitPlan {
        tags_to_remove: strings(&["z_2.h"]),
        tags_to_add: Vec::new(),
        outcome: Ok(ShareLimitAction::Keep {
            changes: Some(LimitChanges { share_limits: None, upload_limit: Some(1), resume: false }),
            new_tags: String::new(),
        }),
    };
    assert!(stats.record_share_limit_plan(&apply));
    assert_eq!((stats.share_limit_tags_removed, stats.share_limits_cleaned_up, stats.share_limits_applied), (1, 1, 1));
    let kept = ShareLimitPlan {
        tags_to_remove: Vec::new(),
        tags_to_add: Vec::new(),
        outcome: Ok(ShareLimitAction::Keep { changes: None, new_tags: String::new() }),
    };
    assert!(stats.record_share_limit_plan(&kept));
    assert_eq!(stats.share_limits_applied, 1);
    assert!(stats.record_name_tags(&TagAddition { tags_to_add: strings(&["x"]), new_tags: "x".to_owned() }));
    assert_eq!(stats.name_tags_added, 1);
    assert!(stats.record_category_move());
    assert_eq!(stats.categories_changed, 1);
    stats.categories_changed = usize::MAX;
    assert!(!stats.record_category_move());
    assert_eq!(stats.categories_changed, usize::MAX);
}
