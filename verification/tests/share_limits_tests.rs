use indexmap::IndexMap;

use qbit_controller::config::{ControllerConfig, DurationValue, Processes, Qbit, Settings, ShareLimit};
use qbit_controller::processes::common::{parse_tags, ProcessError};
use qbit_controller::processes::share_limits::{
    is_managed_share_limit_tag, matches_share_limit_group, plan_share_limit, plan_share_limit_fits,
    protection_reason, seeding_time_limit, seeding_time_limit_matches, select_share_limit_group,
    share_limit_group_tag, should_cleanup, upload_limit_bytes, upload_limit_matches,
    Protection, RatioChoice, RatioFacts, ShareLimitAction,
};
use qbit_controller::qbit_api::{MinuteLimit, Torrent};

fn config() -> ControllerConfig {
    ControllerConfig {
        qbit: Qbit {
            url: "http://localhost:8080".to_owned(),
            username: "user".to_owned(),
            password: "pass".to_owned(),
        },
        settings: Settings::default(),
        processes: Processes::default(),
        names: None,
        cat_moves: None,
        trackers: None,
        share_limits: None,
    }
}

// The torrent of the scenarios: progress 1.0, ratio 2.0 (held by the caller),
// seeded two days, seen by 20 seeds.
const TORRENT_RATIO: f64 = 2.0;

fn torrent(tags: &str, category: &str) -> Torrent {
    Torrent {
        added_on: None,
        auto_tmm: None,
        category: Some(category.to_owned()),
        hash: Some("hash".to_owned()),
        name: Some("torrent".to_owned()),
        num_complete: Some(20),
        fully_downloaded: 1.0_f64 >= 1.0,
        seeding_time: Some(2 * 24 * 60 * 60),
        seeding_time_limit: None,
        state: Some("uploading".to_owned()),
        tags: Some(tags.to_owned()),
        tracker: None,
        up_limit: None,
    }
}

fn group() -> ShareLimit {
    ShareLimit {
        priority: 1,
        cleanup: false,
        max_seeding_time: None,
        min_seeding_time: None,
        min_num_seeds: None,
        limit_upload_speed: None,
        resume_torrent_after_change: true,
        categories: None,
        include_all_tags: None,
        include_any_tags: None,
        exclude_all_tags: None,
        exclude_any_tags: None,
    }
}

fn ratio_reached(max_ratio: Option<f64>, ratio: f64) -> bool {
    max_ratio.filter(|m| *m >= 0.0).is_some_and(|m| ratio >= m)
}

#[test]
fn matches_tags_and_categories() {
    let group = ShareLimit {
        priority: 1,
        cleanup: false,
        max_seeding_time: None,
        min_seeding_time: None,
        min_num_seeds: None,
        limit_upload_speed: None,
        resume_torrent_after_change: true,
        categories: Some(vec!["movies-complete".to_owned()]),
        include_all_tags: Some(vec!["iptorrents".to_owned()]),
        include_any_tags: None,
        exclude_all_tags: None,
        exclude_any_tags: None,
    };

    assert!(matches_share_limit_group(
        &group,
        &torrent("iptorrents, other", "movies-complete"),
        &parse_tags(&Some("iptorrents, other".to_owned()))
    ));
    assert!(!matches_share_limit_group(
        &group,
        &torrent("DigitalCore", "movies-complete"),
        &parse_tags(&Some("DigitalCore".to_owned()))
    ));
}

#[test]
fn cleanup_waits_for_min_seeds() {
    let group = ShareLimit {
        priority: 1,
        cleanup: true,
        max_seeding_time: None,
        min_seeding_time: None,
        min_num_seeds: Some(10),
        limit_upload_speed: None,
        resume_torrent_after_change: true,
        categories: None,
        include_all_tags: None,
        include_any_tags: None,
        exclude_all_tags: None,
        exclude_any_tags: None,
    };
    let max_ratio = Some(1.0);
    let mut torrent = torrent("tag", "movies-complete");
    torrent.num_complete = Some(5);

    let protection = protection_reason(&config(), &group, &torrent).unwrap();
    assert!(protection.is_protected());
    assert!(!should_cleanup(
        &group,
        &torrent,
        protection.is_protected(),
        ratio_reached(max_ratio, TORRENT_RATIO)
    )
    .unwrap());
}

#[test]
fn cleanup_when_ratio_or_seed_time_reached() {
    let mut group = ShareLimit {
        priority: 1,
        cleanup: true,
        max_seeding_time: Some(DurationValue::Text("1d".to_owned())),
        min_seeding_time: None,
        min_num_seeds: None,
        limit_upload_speed: None,
        resume_torrent_after_change: true,
        categories: None,
        include_all_tags: None,
        include_any_tags: None,
        exclude_all_tags: None,
        exclude_any_tags: None,
    };
    let max_ratio = Some(5.0);
    let reached = ratio_reached(max_ratio, TORRENT_RATIO);
    assert!(should_cleanup(&group, &torrent("tag", "movies-complete"), false, reached).unwrap());

    group.max_seeding_time = None;
    assert!(!should_cleanup(&group, &torrent("tag", "movies-complete"), false, reached).unwrap());
}

#[test]
fn formats_group_tag() {
    assert_eq!(
        share_limit_group_tag(&config(), "CROSS_SEED", 1),
        "z_1.CROSS_SEED"
    );
}

#[test]
fn seeding_time_limit_match_detects_each_variant() {
    assert!(seeding_time_limit_matches(MinuteLimit::Global, Some(-2)));
    assert!(seeding_time_limit_matches(MinuteLimit::NoLimit, Some(-1)));
    assert!(seeding_time_limit_matches(
        MinuteLimit::Limited(120),
        Some(120)
    ));
    assert!(!seeding_time_limit_matches(
        MinuteLimit::Limited(120),
        Some(60)
    ));
    assert!(!seeding_time_limit_matches(MinuteLimit::Global, Some(-1)));
    assert!(!seeding_time_limit_matches(MinuteLimit::Limited(120), None));
}

#[test]
fn upload_limit_match_treats_zero_and_negative_as_unlimited() {
    assert!(upload_limit_matches(0, Some(0)));
    assert!(upload_limit_matches(0, Some(-1)));
    assert!(upload_limit_matches(1024, Some(1024)));
    assert!(!upload_limit_matches(1024, Some(2048)));
    assert!(!upload_limit_matches(1024, Some(-1)));
    assert!(!upload_limit_matches(1024, None));
}

#[test]
fn group_tag_with_large_priority() {
    assert_eq!(
        share_limit_group_tag(&config(), "IPT", 4_294_967_295),
        "z_4294967295.IPT"
    );
    assert_eq!(share_limit_group_tag(&config(), "", 0), "z_0.");
}

#[test]
fn managed_tags_are_recognised() {
    let c = config();
    assert!(is_managed_share_limit_tag(&c, "z_1.IPT"));
    assert!(is_managed_share_limit_tag(&c, "z_"));
    assert!(is_managed_share_limit_tag(&c, "MinSeedsNotMet"));
    assert!(is_managed_share_limit_tag(&c, "MinSeedTimeNotReached"));
    assert!(!is_managed_share_limit_tag(&c, "z"));
    assert!(!is_managed_share_limit_tag(&c, "zz_1"));
    assert!(!is_managed_share_limit_tag(&c, "iptorrents"));
}

#[test]
fn seeding_time_limit_of_configured_maximum() {
    assert_eq!(seeding_time_limit(&None), Ok(MinuteLimit::Global));
    assert_eq!(
        seeding_time_limit(&Some(DurationValue::Minutes(-1))),
        Ok(MinuteLimit::NoLimit)
    );
    assert_eq!(
        seeding_time_limit(&Some(DurationValue::Text("2h".to_owned()))),
        Ok(MinuteLimit::Limited(120))
    );
    assert!(seeding_time_limit(&Some(DurationValue::Text("2x".to_owned()))).is_err());
}

#[test]
fn upload_limit_bytes_formula() {
    assert_eq!(upload_limit_bytes(-5), 0);
    assert_eq!(upload_limit_bytes(0), 0);
    assert_eq!(upload_limit_bytes(3), 3072);
}

#[test]
fn protection_by_seeding_time_comes_first() {
    let mut g = group();
    g.min_seeding_time = Some(DurationValue::Text("3d".to_owned()));
    g.min_num_seeds = Some(100);
    let p = protection_reason(&config(), &g, &torrent("", "c")).unwrap();
    match p {
        Protection::MinSeedingTime(tag) => assert_eq!(tag, "MinSeedTimeNotReached"),
        other => panic!("unexpected {other:?}"),
    }
    g.min_seeding_time = Some(DurationValue::Text("1d".to_owned()));
    match protection_reason(&config(), &g, &torrent("", "c")).unwrap() {
        Protection::MinSeeds(tag) => assert_eq!(tag, "MinSeedsNotMet"),
        other => panic!("unexpected {other:?}"),
    }
    g.min_num_seeds = Some(0);
    let p = protection_reason(&config(), &g, &torrent("", "c")).unwrap();
    assert!(!p.is_protected());
    assert_eq!(p.protection_tag(), None);
    g.min_seeding_time = Some(DurationValue::Text("x".to_owned()));
    assert!(protection_reason(&config(), &g, &torrent("", "c")).is_err());
}

#[test]
fn group_selection_by_priority_then_order() {
    let mut c = config();
    let mut groups = IndexMap::new();
    let mut a = group();
    a.priority = 5;
    a.include_any_tags = Some(vec!["x".to_owned()]);
    let mut b = group();
    b.priority = 2;
    b.categories = Some(vec!["tv".to_owned()]);
    let mut d = group();
    d.priority = 2;
    groups.insert("A".to_owned(), a);
    groups.insert("B".to_owned(), b);
    groups.insert("D".to_owned(), d);
    c.share_limits = Some(groups);
    let groups = c.share_limits.as_ref().unwrap();
    assert_eq!(select_share_limit_group(&c, groups, &torrent("x", "tv")), Ok(Some(1)));
    assert_eq!(select_share_limit_group(&c, groups, &torrent("x", "movies")), Ok(Some(2)));
    let mut unnamed = torrent("x", "tv");
    unnamed.name = None;
    assert_eq!(select_share_limit_group(&c, groups, &unnamed), Ok(None));
    let mut unfinished = torrent("x", "tv");
    unfinished.fully_downloaded = false;
    unfinished.state = Some("downloading".to_owned());
    assert_eq!(select_share_limit_group(&c, groups, &unfinished), Ok(None));
    let mut hashless = torrent("x", "tv");
    hashless.hash = None;
    assert_eq!(
        select_share_limit_group(&c, groups, &hashless),
        Err(ProcessError::MissingHash)
    );
}

#[test]
fn plan_applies_limits_and_tags() {
    let c = config();
    let mut g = group();
    g.max_seeding_time = Some(DurationValue::Text("1d".to_owned()));
    g.limit_upload_speed = Some(100);
    let t = torrent("keep, z_9.Old, MinSeedsNotMet", "c");
    let facts = RatioFacts {
        max_ratio_reached: false,
        group_ratio_matches: true,
        no_limit_ratio_matches: false,
    };
    assert!(plan_share_limit_fits(&c, &g, &t, facts));
    let plan = plan_share_limit(&c, "IPT", &g, &t, facts).unwrap();
    let mut removed = plan.tags_to_remove.clone();
    removed.sort();
    assert_eq!(removed, vec!["MinSeedsNotMet".to_owned(), "z_9.Old".to_owned()]);
    assert_eq!(plan.tags_to_add, vec!["z_1.IPT".to_owned()]);
    match plan.outcome {
        Ok(ShareLimitAction::Keep { changes, new_tags }) => {
            let changes = changes.expect("limits differ");
            assert_eq!(
                changes.share_limits,
                Some((RatioChoice::GroupLimit, MinuteLimit::Limited(1440)))
            );
            assert_eq!(changes.upload_limit, Some(102_400));
            assert!(changes.resume);
            assert_eq!(new_tags, "keep, z_1.IPT");
        }
        _ => panic!("expected the torrent to be kept"),
    }
}

#[test]
fn plan_is_quiet_when_state_matches() {
    let c = config();
    let mut g = group();
    g.max_seeding_time = Some(DurationValue::Minutes(60));
    let mut t = torrent("z_1.IPT", "c");
    t.seeding_time_limit = Some(60);
    let facts = RatioFacts {
        max_ratio_reached: false,
        group_ratio_matches: true,
        no_limit_ratio_matches: false,
    };
    let plan = plan_share_limit(&c, "IPT", &g, &t, facts).unwrap();
    assert!(plan.tags_to_remove.is_empty());
    assert!(plan.tags_to_add.is_empty());
    match plan.outcome {
        Ok(ShareLimitAction::Keep { changes, new_tags }) => {
            assert!(changes.is_none());
            assert_eq!(new_tags, "z_1.IPT");
        }
        _ => panic!("expected the torrent to be kept"),
    }
}

#[test]
fn plan_deletes_and_protects() {
    let c = config();
    let mut g = group();
    g.cleanup = true;
    let t = torrent("", "c");
    let reached = RatioFacts {
        max_ratio_reached: true,
        group_ratio_matches: false,
        no_limit_ratio_matches: false,
    };
    let plan = plan_share_limit(&c, "G", &g, &t, reached).unwrap();
    assert_eq!(plan.tags_to_add, vec!["z_1.G".to_owned()]);
    assert!(matches!(plan.outcome, Ok(ShareLimitAction::Delete)));

    g.min_num_seeds = Some(50);
    let plan = plan_share_limit(&c, "G", &g, &t, reached).unwrap();
    let mut added = plan.tags_to_add.clone();
    added.sort();
    assert_eq!(added, vec!["MinSeedsNotMet".to_owned(), "z_1.G".to_owned()]);
    match plan.outcome {
        Ok(ShareLimitAction::Keep { changes, .. }) => {
            let changes = changes.expect("limits cleared");
            assert_eq!(
                changes.share_limits,
                Some((RatioChoice::NoLimit, MinuteLimit::NoLimit))
            );
        }
        _ => panic!("a protected torrent is kept"),
    }
}

#[test]
fn plan_reports_duration_errors() {
    let c = config();
    let mut g = group();
    g.min_seeding_time = Some(DurationValue::Text("oops".to_owned()));
    let facts = RatioFacts {
        max_ratio_reached: false,
        group_ratio_matches: true,
        no_limit_ratio_matches: true,
    };
    assert!(plan_share_limit(&c, "G", &g, &torrent("", "c"), facts).is_err());

    let mut g = group();
    g.max_seeding_time = Some(DurationValue::Text("2q".to_owned()));
    let plan = plan_share_limit(&c, "G", &g, &torrent("", "c"), facts).unwrap();
    assert_eq!(plan.tags_to_add, vec!["z_1.G".to_owned()]);
    assert!(plan.outcome.is_err());
}

#[test]
fn plan_arithmetic_bounds() {
    let c = config();
    let mut g = group();
    g.limit_upload_speed = Some(i64::MAX);
    let facts = RatioFacts {
        max_ratio_reached: false,
        group_ratio_matches: true,
        no_limit_ratio_matches: true,
    };
    assert!(!plan_share_limit_fits(&c, &g, &torrent("", "c"), facts));
    g.limit_upload_speed = Some(1);
    g.min_seeding_time = Some(DurationValue::Minutes(i64::MAX));
    assert!(!plan_share_limit_fits(&c, &g, &torrent("", "c"), facts));
}

#[test]
fn share_tags_steady_after_write() {
    let c = config();
    let mut g = group();
    g.min_num_seeds = Some(50);
    let facts = RatioFacts {
        max_ratio_reached: false,
        group_ratio_matches: false,
        no_limit_ratio_matches: true,
    };
    let mut t = torrent("mine, z_3.Old", "c");
    let plan = plan_share_limit(&c, "G", &g, &t, facts).unwrap();
    let new_tags = match plan.outcome {
        Ok(ShareLimitAction::Keep { new_tags, .. }) => new_tags,
        _ => panic!("kept"),
    };
    assert_eq!(new_tags, "MinSeedsNotMet, mine, z_1.G");
    t.tags = Some(new_tags.clone());
    let again = plan_share_limit(&c, "G", &g, &t, facts).unwrap();
    assert!(again.tags_to_remove.is_empty());
    assert!(again.tags_to_add.is_empty());
    for tag in parse_tags(&Some(new_tags)) {
        if tag != "mine" {
            assert!(is_managed_share_limit_tag(&c, &tag));
        }
    }
}
