use std::collections::HashSet;

use indexmap::IndexMap;

use qbit_controller::config::{ControllerConfig, Processes, Qbit, Settings, TrackerRule};
use qbit_controller::processes::tracker_tags::{
    desired_tracker_tags, is_real_tracker_url, named_torrent_hash, owned_tracker_tags,
    plan_tracker_tags,
};
use qbit_controller::qbit_api::{Torrent, Tracker};

fn config() -> ControllerConfig {
    ControllerConfig {
        qbit: Qbit {
            url: "http://localhost:8080".to_owned(),
            username: "user".to_owned(),
            password: "pass".to_owned(),
        },
        settings: Settings::default(),
        processes: Processes {
            tracker_errors: true,
            ..Processes::default()
        },
        names: None,
        cat_moves: None,
        trackers: None,
        share_limits: None,
    }
}

fn as_set(v: Vec<String>) -> HashSet<String> {
    v.into_iter().collect()
}

fn has(v: &[String], tag: &str) -> bool {
    v.iter().any(|t| t == tag)
}

#[test]
fn matches_tracker_url_contains_and_other() {
    let mut rules = IndexMap::new();
    rules.insert(
        "iptorrents|stackoverflow.tech".to_owned(),
        TrackerRule {
            tags: vec!["iptorrents".to_owned()],
        },
    );
    rules.insert(
        "other".to_owned(),
        TrackerRule {
            tags: vec!["other".to_owned()],
        },
    );

    let trackers = vec![Tracker {
        url: "https://routing.bgp.technology/announce".to_owned(),
        status: 2,
        msg: String::new(),
    }];
    assert_eq!(
        as_set(desired_tracker_tags(&config(), &rules, &trackers)),
        HashSet::from_iter(["other".to_owned()])
    );

    let trackers = vec![Tracker {
        url: "https://iptorrents.example/announce".to_owned(),
        status: 2,
        msg: String::new(),
    }];
    assert_eq!(
        as_set(desired_tracker_tags(&config(), &rules, &trackers)),
        HashSet::from_iter(["iptorrents".to_owned()])
    );
}

#[test]
fn tags_tracker_errors() {
    let rules = IndexMap::new();
    let trackers = vec![Tracker {
        url: "https://tracker.example/announce".to_owned(),
        status: 4,
        msg: "not working".to_owned(),
    }];

    assert!(has(&desired_tracker_tags(&config(), &rules, &trackers), "issue"));
}

#[test]
fn does_not_tag_when_trackers_are_not_yet_contacted_or_updating() {
    let rules = IndexMap::new();
    for status in [0, 1, 3] {
        let trackers = vec![Tracker {
            url: "https://tracker.example/announce".to_owned(),
            status,
            msg: String::new(),
        }];
        assert!(
            !has(&desired_tracker_tags(&config(), &rules, &trackers), "issue"),
            "status {status} should not tag as issue"
        );
    }
}

#[test]
fn does_not_tag_when_any_real_tracker_is_working() {
    let rules = IndexMap::new();
    let trackers = vec![
        Tracker {
            url: "https://working.example/announce".to_owned(),
            status: 2,
            msg: String::new(),
        },
        Tracker {
            url: "https://broken.example/announce".to_owned(),
            status: 4,
            msg: "down".to_owned(),
        },
    ];
    assert!(!has(&desired_tracker_tags(&config(), &rules, &trackers), "issue"));
}

#[test]
fn ignores_pseudo_trackers_for_error_state() {
    let rules = IndexMap::new();
    let trackers = vec![Tracker {
        url: "** [DHT] **".to_owned(),
        status: 4,
        msg: String::new(),
    }];
    assert!(!has(&desired_tracker_tags(&config(), &rules, &trackers), "issue"));
}

#[test]
fn real_tracker_schemes() {
    assert!(is_real_tracker_url("http://a"));
    assert!(is_real_tracker_url("https://a"));
    assert!(is_real_tracker_url("udp://a:80"));
    assert!(is_real_tracker_url("ws://a"));
    assert!(is_real_tracker_url("wss://a"));
    assert!(!is_real_tracker_url("** [PeX] **"));
    assert!(!is_real_tracker_url("ftp://a"));
    assert!(is_real_tracker_url("http"));
    assert!(!is_real_tracker_url(""));
}

#[test]
fn other_rule_needs_a_url_and_no_match() {
    let mut rules = IndexMap::new();
    rules.insert("other".to_owned(), TrackerRule { tags: vec!["other".to_owned()] });
    rules.insert(" foo | bar ".to_owned(), TrackerRule { tags: vec!["fb".to_owned(), "x".to_owned()] });
    let mut c = config();
    c.processes.tracker_errors = false;
    assert!(desired_tracker_tags(&c, &rules, &vec![]).is_empty());
    let empty_url = vec![Tracker { url: String::new(), status: 4, msg: String::new() }];
    assert!(desired_tracker_tags(&c, &rules, &empty_url).is_empty());
    let bar = vec![Tracker { url: "udp://bar.org".to_owned(), status: 2, msg: String::new() }];
    assert_eq!(
        as_set(desired_tracker_tags(&c, &rules, &bar)),
        HashSet::from_iter(["fb".to_owned(), "x".to_owned()])
    );
}

#[test]
fn owned_tags_include_error_tag() {
    let mut rules = IndexMap::new();
    rules.insert("a".to_owned(), TrackerRule { tags: vec!["t1".to_owned()] });
    rules.insert("b".to_owned(), TrackerRule { tags: vec!["t2".to_owned(), "t1".to_owned()] });
    assert_eq!(
        as_set(owned_tracker_tags(&config(), &rules)),
        HashSet::from_iter(["t1".to_owned(), "t2".to_owned(), "issue".to_owned()])
    );
    let mut c = config();
    c.processes.tracker_errors = false;
    assert_eq!(owned_tracker_tags(&c, &rules).len(), 2);
}

fn torrent(tags: &str) -> Torrent {
    Torrent {
        added_on: None,
        auto_tmm: None,
        category: None,
        hash: Some("h".to_owned()),
        name: Some("n".to_owned()),
        num_complete: None,
        fully_downloaded: true,
        seeding_time: None,
        seeding_time_limit: None,
        state: None,
        tags: Some(tags.to_owned()),
        tracker: None,
        up_limit: None,
    }
}

#[test]
fn tracker_plan_and_steady_state() {
    let desired = vec!["ipt".to_owned()];
    let owned = vec!["ipt".to_owned(), "issue".to_owned(), "old".to_owned()];
    let plan = plan_tracker_tags(&torrent("mine, old, issue"), &desired, &owned);
    assert_eq!(as_set(plan.tags_to_remove), HashSet::from_iter(["old".to_owned(), "issue".to_owned()]));
    assert_eq!(plan.tags_to_add, vec!["ipt".to_owned()]);
    assert_eq!(plan.new_tags, "ipt, mine");
    let again = plan_tracker_tags(&torrent(&plan.new_tags), &desired, &owned);
    assert!(again.tags_to_remove.is_empty());
    assert!(again.tags_to_add.is_empty());
    assert_eq!(again.new_tags, plan.new_tags);
}

#[test]
fn named_torrent_hash_cases() {
    let mut t = torrent("");
    assert_eq!(named_torrent_hash(&t), Ok(Some("h".to_owned())));
    t.hash = None;
    assert!(named_torrent_hash(&t).is_err());
    t.name = None;
    assert_eq!(named_torrent_hash(&t), Ok(None));
}
