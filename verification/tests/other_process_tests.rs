use indexmap::IndexMap;

use qbit_controller::config::{CatMove, Name};
use qbit_controller::processes::cat_moves::decide_category;
use qbit_controller::processes::common::ProcessError;
use qbit_controller::processes::stats::{log_section, RunStats};
use qbit_controller::processes::tag_names::tag_name_additions;
use qbit_controller::qbit_api::{login_succeeded, normalize_base_url, Torrent};

fn torrent(name: Option<&str>, tags: &str, category: Option<&str>) -> Torrent {
    Torrent {
        added_on: None,
        auto_tmm: None,
        category: category.map(|c| c.to_owned()),
        hash: Some("h".to_owned()),
        name: name.map(|n| n.to_owned()),
        num_complete: None,
        fully_downloaded: true,
        seeding_time: None,
        seeding_time_limit: None,
        state: None,
        tags: Some(tags.to_owned()),
        tracker: None,
        up_limit: None,
    }
}

#[test]
fn name_tags_ignore_case() {
    let names = vec![
        ("SubsPlease".to_owned(), Name { tags: vec!["anime".to_owned(), "subs".to_owned()] }),
        ("NTB".to_owned(), Name { tags: vec!["tv".to_owned()] }),
    ];
    let t = torrent(Some("[subsplease] Show - 01.mkv"), "subs", None);
    let add = tag_name_additions(&names, &t).expect("a tag to add");
    assert_eq!(add.tags_to_add, vec!["anime".to_owned()]);
    assert_eq!(add.new_tags, "anime, subs");
    let done = torrent(Some("[subsplease] Show - 01.mkv"), "anime, subs", None);
    assert!(tag_name_additions(&names, &done).is_none());
    assert!(tag_name_additions(&names, &torrent(None, "", None)).is_none());
}

#[test]
fn name_tags_unicode_lowercase() {
    let names = vec![("ÄRGER".to_owned(), Name { tags: vec!["de".to_owned()] })];
    let t = torrent(Some("Viel Ärger im Haus"), "", None);
    assert_eq!(tag_name_additions(&names, &t).unwrap().tags_to_add, vec!["de".to_owned()]);
}

fn rule(categories: Option<&[&str]>, tags: Option<&[&str]>, new: &str) -> CatMove {
    CatMove {
        categories: categories.map(|c| c.iter().map(|s| s.to_string()).collect()),
        tags: tags.map(|t| t.iter().map(|s| s.to_string()).collect()),
        new_category: new.to_owned(),
    }
}

#[test]
fn category_moves_take_first_match() {
    let mut rules = IndexMap::new();
    rules.insert("a".to_owned(), rule(Some(&["anime-complete"]), Some(&["dc"]), "digital-core"));
    rules.insert("b".to_owned(), rule(Some(&["anime-complete"]), None, "anime"));
    let t = torrent(Some("x"), "dc, y", Some("anime-complete"));
    assert_eq!(decide_category(&rules, &t), Ok(Some("digital-core".to_owned())));
    let t = torrent(Some("x"), "y", Some("anime-complete"));
    assert_eq!(decide_category(&rules, &t), Ok(Some("anime".to_owned())));
    let t = torrent(Some("x"), "y", Some("tv"));
    assert_eq!(decide_category(&rules, &t), Ok(None));
    let t = torrent(Some("x"), "dc", Some("digital-core"));
    assert_eq!(decide_category(&rules, &t), Ok(None));
}

#[test]
fn category_move_without_condition_is_an_error() {
    let mut rules = IndexMap::new();
    rules.insert("a".to_owned(), rule(None, Some(&["dc"]), "digital-core"));
    rules.insert("bad".to_owned(), rule(None, None, "x"));
    let t = torrent(Some("x"), "dc", None);
    assert_eq!(decide_category(&rules, &t), Ok(Some("digital-core".to_owned())));
    let t = torrent(Some("x"), "", None);
    assert_eq!(decide_category(&rules, &t), Err(ProcessError::RuleWithoutCondition("bad".to_owned())));
    let t = torrent(None, "", None);
    assert_eq!(decide_category(&rules, &t), Ok(None));
}

#[test]
fn missing_category_counts_as_empty() {
    let mut rules = IndexMap::new();
    rules.insert("a".to_owned(), rule(Some(&[""]), None, "sorted"));
    let t = torrent(Some("x"), "", None);
    assert_eq!(decide_category(&rules, &t), Ok(Some("sorted".to_owned())));
}

#[test]
fn summary_text_matches_layout() {
    let stats = RunStats {
        torrents_total: 412,
        auto_management_enabled: 12,
        tracker_tags_added: 1,
        tracker_tags_removed: 0,
        share_limits_applied: 8,
        share_limits_cleaned_up: 1,
        share_limit_tags_added: 8,
        share_limit_tags_removed: 8,
        name_tags_added: 0,
        categories_changed: 1,
    };
    let expected = "==================== Summary ====================\n  \
         Torrents inspected         : 412\n  \
         Auto-management enabled    : 12\n  \
         Tracker tags added         : 1\n  \
         Tracker tags removed       : 0\n  \
         Share limits applied       : 8\n  \
         Share limits cleaned up    : 1\n  \
         Share-limit tags added     : 8\n  \
         Share-limit tags removed   : 8\n  \
         Name tags added            : 0\n  \
         Categories changed         : 1";
    assert_eq!(stats.log_summary(false), expected);
    assert!(stats.log_summary(true).starts_with("==================== Summary (dry-run) ===================="));
    assert_eq!(log_section("Share limits"), "=========== Share limits ===========");
}

#[test]
fn base_url_normalisation() {
    assert_eq!(normalize_base_url("10.0.0.10:8080"), "http://10.0.0.10:8080/");
    assert_eq!(normalize_base_url("https://host/"), "https://host/");
    assert_eq!(normalize_base_url("http://host"), "http://host/");
    assert_eq!(normalize_base_url(""), "http://");
}

#[test]
fn login_reply() {
    assert!(login_succeeded(200, " Ok.\n"));
    assert!(!login_succeeded(200, "Fails."));
    assert!(!login_succeeded(403, "Ok."));
}
