use std::collections::HashSet;

use qbit_controller::duration::{duration_text_in_range, DurationError, DurationValue};
use qbit_controller::processes::common::{
    auto_management_hashes, dry_run_prefix, is_complete, parse_duration_minutes,
    parse_duration_text, parse_tags, sorted_tags_string, torrent_hash, ProcessError,
};
use qbit_controller::config::{ControllerConfig, Processes, Qbit, Settings};
use qbit_controller::qbit_api::Torrent;

fn as_set(v: Vec<String>) -> HashSet<String> {
    v.into_iter().collect()
}

fn config() -> ControllerConfig {
    ControllerConfig {
        qbit: Qbit {
            url: "http://localhost:8080".to_owned(),
            username: "user".to_owned(),
            password: "pass".to_owned(),
        },
        settings: Settings::default(),
        processes: Processes::default(),
        names: None,
        cat_moves: None,
        trackers: None,
        share_limits: None,
    }
}

fn torrent(tags: Option<&str>, hash: Option<&str>) -> Torrent {
    Torrent {
        added_on: None,
        auto_tmm: None,
        category: None,
        hash: hash.map(|h| h.to_owned()),
        name: Some("torrent".to_owned()),
        num_complete: None,
        fully_downloaded: false,
        seeding_time: None,
        seeding_time_limit: None,
        state: None,
        tags: tags.map(|t| t.to_owned()),
        tracker: None,
        up_limit: None,
    }
}

#[test]
fn parses_comma_separated_tags() {
    let tags = as_set(parse_tags(&Some("one, two,,three ".to_owned())));
    assert_eq!(
        tags,
        HashSet::from_iter(["one".into(), "two".into(), "three".into()])
    );
}

#[test]
fn parses_duration_units() {
    assert_eq!(parse_duration_text("30d").unwrap(), 43_200);
    assert_eq!(parse_duration_text("1w3d2h32m").unwrap(), 14_552);
    assert_eq!(parse_duration_text("-1").unwrap(), -1);
}

#[test]
fn rejects_missing_duration_unit() {
    assert!(parse_duration_text("10h5").is_err());
}

#[test]
fn parse_tags_of_nothing_is_empty() {
    assert!(parse_tags(&None).is_empty());
    assert!(parse_tags(&Some(" , ,".to_owned())).is_empty());
}

#[test]
fn parse_tags_keeps_each_tag_once() {
    let tags = parse_tags(&Some("a, a,b , \u{3000}a".to_owned()));
    assert_eq!(tags.len(), 2);
    assert_eq!(as_set(tags), HashSet::from_iter(["a".into(), "b".into()]));
}

#[test]
fn parse_tags_trims_unicode_white_space() {
    let tags = parse_tags(&Some("\u{a0}x\u{2003}, \ty\n".to_owned()));
    assert_eq!(as_set(tags), HashSet::from_iter(["x".into(), "y".into()]));
}

#[test]
fn sorted_tags_string_orders_and_joins() {
    let tags = vec!["zeta".to_owned(), "Alpha".to_owned(), "beta".to_owned(), "al".to_owned()];
    assert_eq!(sorted_tags_string(&tags), "Alpha, al, beta, zeta");
    assert_eq!(sorted_tags_string(&vec![]), "");
    assert_eq!(sorted_tags_string(&vec!["one".to_owned()]), "one");
}

#[test]
fn sorted_tags_string_matches_std_order() {
    let mut tags = vec![
        "é".to_owned(),
        "e".to_owned(),
        "ab".to_owned(),
        "a".to_owned(),
        "Z".to_owned(),
        "日本".to_owned(),
    ];
    let written = sorted_tags_string(&tags);
    tags.sort();
    assert_eq!(written, tags.join(", "));
}

#[test]
fn tags_round_trip_through_text() {
    let tags = parse_tags(&Some("b, a ,c,, d".to_owned()));
    let text = sorted_tags_string(&tags);
    assert_eq!(text, "a, b, c, d");
    assert_eq!(as_set(parse_tags(&Some(text))), as_set(tags));
}

#[test]
fn duration_plain_minutes_and_signs() {
    assert_eq!(parse_duration_text("  90 "), Ok(90));
    assert_eq!(parse_duration_text("+5"), Ok(5));
    assert_eq!(parse_duration_text("-9223372036854775808"), Ok(i64::MIN));
    assert_eq!(parse_duration_text("9223372036854775807"), Ok(i64::MAX));
}

#[test]
fn duration_unit_formulas() {
    assert_eq!(parse_duration_text("1m"), Ok(1));
    assert_eq!(parse_duration_text("2h"), Ok(120));
    assert_eq!(parse_duration_text("3d"), Ok(3 * 24 * 60));
    assert_eq!(parse_duration_text("4w"), Ok(4 * 7 * 24 * 60));
    assert_eq!(parse_duration_text("1h1h"), Ok(120));
    assert_eq!(parse_duration_text("0d"), Ok(0));
}

#[test]
fn duration_errors() {
    assert_eq!(parse_duration_text("   "), Err(DurationError::Empty));
    assert_eq!(parse_duration_text("h"), Err(DurationError::Invalid));
    assert_eq!(parse_duration_text("1hm"), Err(DurationError::Invalid));
    assert_eq!(parse_duration_text("+5m"), Err(DurationError::Invalid));
    assert_eq!(parse_duration_text("5s"), Err(DurationError::InvalidUnit('s')));
    assert_eq!(parse_duration_text("10h5"), Err(DurationError::MissingUnit));
    assert_eq!(
        parse_duration_text("99999999999999999999m"),
        Err(DurationError::NumberTooLarge)
    );
}

#[test]
fn duration_value_minutes() {
    assert_eq!(parse_duration_minutes(&DurationValue::Minutes(-3)), Ok(-3));
    assert_eq!(
        parse_duration_minutes(&DurationValue::Text("1d".to_owned())),
        Ok(1440)
    );
}

#[test]
fn duration_in_range_check() {
    assert!(duration_text_in_range("30d"));
    assert!(duration_text_in_range("5s"));
    assert!(!duration_text_in_range("9223372036854775807w"));
    assert!(!duration_text_in_range("9223372036854775807m1m"));
}

#[test]
fn dry_run_prefix_follows_setting() {
    let mut c = config();
    assert_eq!(dry_run_prefix(&c), "");
    c.settings.dry_run = true;
    assert_eq!(dry_run_prefix(&c), "[DRY-RUN] ");
}

#[test]
fn torrent_hash_needs_a_hash() {
    assert_eq!(torrent_hash(&torrent(None, Some("abc"))), Ok("abc".to_owned()));
    assert_eq!(torrent_hash(&torrent(None, None)), Err(ProcessError::MissingHash));
}

#[test]
fn completeness_by_progress_or_state() {
    let mut t = torrent(None, None);
    assert!(!is_complete(&t));
    t.state = Some("stalledUP".to_owned());
    assert!(is_complete(&t));
    t.state = Some("downloading".to_owned());
    assert!(!is_complete(&t));
    t.fully_downloaded = true;
    assert!(is_complete(&t));
}

#[test]
fn auto_management_skips_ignored_tags() {
    let mut c = config();
    c.settings.auto_management_ignore_tags = vec!["keep".to_owned()];
    let torrents = vec![
        torrent(Some("a, keep"), Some("h1")),
        torrent(Some("a"), Some("h2")),
        torrent(None, None),
        torrent(None, Some("h4")),
    ];
    assert_eq!(
        auto_management_hashes(&c, &torrents),
        vec!["h2".to_owned(), "h4".to_owned()]
    );
}

#[test]
fn auto_management_skips_managed_torrents() {
    let c = config();
    let mut on = torrent(None, Some("h1"));
    on.auto_tmm = Some(true);
    let mut off = torrent(None, Some("h2"));
    off.auto_tmm = Some(false);
    let unknown = torrent(None, Some("h3"));
    assert_eq!(
        auto_management_hashes(&c, &vec![on, off, unknown]),
        vec!["h2".to_owned(), "h3".to_owned()]
    );
}

#[test]
fn settings_defaults() {
    let s = Settings::default();
    assert_eq!(s.share_limits_tag, "z");
    assert_eq!(s.tracker_error_tag, "issue");
    assert_eq!(s.share_limits_min_seeding_time_tag, "MinSeedTimeNotReached");
    assert_eq!(s.share_limits_min_num_seeds_tag, "MinSeedsNotMet");
    assert!(s.share_limits_filter_completed);
    assert!(!s.dry_run);
    assert!(qbit_controller::config::default_true());
}

#[test]
fn tags_text_ignores_input_order() {
    let a = vec!["b".to_owned(), "c".to_owned(), "a".to_owned()];
    let b = vec!["c".to_owned(), "a".to_owned(), "b".to_owned()];
    assert_eq!(sorted_tags_string(&a), sorted_tags_string(&b));
}
