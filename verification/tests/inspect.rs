use oma_browse::inspect::{
    civil_from_days, drain_script, har, iso8601, now_ms, script, Exchange, Inspector, Level, Line,
    Outcome, Response, Said, Sequence, CHANNEL, KEEP,
};

fn line(seq: u64, level: Level, text: &str) -> Line {
    Line { seq, level, text: text.to_string(), source: String::new(), at: 0 }
}

#[test]
fn every_level_survives_a_round_trip() {
    for level in Level::ALL {
        assert_eq!(Level::parse(level.as_str()), Some(level), "{}", level.as_str());
    }
    assert_eq!(Level::parse("WARNING"), Some(Level::Warn));
    assert_eq!(Level::parse("shout"), None);
}

#[test]
fn levels_are_ordered_by_how_loud_they_are() {
    assert!(Level::Error > Level::Warn);
    assert!(Level::Warn > Level::Info);
    assert!(Level::Debug < Level::Log);
    assert!(Level::Error.reaches(Level::Warn));
    assert!(!Level::Debug.reaches(Level::Log));
}

#[test]
fn the_oldest_line_is_the_one_that_goes() {
    let mut inspector = Inspector::default();
    for seq in 0..(KEEP as u64 + 10) {
        inspector.say("tab-1", line(seq, Level::Log, "hello"));
    }
    let kept = inspector.console_of("tab-1");
    assert_eq!(kept.len(), KEEP, "the buffer must not grow past its cap");
    assert_eq!(kept[0].seq, 10, "the ten oldest lines should be gone");
}

#[test]
fn one_tab_does_not_see_another_tabs_console() {
    let mut inspector = Inspector::default();
    inspector.say("tab-1", line(1, Level::Log, "mine"));
    inspector.say("tab-2", line(2, Level::Log, "theirs"));
    assert_eq!(inspector.console_of("tab-1").len(), 1);
    assert_eq!(inspector.console_of("tab-1")[0].text, "mine");
    assert!(inspector.console_of("tab-3").is_empty());
}

#[test]
fn a_request_is_completed_in_place_rather_than_appended() {
    let mut inspector = Inspector::default();
    let seq = inspector.started(
        "tab-1",
        Exchange {
            seq: 7,
            method: "GET".into(),
            url: "https://example.com/".into(),
            status: 0,
            mime: String::new(),
            bytes: 0,
            at: 0,
            ms: 0,
            failed: None,
        },
    );
    inspector.finished(
        "tab-1",
        seq,
        Outcome { status: 200, mime: "text/html".into(), bytes: 1234, ms: 42, failed: None },
    );

    let seen = inspector.network_of("tab-1");
    assert_eq!(seen.len(), 1, "finishing a request must not add a second row");
    assert_eq!(seen[0].status, 200);
    assert_eq!(seen[0].bytes, 1234);
    assert_eq!(seen[0].ms, 42);
}

#[test]
fn finishing_something_that_was_never_started_is_ignored() {
    let mut inspector = Inspector::default();
    inspector.finished("tab-1", 99, Outcome { status: 200, ..Outcome::default() });
    assert!(inspector.network_of("tab-1").is_empty());
}

#[test]
fn clearing_one_tab_leaves_the_others_alone() {
    let mut inspector = Inspector::default();
    inspector.say("tab-1", line(1, Level::Log, "a"));
    inspector.say("tab-2", line(2, Level::Log, "b"));
    inspector.clear(Some("tab-1"));
    assert!(inspector.console_of("tab-1").is_empty());
    assert_eq!(inspector.console_of("tab-2").len(), 1);
    inspector.clear(None);
    assert!(inspector.console_of("tab-2").is_empty());
}

#[test]
fn a_har_is_shaped_the_way_a_har_reader_expects() {
    let exchanges = vec![Exchange {
        seq: 1,
        method: "GET".into(),
        url: "https://example.com/app.js".into(),
        status: 200,
        mime: "text/javascript".into(),
        bytes: 90,
        at: 1_700_000_000_000,
        ms: 12,
        failed: None,
    }];
    let har = har("https://example.com/", &exchanges, "0.1.0");
    let har: serde_json::Value = serde_json::from_str(&har).unwrap();
    assert_eq!(har["log"]["version"], "1.2");
    assert_eq!(har["log"]["entries"][0]["request"]["url"], "https://example.com/app.js");
    assert_eq!(har["log"]["entries"][0]["response"]["status"], 200);
    assert_eq!(har["log"]["entries"][0]["time"], 12);
    assert_eq!(har["log"]["entries"][0]["startedDateTime"], "2023-11-14T22:13:20.000Z");
    assert_eq!(har["log"]["creator"]["version"], "0.1.0");
}

#[test]
fn a_har_of_nothing_is_still_one() {
    let har: serde_json::Value = serde_json::from_str(&har("", &[], "0")).unwrap();
    assert_eq!(har["log"]["entries"].as_array().map(|e| e.len()), Some(0));
}

#[test]
fn a_timestamp_is_written_the_way_a_har_reads_one() {
    // 2023-11-14T22:13:20.000Z, checked against `date -u -d @1700000000`.
    assert_eq!(iso8601(1_700_000_000_000), "2023-11-14T22:13:20.000Z");
    assert_eq!(iso8601(0), "1970-01-01T00:00:00.000Z");
    // A leap day, which is where a hand-written calendar goes wrong.
    assert_eq!(iso8601(1_709_164_800_000), "2024-02-29T00:00:00.000Z");
}

#[test]
fn the_day_after_a_century_that_is_no_leap_year_is_march() {
    // 2100-02-28 and the day after it.
    assert_eq!(civil_from_days(47_540), (2100, 2, 28));
    assert_eq!(civil_from_days(47_541), (2100, 3, 1));
    assert_eq!(civil_from_days(0), (1970, 1, 1));
    assert_eq!(civil_from_days(-1), (1969, 12, 31));
    assert_eq!(civil_from_days(-719_528), (0, 1, 1));
    assert_eq!(civil_from_days(-719_529), (-1, 12, 31));
}

#[test]
fn what_a_page_said_becomes_numbered_lines() {
    let mut inspector = Inspector::default();
    let mut seqs = Sequence::default();
    let said = vec![
        Said { level: "warn".into(), text: "careful".into(), source: "a.js:1".into(), at: 5 },
        Said { level: "shout".into(), text: "what".into(), source: String::new(), at: 0 },
    ];
    inspector.hear("tab-1", said, &mut seqs, 99);
    let heard = inspector.console_of("tab-1");
    assert_eq!(heard.len(), 2);
    assert_eq!((heard[0].seq, heard[1].seq), (1, 2));
    assert_eq!(heard[0].level, Level::Warn);
    assert_eq!(heard[0].at, 5);
    assert_eq!(seqs.take(), 3);
}

#[test]
fn a_request_begins_with_nothing_known_of_its_answer() {
    let begun = Exchange::begun(4, None, Some("https://a.test/"), 9);
    assert_eq!((begun.seq, begun.method.as_str(), begun.status, begun.at), (4, "GET", 0, 9));
    let arrived =
        Outcome::arrived(Some(Response { status: 404, mime: None, bytes: 3 }), 7);
    assert_eq!((arrived.status, arrived.bytes, arrived.ms), (404, 3, 7));
    assert!(arrived.failed.is_none());
    let broken = Outcome::broken("no route", 8);
    assert_eq!(broken.failed.as_deref(), Some("no route"));
    assert_eq!(broken.ms, 8);
}

#[test]
fn the_browser_asks_for_what_the_page_piled_up() {
    assert!(drain_script().contains(CHANNEL));
    assert_eq!(script("x"), "x");
    assert_eq!(now_ms(Some(3)), 3);
    assert_eq!(now_ms(None), 0);
    let mut inspector = Inspector::default();
    inspector.say("tab-1", line(1, Level::Log, "a"));
    inspector.clear_network("tab-1");
    assert_eq!(inspector.console_of("tab-1").len(), 1);
    inspector.clear_console("tab-1");
    assert!(inspector.console_of("tab-1").is_empty());
}
