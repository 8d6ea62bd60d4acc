use oma_browse::control::Failure;
use oma_browse::follow::{
    advance, console_line, console_text, ended, network_line, network_text, render, start,
    wanted, Rounds,
};

fn argv(words: &[&str]) -> Vec<String> {
    words.iter().map(|w| (*w).to_string()).collect()
}

#[test]
fn only_the_two_logs_are_followable() {
    assert!(wanted(&argv(&["page", "console", "--follow"])).is_some());
    assert!(wanted(&argv(&["page", "network", "--follow"])).is_some());
    assert!(wanted(&argv(&["page", "console"])).is_none());
    assert!(wanted(&argv(&["page", "source", "--follow"])).is_none());
    assert!(wanted(&argv(&["tab", "list", "--follow"])).is_none());
    assert!(wanted(&[]).is_none());
}

#[test]
fn the_flags_the_loop_owns_are_taken_out_of_the_argv() {
    let follow =
        wanted(&argv(&["page", "console", "--follow", "--level", "warn", "--since", "44"]))
            .expect("this follows");
    assert!(!follow.argv.iter().any(|w| w == "--follow"), "{:?}", follow.argv);
    assert!(!follow.argv.iter().any(|w| w == "--since"), "{:?}", follow.argv);
    assert!(!follow.argv.iter().any(|w| w == "44"), "{:?}", follow.argv);
    // Everything the caller asked for that is not ours survives.
    assert!(follow.argv.iter().any(|w| w == "--level"), "{:?}", follow.argv);
    assert!(follow.argv.iter().any(|w| w == "warn"), "{:?}", follow.argv);
    assert!(follow.argv.iter().any(|w| w == "--json"), "{:?}", follow.argv);
    assert!(!follow.limited);
}

#[test]
fn a_caller_who_named_a_limit_keeps_it_and_gets_no_backlog_of_ours() {
    let follow = wanted(&argv(&["page", "network", "--follow", "--limit", "5"])).expect("follows");
    assert!(follow.limited);
    assert!(follow.argv.iter().any(|w| w == "--limit"));
    assert!(follow.argv.iter().any(|w| w == "5"));
    let joined = wanted(&argv(&["page", "network", "--follow", "--limit=5"])).expect("follows");
    assert!(joined.limited);
}

#[test]
fn a_line_reads_as_a_log_line() {
    let entry = r#"{"level": "error", "text": "boom", "source": "app.js:4:2"}"#;
    assert_eq!(console_line(entry), "error  boom  (app.js:4:2)");
    let bare = r#"{"level": "log", "text": "hello", "source": ""}"#;
    assert_eq!(console_line(bare), "  log  hello");
    assert_eq!(
        console_text(Some("error".into()), Some("boom".into()), Some("app.js:4:2".into())),
        "error  boom  (app.js:4:2)"
    );
}

#[test]
fn a_request_in_flight_does_not_read_as_a_failure() {
    let flying = r#"{"method": "GET", "url": "https://example.com/", "status": 0, "ms": 0, "failed": null}"#;
    assert!(network_line(flying).contains("..."));
    let done = r#"{"method": "GET", "url": "https://example.com/", "status": 200, "ms": 12, "failed": null}"#;
    assert!(network_line(done).contains("200"));
    let bad = r#"{"method": "GET", "url": "https://example.com/", "status": 0, "ms": 1, "failed": "could not resolve"}"#;
    assert!(network_line(bad).contains("could not resolve"));
    assert_eq!(
        network_text(Some("GET".into()), Some("u".into()), Some(200), Some(12), None),
        "  200  GET    u  12ms"
    );
}

#[test]
fn a_round_asks_from_where_the_last_one_ended() {
    let follow = wanted(&argv(&["page", "console", "--follow"])).unwrap();
    let first = follow.round(0, true);
    assert!(first.ends_with(&argv(&["--since", "0", "--limit", "20"])), "{first:?}");
    let second = follow.round(17, false);
    assert!(second.ends_with(&argv(&["--since", "17"])), "{second:?}");
    let limited = wanted(&argv(&["page", "console", "--follow", "--limit", "3"])).unwrap();
    assert!(limited.round(0, true).ends_with(&argv(&["--since", "0"])));
}

#[test]
fn an_answer_moves_the_follower_on() {
    let follow = wanted(&argv(&["page", "console", "--follow"])).unwrap();
    let reply = r#"{"next": 9, "lines": [{"level": "log", "text": "hi", "source": ""}]}"#;
    let (next, lines) = follow.digest(reply, 3).unwrap();
    assert_eq!(next, 9);
    assert_eq!(lines, vec!["  log  hi".to_string()]);
    assert_eq!(follow.digest(" not json \n", 3).unwrap_err(), "not json");
    assert_eq!(advance(None, 3), 3);
    assert!(render("network", reply).is_empty());
}

#[test]
fn the_end_of_a_follow_says_why() {
    assert_eq!(ended(&Failure::NoWindow), "the browser window has gone");
    assert_eq!(
        ended(&Failure::Transport("broken pipe".into())),
        "could not talk to the browser: broken pipe"
    );
}

#[test]
fn a_callers_since_is_where_the_first_ask_starts() {
    let follow = wanted(&argv(&["page", "console", "--follow", "--since", "44"])).unwrap();
    assert_eq!(follow.since, 44);
    let mut rounds = Rounds::new(follow);
    let first = rounds.ask();
    assert!(first.ends_with(&argv(&["--since", "44", "--limit", "20"])), "{first:?}");
    assert!(rounds.heard(r#"{"next": 51, "lines": []}"#).unwrap().is_empty());
    let second = rounds.ask();
    assert!(second.ends_with(&argv(&["--since", "51"])), "{second:?}");
    assert_eq!(rounds.heard("no tab").unwrap_err(), "no tab");
    assert_eq!(start(&argv(&["page", "console", "--since=7", "--since", "9"])), 9);
    assert_eq!(start(&argv(&["page", "console", "--since", "soon"])), 0);
    assert_eq!(start(&argv(&["page", "console"])), 0);
}
