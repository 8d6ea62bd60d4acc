use oma_browse::config::Startup;
use oma_browse::control::{Failure, Reply, Target};
use oma_browse::launch::{
    classify, first_value, join, joined, looks_like_url, needs_a_window, plan, relay, starting,
    startup, unsent, Invocation, Plan, Starting, Unsent,
};

fn args(v: &[&str]) -> Vec<String> {
    v.iter().map(|s| s.to_string()).collect()
}

#[test]
fn bare_launch_is_gui() {
    assert!(matches!(classify(&args(&[])), Invocation::Gui { url: None, .. }));
}

#[test]
fn a_url_is_gui_not_a_subcommand() {
    // `omarchy-launch-browser` passes the URL positionally.
    match classify(&args(&["https://example.com"])) {
        Invocation::Gui { url, .. } => assert_eq!(url.as_deref(), Some("https://example.com")),
        _ => panic!("a bare URL must open the GUI"),
    }
}

#[test]
fn incognito_is_gui() {
    // Omarchy rewrites its own `--private` to `--incognito` for us, so both spellings
    // must reach GUI mode rather than incurs' parser.
    for flag in ["--incognito", "--private"] {
        match classify(&args(&[flag])) {
            Invocation::Gui { incognito, .. } => {
                assert!(incognito, "{flag} should set incognito")
            }
            _ => panic!("{flag} must open the GUI"),
        }
    }
}

#[test]
fn a_new_window_flag_is_gui_and_refuses_to_join() {
    // `window new` passes this. Without it, Ctrl-N with a URL would hand the URL to the
    // window it was pressed in and open nothing.
    match classify(&args(&["--new", "https://example.com"])) {
        Invocation::Gui { fresh, url, .. } => {
            assert!(fresh);
            assert_eq!(url.as_deref(), Some("https://example.com"));
        }
        _ => panic!("--new must open the GUI"),
    }
    // And a URL on its own does not set it, which is what lets a launcher's link land
    // in the window you already have.
    match classify(&args(&["https://example.com"])) {
        Invocation::Gui { fresh, .. } => assert!(!fresh),
        _ => panic!("a bare URL must open the GUI"),
    }
}

#[test]
fn palette_flag_is_gui() {
    // `window new` hands this to the window it opens; incurs' parser must never see it,
    // or Ctrl-N would spawn a process that prints usage.
    match classify(&args(&["--palette"])) {
        Invocation::Gui { url, palette, .. } => {
            assert!(palette);
            assert!(url.is_none());
        }
        _ => panic!("--palette must open the GUI"),
    }
}

#[test]
fn incognito_with_a_url_is_still_gui() {
    match classify(&args(&["--incognito", "https://example.com"])) {
        Invocation::Gui { url, incognito, .. } => {
            assert!(incognito);
            assert_eq!(url.as_deref(), Some("https://example.com"));
        }
        _ => panic!("expected GUI"),
    }
}

#[test]
fn subcommands_go_to_the_cli() {
    for a in [vec!["theme"], vec!["theme", "show"], vec!["--help"], vec!["--version"]] {
        assert!(matches!(classify(&args(&a)), Invocation::Command), "{a:?}");
    }
}

#[test]
fn a_link_joins_the_window_you_have() {
    assert_eq!(join(Some("https://a.test"), false, false), Some(args(&["tab", "open", "https://a.test"])));
    assert!(join(Some("https://a.test"), true, false).is_none(), "not a private one");
    assert!(join(Some("https://a.test"), false, true).is_none(), "not a fresh one");
    assert!(join(None, false, false).is_none());
    let reply = Reply { v: 1, exit_code: None, stdout: String::new(), stderr: String::new() };
    assert!(joined(&Ok(reply)));
    assert!(!joined(&Err(Failure::NoWindow)));
    assert!(looks_like_url("file:///etc/hosts"));
    assert!(!looks_like_url("example.com"));
}

#[test]
fn a_private_start_restores_nothing() {
    let configured = Startup { incognito: false, restore: true };
    assert_eq!(startup(false, &configured), (false, true));
    assert_eq!(startup(true, &configured), (true, false));
    assert_eq!(startup(false, &Startup { incognito: true, restore: true }), (true, false));
}

#[test]
fn where_a_command_runs() {
    assert_eq!(plan(&args(&["--mcp"])), Plan::Relay);
    assert_eq!(plan(&args(&["--help"])), Plan::Here);
    assert_eq!(plan(&args(&["tab", "list"])), Plan::Forward);
    assert_eq!(first_value(&args(&["tab", "open", "https://a.test"])).as_deref(), Some("https://a.test"));
    assert_eq!(first_value(&args(&["tab", "open"])), None);
    assert_eq!(
        first_value(&args(&["--json", "tab", "open", "https://a.test"])).as_deref(),
        Some("https://a.test")
    );
    assert_eq!(first_value(&args(&["tab", "open", "--json"])), None);
    assert!(needs_a_window(&args(&["tab", "list"])));
    assert!(!needs_a_window(&args(&["theme", "show"])));
}

#[test]
fn a_relay_opens_a_window_unless_one_was_named() {
    assert_eq!(relay(true, Target::Current).unwrap(), false);
    assert_eq!(relay(false, Target::Current).unwrap(), true);
    assert_eq!(
        relay(false, Target::Window(7)).unwrap_err(),
        "no browser window with pid 7 is running"
    );
}

#[test]
fn a_command_nobody_answered_opens_a_window_or_says_so() {
    match unsent(&args(&["tab", "open", "https://a.test"]), &Failure::NoWindow) {
        Unsent::Open { input, .. } => assert_eq!(input.as_deref(), Some("https://a.test")),
        _ => panic!("opening a page starts a browser"),
    }
    assert!(matches!(unsent(&args(&["tab", "list"]), &Failure::NoWindow), Unsent::Refuse(_)));
    assert!(matches!(unsent(&args(&["theme", "show"]), &Failure::NoWindow), Unsent::Here));
    let broken = Failure::Transport("broken pipe".to_string());
    match unsent(&args(&["tab", "open"]), &broken) {
        Unsent::Refuse(why) => assert_eq!(why, "could not talk to the browser: broken pipe"),
        _ => panic!("a window that is there is not started again"),
    }
}

#[test]
fn a_window_that_never_comes_up_is_given_up_on() {
    assert!(matches!(starting(7, true, 100), Starting::Ready));
    assert!(matches!(starting(7, false, 100), Starting::Wait));
    match starting(7, false, 10_000) {
        Starting::GiveUp(why) => {
            assert_eq!(why, "started a browser window (pid 7) but it did not come up within 10s")
        }
        _ => panic!("ten seconds is enough"),
    }
}
