use oma_browse::config::Control;
use oma_browse::control::{
    accept, check_owner, current_in, dir_for, live_in, not_reached, opens_a_window, pid_of,
    points_here, probe, refused, runs_locally, runtime_dir, socket_for, socket_in, staging_in,
    sweep_in, take_window_flag, window_name, Entry, Failure, Reply, Request, Target,
};

fn argv(v: &[&str]) -> Vec<String> {
    v.iter().map(|s| s.to_string()).collect()
}

#[test]
fn a_window_flag_is_taken_out_of_the_argv() {
    for spelling in
        [argv(&["--window", "42", "tab", "list"]), argv(&["--window=42", "tab", "list"])]
    {
        let (rest, target) = take_window_flag(spelling);
        assert_eq!(rest, argv(&["tab", "list"]));
        assert_eq!(target, Target::Window(42));
    }
}

#[test]
fn a_malformed_window_flag_is_left_for_incurs() {
    // The failure to avoid is `--window` swallowing `tab` and the command running
    // somewhere the user did not ask for.
    let (rest, target) = take_window_flag(argv(&["--window", "tab", "list"]));
    assert_eq!(rest, argv(&["--window", "tab", "list"]));
    assert_eq!(target, Target::Current);

    let (rest, target) = take_window_flag(argv(&["--window"]));
    assert_eq!(rest, argv(&["--window"]));
    assert_eq!(target, Target::Current);
}

#[test]
fn no_window_flag_means_the_focused_one() {
    let (rest, target) = take_window_flag(argv(&["tab", "open", "https://example.com"]));
    assert_eq!(rest, argv(&["tab", "open", "https://example.com"]));
    assert_eq!(target, Target::Current);
}

#[test]
fn metadata_and_installers_run_locally() {
    for a in [
        argv(&["--help"]),
        argv(&["tab", "open", "--help"]),
        argv(&["--version"]),
        argv(&["--schema"]),
        argv(&["completions", "bash"]),
        argv(&["mcp", "add"]),
        argv(&["skills", "list"]),
        argv(&["config", "init"]),
    ] {
        assert!(runs_locally(&a), "{a:?} should run in this process");
    }
}

#[test]
fn everything_about_the_browser_is_forwarded() {
    for a in [
        argv(&["tab", "list"]),
        argv(&["tab", "list", "--json"]),
        argv(&["tab", "list", "--format", "json"]),
        argv(&["page", "eval", "--js", "1"]),
        argv(&["theme", "show"]),
        // The running browser's resolved config is the truthful answer, and it is
        // the one that knows about problems found at startup.
        argv(&["config", "show"]),
    ] {
        assert!(!runs_locally(&a), "{a:?} should reach the window");
    }
}

#[test]
fn only_the_opening_commands_may_start_a_browser() {
    assert!(opens_a_window(&argv(&["tab", "open", "https://example.com"])));
    assert!(opens_a_window(&argv(&["window", "new"])));
    assert!(!opens_a_window(&argv(&["tab", "list"])));
    assert!(!opens_a_window(&argv(&["window", "close"])));
}

#[test]
fn a_socket_path_names_its_window() {
    let dir = "/run/user/1000/oma-browse";
    let path = socket_in(dir, 4321);
    assert_eq!(path, format!("{dir}/window-4321.sock"));
    assert_eq!(pid_of(&path), Some(4321));
    assert_eq!(pid_of(&format!("{dir}/current.sock")), None);
    // `sun_path` is 108 bytes, and a socket that does not fit is a runtime failure
    // with a baffling message.
    assert!(path.len() < 100, "{path} is too long to bind");
}

fn entry(path: &str, alive: bool, modified: Option<i128>) -> Entry {
    Entry { path: path.to_string(), alive, modified }
}

#[test]
fn a_dead_socket_is_swept_and_rebound() {
    let dir = "/tmp/oma-browse-test-rebind";
    let listening = [entry(&socket_in(dir, 999_999), true, Some(1))];
    assert_eq!(live_in(&listening), vec![999_999]);
    assert!(sweep_in(&listening).is_empty());
    let found = socket_for(dir, Target::Current, true, &live_in(&listening)).unwrap();
    assert_eq!(found.path, current_in(dir));

    // Nothing listening: the file may remain, but it must not be mistaken for a
    // window.
    let dead = [entry(&socket_in(dir, 999_999), false, Some(1))];
    assert!(live_in(&dead).is_empty());
    assert!(socket_for(dir, Target::Current, false, &live_in(&dead)).is_none());
    assert_eq!(sweep_in(&dead), vec![socket_in(dir, 999_999)]);
}

#[test]
fn current_follows_the_last_window_to_ask() {
    let dir = "/tmp/oma-browse-test-current";
    assert!(points_here("window-222222.sock", 222_222));
    assert!(!points_here("window-222222.sock", 111_111));
    assert_eq!(window_name(111_111), "window-111111.sock");

    // The focused window closing leaves the link dangling; the next caller must find
    // the other window rather than give up.
    let left = [entry(&socket_in(dir, 222_222), true, Some(5))];
    let found = socket_for(dir, Target::Current, false, &live_in(&left)).unwrap();
    assert_eq!(found.path, socket_in(dir, 222_222));
    assert_eq!(found.mend, Some(222_222));
}

#[test]
fn a_window_that_was_named_is_not_replaced_by_another() {
    let dir = "/d";
    assert_eq!(probe(dir, Target::Window(7)), "/d/window-7.sock");
    assert_eq!(probe(dir, Target::Current), "/d/current.sock");
    assert!(socket_for(dir, Target::Window(7), false, &[8]).is_none());
    assert_eq!(socket_for(dir, Target::Window(7), true, &[8]).unwrap().path, "/d/window-7.sock");
}

#[test]
fn the_window_touched_last_comes_first() {
    let entries = [
        entry("/d/window-1.sock", true, Some(10)),
        entry("/d/window-2.sock", true, Some(30)),
        entry("/d/window-3.sock", false, Some(40)),
        entry("/d/current.sock", true, Some(50)),
        entry("/d/window-4.sock", true, Some(20)),
    ];
    assert_eq!(live_in(&entries), vec![2, 4, 1]);
}

#[test]
fn only_a_windows_own_socket_is_swept() {
    let entries =
        [entry("/d/notes.txt", false, Some(1)), entry("/d/window-9.sock", false, Some(1))];
    assert_eq!(sweep_in(&entries), vec!["/d/window-9.sock".to_string()]);
}

#[test]
fn the_socket_directory_is_the_users_own() {
    assert_eq!(runtime_dir(Some("/run/user/1000"), "/tmp", 1000), "/run/user/1000/oma-browse");
    assert_eq!(runtime_dir(None, "/tmp", 1000), "/tmp/oma-browse-1000");
    let mut control = Control::default();
    assert_eq!(
        dir_for(&control, Some("/run/user/1000"), "/tmp", 1000, Some("/home/me"), None),
        "/run/user/1000/oma-browse"
    );
    control.socket = "~/sockets".to_string();
    assert_eq!(
        dir_for(&control, Some("/run/user/1000"), "/tmp", 1000, Some("/home/me"), None),
        "/home/me/sockets"
    );
    // A profile talks to its own windows.
    assert_eq!(
        dir_for(&control, Some("/run/user/1000"), "/tmp", 1000, Some("/home/me"), Some("work")),
        "/home/me/sockets/profiles/work"
    );
    assert_eq!(
        dir_for(&Control::default(), Some("/run/user/1000"), "/tmp", 1000, None, Some("work")),
        "/run/user/1000/oma-browse/profiles/work"
    );
    assert_eq!(staging_in("/d", 7), "/d/.current.sock.7");
    assert!(check_owner("/d", 1000, 1000).is_ok());
    assert_eq!(
        check_owner("/d", 0, 1000).unwrap_err(),
        "/d belongs to uid 0 rather than 1000"
    );
}

#[test]
fn a_request_carries_what_the_caller_typed() {
    let request = Request::from_process(argv(&["tab", "list"]), Some("/usr/bin/ob"), true, "/here");
    assert_eq!(request.v, 1);
    assert_eq!(request.argv, argv(&["tab", "list"]));
    assert_eq!(request.display_name, "ob");
    assert!(request.human);
    assert_eq!(request.cwd, "/here");
    let bare = Request::from_process(Vec::new(), None, false, "");
    assert_eq!(bare.display_name, "oma-browse");
}

fn reply(v: u32) -> Reply {
    Reply { v, exit_code: None, stdout: "ok".to_string(), stderr: String::new() }
}

#[test]
fn an_answer_is_believed_only_when_it_can_be_read() {
    assert_eq!(accept(true, "200 OK", "{}", Ok(reply(1))).unwrap().stdout, "ok");
    let bad = accept(false, "500 Internal", " why \n", Ok(reply(1))).err().unwrap();
    assert_eq!(bad.message(), "the browser answered with 500 Internal: why");
    let garbled = accept(true, "200 OK", "{", Err("EOF".to_string())).err().unwrap();
    assert!(matches!(garbled, Failure::Protocol(_)));
}

#[test]
fn a_window_that_is_gone_is_not_a_broken_one() {
    assert_eq!(not_reached(true, "refused").message(), "no browser window is running");
    assert_eq!(not_reached(false, "timed out").message(), "could not talk to the browser: timed out");
    assert_eq!(refused("404 Not Found", " no \n").message(), "the browser answered with 404 Not Found: no");
}
