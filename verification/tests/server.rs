use oma_browse::control::{Failure, Request};
use oma_browse::server::{check_request, elsewhere, not_there, run_argv, window_query, windows, Finished};

fn request(v: u32) -> Request {
    Request {
        v,
        argv: vec!["tab".to_string()],
        display_name: "oma-browse".to_string(),
        human: false,
        cwd: "/".to_string(),
    }
}

#[test]
fn a_query_names_its_window() {
    assert_eq!(window_query("a=1&window=42"), Some(42));
    assert_eq!(window_query("window=no"), None);
    assert_eq!(window_query(""), None);
    assert_eq!(elsewhere(Some("window=42"), 7), Some(42));
    assert_eq!(elsewhere(Some("window=7"), 7), None);
    assert_eq!(elsewhere(None, 7), None);
}

#[test]
fn a_window_that_is_not_there_is_not_found() {
    let gone = not_there(42, &Failure::NoWindow);
    assert_eq!(gone.status, 404);
    assert!(gone.body.contains("42"), "{}", gone.body);
    assert_eq!(not_there(42, &Failure::Transport("no".to_string())).status, 502);
}

#[test]
fn every_window_is_listed_and_one_of_them_answers() {
    let listed = windows("/d", &[3, 7], 7);
    assert_eq!(listed.len(), 2);
    assert_eq!(listed[0].socket, "/d/window-3.sock");
    assert!(!listed[0].answering);
    assert!(listed[1].answering);
}

#[test]
fn a_request_from_another_build_is_refused() {
    assert!(check_request(Ok(request(1))).is_ok());
    assert_eq!(check_request(Ok(request(2))).err().unwrap().status, 400);
    assert_eq!(check_request(Err("EOF".to_string())).err().unwrap().status, 400);
}

#[test]
fn a_command_that_fails_is_still_an_answer() {
    let ran = run_argv(Finished::Ran(None, "ok".to_string()));
    assert_eq!((ran.exit_code, ran.stdout.as_str()), (None, "ok"));
    let failed = run_argv(Finished::Failed("no".to_string()));
    assert_eq!((failed.exit_code, failed.stderr.as_str()), (Some(1), "no\n"));
    assert!(run_argv(Finished::Panicked).exit_code.is_some());
}
