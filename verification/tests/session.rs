use oma_browse::session::{
    claim, holder, lock_path, path, read, record, restore, worth_keeping, Previous, CAP,
};

fn urls(v: &[&str]) -> Vec<String> {
    v.iter().map(|s| s.to_string()).collect()
}

#[test]
fn our_own_pages_are_not_a_session() {
    let base: url::Url = "http://127.0.0.1:41234/".parse().unwrap();
    let base = Some(base.as_str());
    assert!(!worth_keeping("http://127.0.0.1:41234/start", base));
    assert!(!worth_keeping("about:blank", base));
    assert!(!worth_keeping("", base));
    assert!(worth_keeping("https://omarchy.org", base));
}

#[test]
fn a_users_own_loopback_page_survives_a_known_base() {
    // Only *our* control plane is excluded, not loopback in general: a developer's
    // `localhost:3000` is exactly the tab worth restoring.
    let base: url::Url = "http://127.0.0.1:41234/".parse().unwrap();
    let base = Some(base.as_str());
    assert!(worth_keeping("http://localhost:3000/app", base));
    assert!(worth_keeping("http://127.0.0.1:8080/", base));
}

#[test]
fn without_a_base_loopback_is_assumed_to_be_ours() {
    assert!(!worth_keeping("http://127.0.0.1:41234/start", None));
    assert!(worth_keeping("https://omarchy.org", None));
}

#[test]
fn a_session_file_is_read_back() {
    let open = urls(&["https://a.test", "about:blank", "https://b.test"]);
    let body = record(false, &open, None).unwrap();
    assert_eq!(read(Some(body.as_str())), urls(&["https://a.test", "https://b.test"]));
    assert!(record(true, &open, None).is_none(), "a private window leaves no trace");
    assert_eq!(record(false, &[], None).as_deref(), Some(""));
    assert!(read(None).is_empty());
}

#[test]
fn a_session_is_bounded() {
    let many: Vec<String> = (0..CAP + 20).map(|i| format!("https://{i}.test")).collect();
    let body = record(false, &many, None).unwrap();
    assert_eq!(read(Some(body.as_str())).len(), CAP);
}

#[test]
fn restoring_opens_only_what_is_not_open() {
    let saved = urls(&["https://a.test", "https://b.test"]);
    assert_eq!(restore(&saved, &urls(&["https://b.test"])), urls(&["https://a.test"]));
    assert!(restore(&saved, &saved).is_empty(), "twice opens nothing");
}

#[test]
fn only_one_window_keeps_the_session() {
    assert_eq!(holder(Some("42\n"), 7), Some(42));
    assert_eq!(holder(Some("7"), 7), None);
    assert_eq!(claim(Some("42"), 7, true), None);
    assert_eq!(claim(Some("42"), 7, false).as_deref(), Some("7"));
    assert_eq!(claim(None, 7, false).as_deref(), Some("7"));
    assert_eq!(path("/s"), "/s/session");
    assert_eq!(lock_path("/s"), "/s/session.lock");
}

#[test]
fn what_was_open_before_is_read_once() {
    let mut previous = Previous::new();
    assert_eq!(previous.saved(urls(&["late"])), urls(&["late"]));
    previous.init(urls(&["https://a.test"]));
    previous.init(urls(&["https://b.test"]));
    assert_eq!(previous.saved(urls(&["late"])), urls(&["https://a.test"]));
}
