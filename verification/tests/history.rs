use oma_browse::history::{now, path, state_dir, History, CAP};

#[test]
fn revisiting_moves_to_the_front_and_counts() {
    let mut h = History::default();
    h.record("https://a.example", 10);
    h.record("https://b.example", 20);
    h.record("https://a.example", 30);

    assert_eq!(h.entries()[0].url, "https://a.example");
    assert_eq!(h.entries()[0].visits, 2);
    assert_eq!(h.entries()[0].last, 30);
    assert_eq!(h.entries().len(), 2);
}

#[test]
fn our_own_pages_are_not_history() {
    let mut h = History::default();
    h.record("about:blank", 1);
    h.record("oma-chrome://localhost/start", 1);
    h.record("", 1);
    assert!(h.entries().is_empty());

    // And the other half of the bargain: now that the chrome has a scheme of its own,
    // a loopback page is unambiguously the user's own work.
    h.record("http://127.0.0.1:3000/", 2);
    assert_eq!(h.entries().len(), 1);
}

#[test]
fn titles_attach_to_the_page_they_belong_to() {
    let mut h = History::default();
    h.record("https://a.example", 1);
    h.record("https://b.example", 2);
    h.set_title("https://a.example", "Alpha");
    assert_eq!(h.entries().iter().find(|v| v.url == "https://a.example").unwrap().title, "Alpha");
    assert_eq!(h.entries()[0].title, "");
}

#[test]
fn the_cap_holds() {
    let mut h = History::default();
    for i in 0..(CAP + 50) {
        h.record(&format!("https://{i}.example"), i as u64);
    }
    assert_eq!(h.entries().len(), CAP);
    // The newest survived, the oldest did not.
    assert_eq!(h.entries()[0].url, format!("https://{}.example", CAP + 49));
}

#[test]
fn a_history_file_is_read_back() {
    let mut h = History::load_with(10, None);
    h.record("https://a.example", 1);
    h.record("https://b.example", 2);
    h.set_title("https://b.example", "Bee");
    let file = h.flush().unwrap();
    assert!(h.flush().is_none(), "nothing changed since");
    let again = History::load_with(10, Some(file.as_str()));
    assert_eq!(again.entries().len(), 2);
    assert_eq!(again.entries()[0].url, "https://b.example");
    assert_eq!(again.entries()[0].title, "Bee");
    assert_eq!(History::load_with(1, Some(file.as_str())).entries().len(), 1);
}

#[test]
fn a_cleared_history_is_written_out_empty() {
    let mut h = History::default();
    h.record("https://a.example", 1);
    h.clear();
    assert!(h.entries().is_empty());
    assert_eq!(h.flush().as_deref(), Some(""));
}

#[test]
fn the_state_directory_follows_the_environment() {
    assert_eq!(state_dir(Some("/s"), Some("/home/me"), None), "/s/oma-browse");
    assert_eq!(state_dir(None, Some("/home/me"), None), "/home/me/.local/state/oma-browse");
    assert_eq!(state_dir(Some("/s"), None, Some("work")), "/s/oma-browse/profiles/work");
    assert_eq!(path("/s/oma-browse"), "/s/oma-browse/history");
    assert_eq!(now(Some(7)), 7);
    assert_eq!(now(None), 0);
}

#[test]
fn only_the_chromes_own_scheme_is_left_out() {
    let mut h = History::default();
    h.record("oma-chrome://localhost/tls", 1);
    assert!(h.entries().is_empty());
    h.record("oma-chromex://a", 2);
    assert_eq!(h.entries().len(), 1);
}
