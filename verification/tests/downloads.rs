use oma_browse::downloads::{
    download_dir, name_from_parts, name_from_url, path, path_from_destination, sanitise, unique,
    user_dirs_file, Downloads, Placing, Transfer,
};

#[test]
fn a_started_download_is_running_until_it_finishes() {
    let mut d = Downloads::default();
    d.start("https://a.example/x.zip", "/tmp/x.zip", 10);
    assert_eq!(d.entries()[0].state(), "running");
    let done = d.finish("/tmp/x.zip", None, true);
    assert_eq!(done.map(|d| d.state()), Some("done"));
    assert_eq!(d.entries()[0].state(), "done");
}

#[test]
fn a_url_learned_late_is_filled_in() {
    // The engine does not always have the request to hand when the transfer starts, so
    // the URL can arrive with the completion.
    let mut d = Downloads::default();
    d.start("", "/tmp/x.zip", 10);
    d.finish("/tmp/x.zip", Some("https://a.example/x.zip"), true);
    assert_eq!(d.entries()[0].url, "https://a.example/x.zip");
}

#[test]
fn two_transfers_to_different_paths_do_not_close_each_other_out() {
    let mut d = Downloads::default();
    d.start("https://a.example/x.zip", "/tmp/x.zip", 10);
    d.start("https://a.example/x.zip", "/tmp/x (1).zip", 11);
    d.finish("/tmp/x (1).zip", None, true);
    assert_eq!(d.nth(1).unwrap().state(), "done");
    assert_eq!(d.nth(2).unwrap().state(), "running");
}

#[test]
fn a_rename_keeps_the_entry_findable() {
    let mut d = Downloads::default();
    d.start("https://a.example/get?id=7", "/tmp/get", 10);
    d.rename("/tmp/get", "/tmp/invoice.pdf");
    assert_eq!(d.entries()[0].name(), "invoice.pdf");
    assert!(d.finish("/tmp/invoice.pdf", None, true).is_some());
}

#[test]
fn finishing_something_never_started_is_not_a_panic() {
    let mut d = Downloads::default();
    assert!(d.finish("/tmp/x.zip", None, true).is_none());
}

#[test]
fn the_newest_is_first_and_one_indexed() {
    let mut d = Downloads::default();
    d.start("https://a.example/1", "/tmp/1", 1);
    d.start("https://a.example/2", "/tmp/2", 2);
    assert_eq!(d.nth(1).map(|d| d.url.as_str()), Some("https://a.example/2"));
    assert_eq!(d.nth(2).map(|d| d.url.as_str()), Some("https://a.example/1"));
    assert!(d.nth(0).is_none(), "the list is 1-based, so 0 names nothing");
    assert!(d.nth(3).is_none());
}

#[test]
fn a_server_cannot_name_a_file_outside_the_download_directory() {
    assert_eq!(sanitise("../../.bashrc"), "bashrc");
    assert_eq!(sanitise("/etc/passwd"), "passwd");
    assert_eq!(sanitise("  "), "download");
    assert_eq!(sanitise(""), "download");
    assert_eq!(sanitise("report.pdf"), "report.pdf");
    assert_eq!(sanitise("\u{1}..\u{1}"), "download");
}

#[test]
fn a_second_copy_is_numbered_before_the_extension() {
    let dir = "/tmp/oma-dl";
    let nothing: Vec<String> = Vec::new();
    let first = unique(dir, "report.pdf", &nothing);
    assert_eq!(first, "/tmp/oma-dl/report.pdf");
    let there = vec!["report.pdf".to_string()];
    let second = unique(dir, "report.pdf", &there);
    assert_eq!(second, "/tmp/oma-dl/report (1).pdf");
    let noext = unique(dir, "LICENSE", &there);
    assert_eq!(noext, "/tmp/oma-dl/LICENSE");
    let twice = vec!["LICENSE".to_string(), "LICENSE (1)".to_string(), ".env".to_string()];
    assert_eq!(unique(dir, "LICENSE", &twice), "/tmp/oma-dl/LICENSE (2)");
}

#[test]
fn a_crowded_directory_is_still_not_overwritten() {
    let mut there = vec!["x.y".to_string()];
    for n in 1..1200 {
        there.push(format!("x ({n}).y"));
    }
    assert_eq!(unique("/dl", "x.y", &there), "/dl/x (1200).y");
}

#[test]
fn a_url_with_no_filename_still_names_something() {
    assert_eq!(name_from_url("https://a.example/files/report.pdf?v=2"), "report.pdf");
    assert_eq!(name_from_url("https://a.example/"), "a.example");
    assert_eq!(name_from_parts(Some(Some("r.pdf".to_string())), None), "r.pdf");
    assert_eq!(name_from_parts(Some(None), Some(Some("a.test".to_string()))), "a.test");
}

#[test]
fn a_destination_survives_the_trip_through_a_uri() {
    let path = "/tmp/oma download #2.bin";
    let uri = url::Url::from_file_path(path).unwrap();
    assert!(uri.as_str().starts_with("file:///"), "not a file URI: {uri}");
    assert!(!uri.as_str().contains(' '), "a raw space in a URI: {uri}");
    let decoded = uri.to_file_path().ok().map(|p| p.display().to_string());
    assert_eq!(path_from_destination(uri.as_str(), decoded), path);
}

#[test]
fn a_destination_that_is_already_a_path_is_left_alone() {
    // Kept working on purpose: an engine that hands back a path rather than a URI must
    // not have it read as a relative filename.
    assert_eq!(path_from_destination("/tmp/plain.bin", None), "/tmp/plain.bin");
}

fn transfer(wanted: &str, landed: Option<&str>) -> Transfer {
    let mut list = Downloads::default();
    let (mut transfer, _) = Transfer::begin(&mut list, "https://a.test/", "file.bin", wanted, 1);
    if let Some(at) = landed {
        transfer.created(at);
    }
    transfer
}

#[test]
fn a_download_is_moved_to_where_it_was_asked_to_go() {
    let landed = "/tmp/oma-place/webkit/file.bin";
    let wanted = "/tmp/oma-place/ours/file.bin";
    let t = transfer(wanted, Some(landed));
    assert!(matches!(t.placing(), Placing::Move { from, to } if from == landed && to == wanted));
    assert_eq!(t.place(true), wanted);

    // Already in the right place: nothing happens, and nothing is lost.
    let t = transfer(wanted, Some(wanted));
    assert!(matches!(t.placing(), Placing::There));
    assert_eq!(t.place(true), wanted);

    // Nowhere to move it from is not a failure; the transfer still happened.
    let t = transfer(wanted, None);
    assert!(matches!(t.placing(), Placing::There));
    assert_eq!(t.place(true), wanted);

    // And a move that cannot happen answers with where the file really is, because a
    // list entry pointing at nothing is worse than a surprising path.
    let missing = "/tmp/oma-place/webkit/never-existed.bin";
    assert_eq!(transfer("/tmp/oma-place/ours/elsewhere.bin", Some(missing)).place(false), missing);
}

#[test]
fn a_transfer_is_followed_from_start_to_end() {
    let mut list = Downloads::default();
    let (mut t, note) =
        Transfer::begin(&mut list, "https://a.test/get?id=7", "get", "/dl/get", 5);
    assert_eq!(note, "Downloading get");
    assert_eq!(t.answered(Some("invoice.pdf")).as_deref(), Some("invoice.pdf"));
    assert!(t.answered(Some("again.pdf")).is_none(), "only the first answer names the file");
    t.redirect(&mut list, "/dl/invoice.pdf");
    t.received(10);
    t.received(32);
    t.advanced(&mut list, 50);
    assert_eq!(list.entries()[0].percent(), Some(50));
    assert_eq!(list.entries()[0].bytes, 42);
    assert_eq!(t.finished(&mut list, None, true).as_deref(), Some("Saved invoice.pdf"));
    assert_eq!(list.entries()[0].state(), "done");
    assert_eq!(list.entries()[0].percent(), None);
    assert!(t.failed(&mut list, None).is_none(), "an end is an end");
    assert_eq!(list.entries()[0].state(), "done");
}

#[test]
fn a_transfer_that_fails_says_which() {
    let mut list = Downloads::default();
    let (t, _) = Transfer::begin(&mut list, "https://a.test/x", "x", "/dl/x", 5);
    assert_eq!(t.failed(&mut list, None).as_deref(), Some("Download failed: x"));
    assert_eq!(list.entries()[0].state(), "failed");
}

#[test]
fn a_download_list_is_read_back() {
    let mut d = Downloads::default();
    d.start("https://a.test/1", "/dl/one", 1);
    d.start("https://a.test/2", "/dl/two", 2);
    d.finish("/dl/two", None, true);
    let file = d.render();
    let again = Downloads::load(Some(file.as_str()));
    assert_eq!(again.entries().len(), 2);
    assert_eq!(again.nth(1).unwrap().path, "/dl/two");
    assert_eq!(again.nth(1).unwrap().state(), "done");
    // What was still running when the browser closed did not finish.
    assert_eq!(again.nth(2).unwrap().state(), "failed");
    assert_eq!(path("/state"), "/state/downloads");
}

#[test]
fn downloads_go_where_the_desktop_says() {
    assert_eq!(user_dirs_file(None, "/home/me"), "/home/me/.config/user-dirs.dirs");
    assert_eq!(user_dirs_file(Some("/etc/me"), "/home/me"), "/etc/me/user-dirs.dirs");
    let dirs = "# comment\nXDG_DOWNLOAD_DIR=\"$HOME/Stuff\"\n";
    assert_eq!(download_dir("/home/me", None, Some(dirs)), "/home/me/Stuff");
    assert_eq!(download_dir("/home/me", None, None), "/home/me/Downloads");
    assert_eq!(download_dir("/home/me", Some("/elsewhere"), Some(dirs)), "/elsewhere");
    let mut list = Downloads::default();
    list.start("u", "/p", 1);
    list.clear();
    assert!(list.entries().is_empty());
}
