use oma_browse::bookmarks::{path, Bookmarks};

#[test]
fn adding_twice_updates_rather_than_duplicates() {
    let mut b = Bookmarks::default();
    assert!(b.add("https://a.example", "First", 1));
    assert!(!b.add("https://a.example", "Renamed", 2));
    assert_eq!(b.entries().len(), 1);
    assert_eq!(b.entries()[0].title, "Renamed");
    // The original add time survives a re-add; it is when *you* kept it.
    assert_eq!(b.entries()[0].added, 1);
}

#[test]
fn removing_reports_whether_it_was_there() {
    let mut b = Bookmarks::default();
    b.add("https://a.example", "A", 1);
    assert!(b.remove("https://a.example"));
    assert!(!b.remove("https://a.example"));
    assert!(b.entries().is_empty());
}

#[test]
fn an_empty_url_is_not_a_bookmark() {
    let mut b = Bookmarks::default();
    assert!(!b.add("", "nothing", 1));
    assert!(b.entries().is_empty());
}

#[test]
fn a_bookmark_file_is_read_back() {
    let mut b = Bookmarks::default();
    b.add("https://a.example", "A", 1);
    b.add("https://b.example", "Bee", 2);
    let file = b.render();
    let again = Bookmarks::load(Some(file.as_str()));
    assert_eq!(again.entries().len(), 2);
    assert_eq!(again.entries()[0].url, b.entries()[0].url);
    assert_eq!(again.entries()[1].title, b.entries()[1].title);
    assert_eq!(again.entries()[1].added, b.entries()[1].added);
    assert!(Bookmarks::load(None).entries().is_empty());
    assert_eq!(path("/state"), "/state/bookmarks");
}
