use oma_browse::commands::permission::{
    choose_origin, decide_pending, forget, known_origins, list, resolve_origin, set_one, settled,
};
use oma_browse::permissions::{Kind, Permissions};
use oma_browse::policy::Requests;

#[test]
fn a_full_url_is_reduced_to_its_origin() {
    let known: Vec<String> = vec![];
    assert_eq!(
        resolve_origin(&known, "https://example.com/some/page?q=1").unwrap(),
        "https://example.com"
    );
}

#[test]
fn a_bare_host_picks_the_one_you_have_decided_about() {
    // The bug this exists for: `permission forget localhost:3000` guessing https and
    // silently forgetting nothing.
    let known = vec!["http://localhost:3000".to_string()];
    assert_eq!(resolve_origin(&known, "localhost:3000").unwrap(), "http://localhost:3000");
}

#[test]
fn a_bare_host_you_have_never_decided_about_defaults_to_https() {
    let known: Vec<String> = vec![];
    assert_eq!(resolve_origin(&known, "example.com").unwrap(), "https://example.com");
}

#[test]
fn a_bare_host_that_could_be_two_sites_is_refused_rather_than_guessed() {
    let known = vec!["http://localhost:3000".to_string(), "https://localhost:3000".to_string()];
    let e = resolve_origin(&known, "localhost:3000").unwrap_err();
    assert!(e.contains("ambiguous"), "{e}");
    assert!(e.contains("http://localhost:3000"), "{e}");
    assert!(e.contains("https://localhost:3000"), "{e}");
}

#[test]
fn a_site_with_two_grants_is_still_one_site() {
    let known = vec!["http://localhost:3000".to_string(), "http://localhost:3000".to_string()];
    assert_eq!(resolve_origin(&known, "localhost:3000").unwrap(), "http://localhost:3000");
}

#[test]
fn nothing_is_not_a_site() {
    let known: Vec<String> = vec![];
    assert!(resolve_origin(&known, "").is_err());
    assert!(resolve_origin(&known, "   ").is_err());
}

#[test]
fn what_an_address_reads_as_decides_the_site() {
    let known: Vec<String> = vec![];
    let whole = choose_origin(&known, "https://a.test/x", Some("https://a.test".to_string()), None);
    assert_eq!(whole.unwrap(), "https://a.test");
    let secured = choose_origin(&known, "a.test", None, Some("https://a.test".to_string()));
    assert_eq!(secured.unwrap(), "https://a.test");
    assert!(choose_origin(&known, "a b", None, None).is_err());
}

#[test]
fn a_ruling_typed_in_is_kept_and_listed_and_forgotten() {
    let mut store = Permissions::default();
    let decided = set_one(&mut store, Some("example.com"), Some("camera"), true, 5).unwrap();
    assert_eq!(decided.origin, "https://example.com");
    assert_eq!(decided.kinds, vec!["camera".to_string()]);
    assert!(decided.allowed);
    assert_eq!(known_origins(&store), vec!["https://example.com".to_string()]);
    let rows = list(&store);
    assert_eq!(rows.len(), 1);
    assert_eq!(rows[0].kind, "camera");
    let gone = forget(&mut store, Some("example.com"), None).unwrap();
    assert_eq!(gone.forgotten, 1);
    assert!(list(&store).is_empty());
}

#[test]
fn a_kind_nobody_knows_is_refused() {
    let mut store = Permissions::default();
    let e = set_one(&mut store, Some("example.com"), Some("teleport"), true, 5).err().unwrap();
    assert_eq!(e.code, "usage");
    assert!(e.message.contains("camera"), "{}", e.message);
    assert!(list(&store).is_empty());
}

#[test]
fn an_answer_given_to_a_page_is_remembered_unless_it_was_for_once() {
    let mut store = Permissions::default();
    let mut requests = Requests::new();
    requests.ask("https://a.test".to_string(), vec![Kind::Camera]);
    let answered = decide_pending(&mut store, &mut requests, Some("allow"), false, 9).unwrap();
    assert!(answered.decided.allowed);
    assert_eq!(list(&store).len(), 1);

    requests.ask("https://b.test".to_string(), vec![Kind::Camera]);
    let e = settled(answered, Err("gone".to_string())).unwrap_err();
    assert_eq!((e.code, e.message.as_str()), ("webview", "gone"));
    let once = decide_pending(&mut store, &mut requests, Some("deny"), true, 9).unwrap();
    assert!(!once.decided.allowed);
    assert_eq!(settled(once, Ok(())).unwrap().origin, "https://b.test");
    assert_eq!(list(&store).len(), 1);
    assert!(decide_pending(&mut store, &mut requests, Some("allow"), false, 9).is_err());
}
