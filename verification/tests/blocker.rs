use oma_browse::blocker::{cache_dir, configured, identifier, rejected, Blocker, Stamp};
use oma_browse::config::Content;

fn nowhere(_: &str) -> bool {
    false
}

#[test]
fn an_identifier_is_safe_to_put_in_a_filename() {
    let id = identifier("/tmp/easylist v3.json", None);
    assert!(!id.contains(' '), "{id}");
    assert!(!id.contains('/'), "{id}");
    assert!(id.starts_with("easylist-v3-"), "{id}");
}

#[test]
fn a_missing_file_still_gets_an_identifier() {
    // It has to: the identifier is what the "is it already compiled" check is keyed
    // on, and answering that question must not panic on a file somebody deleted
    // between two launches.
    let id = identifier("/nowhere/at/all.json", None);
    assert!(id.starts_with("all-"), "{id}");
    assert!(id.ends_with("missing"), "{id}");
}

#[test]
fn the_identifier_changes_when_the_file_does() {
    let path = "/tmp/oma-browse-blocker-test/rules.json";
    let before = identifier(path, Some(Stamp { length: 2, modified: Some(7) }));
    let after = identifier(path, Some(Stamp { length: 4, modified: Some(7) }));
    assert_ne!(before, after, "a changed file must recompile rather than reuse the cache");
    let touched = identifier(path, Some(Stamp { length: 2, modified: Some(8) }));
    assert_ne!(before, touched);
}

#[test]
fn an_identifier_is_the_stem_and_the_stamp_in_hexadecimal() {
    let stamp = Stamp { length: 255, modified: Some(4096) };
    assert_eq!(identifier("/a/Easy_List.v2.json", Some(stamp)), "Easy_List-v2-ff-1000");
    assert_eq!(identifier("/", None), "rules-missing");
    let unknown = Stamp { length: 16, modified: None };
    assert_eq!(identifier("/a/b", Some(unknown)), "b-10-0");
}

#[test]
fn a_url_is_refused_with_the_command_that_fixes_it() {
    let content =
        Content { block: true, rules: vec!["https://example.com/easylist.json".to_string()] };
    let (paths, problems) = configured(&content, Some("/home/me"), nowhere);
    assert!(paths.is_empty());
    assert_eq!(problems.len(), 1);
    assert!(problems[0].contains("curl -Lo"), "{}", problems[0]);
}

#[test]
fn a_rule_file_that_is_not_there_is_reported_rather_than_ignored() {
    let content = Content { block: true, rules: vec!["/nowhere/rules.json".to_string()] };
    let (paths, problems) = configured(&content, Some("/home/me"), nowhere);
    assert!(paths.is_empty());
    assert_eq!(problems.len(), 1);
    assert!(problems[0].contains("no such file"), "{}", problems[0]);
}

#[test]
fn a_rule_file_that_is_there_is_used() {
    let path = "/tmp/oma-browse-blocker-used/rules.json";
    let content = Content {
        block: true,
        rules: vec![path.to_string(), String::new(), "  ".to_string()],
    };
    let (paths, problems) = configured(&content, Some("/home/me"), |p: &str| p == path);
    assert_eq!(paths.len(), 1, "an empty entry is not a rule list");
    assert_eq!(paths[0], path);
    assert!(problems.is_empty(), "{problems:?}");
}

#[test]
fn a_tilde_in_a_rule_list_is_the_home_directory() {
    let content = Content { block: true, rules: vec![" ~/rules.json ".to_string()] };
    let (paths, problems) =
        configured(&content, Some("/home/me"), |p: &str| p == "/home/me/rules.json");
    assert_eq!(paths, vec!["/home/me/rules.json".to_string()]);
    assert!(problems.is_empty());
}

#[test]
fn a_list_adopted_twice_is_there_once() {
    let mut blocker = Blocker::new();
    blocker.adopt("easylist-1");
    blocker.adopt("other-1");
    blocker.adopt("easylist-1");
    assert_eq!(blocker.loaded_lists(), vec!["other-1".to_string(), "easylist-1".to_string()]);
    let named = vec!["easylist-1".to_string(), "new-1".to_string()];
    assert_eq!(blocker.reload(true, &named), vec![1]);
    assert!(blocker.reload(false, &named).is_empty());
}

#[test]
fn excusing_one_tab_leaves_the_others_blocked() {
    let mut blocker = Blocker::new();
    blocker.excuse("tab-1", true);
    assert!(blocker.is_excused("tab-1"));
    assert!(!blocker.is_excused("tab-2"));
    assert_eq!(blocker.report(Vec::new(), Some("tab-1")).here, Some(false));
    assert_eq!(blocker.report(Vec::new(), Some("tab-2")).here, Some(true));
    assert_eq!(blocker.report(Vec::new(), None).here, None);
    blocker.excuse("tab-1", false);
    assert!(!blocker.is_excused("tab-1"));
    assert_eq!(rejected("easylist", "line 3"), "easylist: line 3");
}

#[test]
fn compiled_lists_are_kept_with_the_profile() {
    assert_eq!(cache_dir(Some("/c"), Some("/home/me"), None), "/c/oma-browse/filters");
    assert_eq!(cache_dir(None, Some("/home/me"), None), "/home/me/.cache/oma-browse/filters");
    assert_eq!(
        cache_dir(Some("/c"), Some("/home/me"), Some("work")),
        "/c/oma-browse/profiles/work/filters"
    );
}
