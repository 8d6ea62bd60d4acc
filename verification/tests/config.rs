use oma_browse::config::{
    home_url, ignored_problem, known_shape, merge_at, path,
    salvage as salvage_file, salvage_tree, salvaged_problem, search_url, summarize, take_path,
    template_refused, Tree,
};

fn known() -> Tree {
    let raw = "home = \"\"\nsearch = \"\"\n[theme]\nrecolor = true\nveil = \"auto\"\n\
               [chrome.strip]\nheight = 26\nenabled = true\n[keys]\n";
    known_shape(raw)
}

/// A file's worth of text, read as far as it can be, and what was said of it.
fn salvage(raw: &str) -> (Tree, String) {
    let (kept, notes) = salvage_file(raw, &known()).expect("valid TOML syntax");
    (kept, notes.join("; "))
}

fn leaf(tree: &Tree, path: &[&str]) -> Option<String> {
    match (tree, path) {
        (Tree::Leaf(s), []) => Some(s.trim_matches('"').to_string()),
        (Tree::Table(entries), [first, rest @ ..]) => {
            entries.iter().find(|(k, _)| k == first).and_then(|(_, child)| leaf(child, rest))
        }
        _ => None,
    }
}

#[test]
fn a_reported_problem_names_the_key_and_the_line() {
    let err = "TOML parse error at line 2, column 1\n  |\n2 | recolour = false\n  | ^^^^^^^^\n\
               unknown field `recolour`, expected `recolor`\n";
    let summary = summarize(err);
    assert!(summary.contains("line 2"), "keeps the location: {summary}");
    assert!(summary.contains("recolour"), "keeps the complaint: {summary}");
    assert_eq!(summary.lines().count(), 1, "one line, for one log line");
}

/// A section this browser renamed keeps working, and says it has moved.
#[test]
fn a_renamed_section_is_still_read() {
    let (config, problem) = salvage("home = \"https://example.com\"\n[page]\nrecolor = false\n");
    assert_eq!(
        leaf(&config, &["theme", "recolor"]).as_deref(),
        Some("false"),
        "the old spelling still sets the setting"
    );
    assert_eq!(
        leaf(&config, &["home"]).as_deref(),
        Some("https://example.com"),
        "and the rest of the file survives"
    );
    assert!(problem.contains("`page` is now `theme`"), "names the move: {problem}");
}

#[test]
fn a_renamed_section_that_moved_house_lands_in_the_right_table() {
    let (config, _) = salvage("[strip]\nheight = 44\nenabled = false\n");
    assert_eq!(leaf(&config, &["chrome", "strip", "height"]).as_deref(), Some("44"));
    assert_eq!(leaf(&config, &["chrome", "strip", "enabled"]).as_deref(), Some("false"));
}

#[test]
fn the_new_spelling_wins_when_a_file_has_both() {
    let (config, problem) = salvage("[page]\nrecolor = false\n[theme]\nrecolor = true\n");
    assert_eq!(
        leaf(&config, &["theme", "recolor"]).as_deref(),
        Some("true"),
        "the current spelling is the deliberate one"
    );
    assert!(problem.contains("won"), "{problem}");
}

/// One unknown key costs one unknown key.
#[test]
fn an_unknown_key_does_not_take_the_file_with_it() {
    let (config, problem) =
        salvage("home = \"https://example.com\"\nnonsense = 1\n[theme]\nrecolor = false\n");
    assert_eq!(leaf(&config, &["home"]).as_deref(), Some("https://example.com"));
    assert_eq!(
        leaf(&config, &["theme", "recolor"]).as_deref(),
        Some("false"),
        "settings after the bad key still apply"
    );
    assert_eq!(leaf(&config, &["nonsense"]), None);
    assert!(problem.contains("`nonsense` is not a setting"), "{problem}");
}

#[test]
fn an_unknown_key_is_reported_with_its_full_path() {
    let (config, problem) = salvage("[chrome.strip]\nheight = 30\nwidth = 9\n");
    assert_eq!(leaf(&config, &["chrome", "strip", "height"]).as_deref(), Some("30"));
    assert!(problem.contains("`chrome.strip.width`"), "{problem}");
}

/// `[keys]` is the user's own vocabulary, so nothing in it is "unknown".
#[test]
fn keys_are_never_pruned_for_being_unrecognised() {
    let (config, _) = salvage("nonsense = 1\n[keys]\n\"ctrl+j\" = \"tab_cycle\"\n");
    assert_eq!(leaf(&config, &["keys", "ctrl+j"]).as_deref(), Some("tab_cycle"));
}

#[test]
fn a_file_that_fits_is_left_as_it_is() {
    let (config, problem) = salvage("home = \"x\"\n[theme]\nveil = \"0.4\"\n");
    assert_eq!(leaf(&config, &["theme", "veil"]).as_deref(), Some("0.4"));
    assert_eq!(problem, "");
}

#[test]
fn a_setting_is_taken_out_and_put_elsewhere() {
    let whole = known_shape("[a]\nb = 1\n");
    let (left, got) = take_path(whole, "a.b");
    assert!(matches!(got, Some(Tree::Leaf(s)) if s == "1"));
    assert_eq!(leaf(&left, &["a", "b"]), None);
    let (left, clean) = merge_at(left, "c.d", Tree::Leaf("2".to_string()));
    assert!(clean);
    let (left, clean) = merge_at(left, "c.d", Tree::Leaf("3".to_string()));
    assert!(!clean, "what is there stays");
    assert_eq!(leaf(&left, &["c", "d"]).as_deref(), Some("2"));
    let (_, none) = take_path(left, "x.y");
    assert!(none.is_none());
}

#[test]
fn the_config_file_is_where_you_say_or_where_you_live() {
    assert_eq!(path(Some("/x.toml"), Some("/c"), Some("/home/me"), None), "/x.toml");
    assert_eq!(
        path(None, Some("/c"), Some("/home/me"), None),
        "/c/oma-browse/config.toml"
    );
    assert_eq!(
        path(None, None, Some("/home/me"), None),
        "/home/me/.config/oma-browse/config.toml"
    );
}

#[test]
fn a_problem_says_which_file_it_is_in() {
    assert_eq!(home_url("", "r", "f"), "f");
    assert_eq!(home_url("x", "r", "f"), "r");
    assert_eq!(
        template_refused("/c.toml", true, false).as_deref(),
        Some("/c.toml already exists; pass --force to overwrite it")
    );
    assert_eq!(template_refused("/c.toml", true, true), None);
    let notes = vec!["a".to_string(), "b".to_string()];
    assert_eq!(salvaged_problem("/c.toml", &notes), "/c.toml: a; b");
    let ignored = ignored_problem("/c.toml", "bad\n");
    assert!(ignored.starts_with("/c.toml: bad -- every setting"), "{ignored}");
}

#[test]
fn a_file_is_read_into_its_tree() {
    let (tree, notes) = salvage_file("b = 1\n[a]\nx = \"y\"\n[a.deep]\nz = [1, 2]\n", &Tree::Leaf(String::new()))
        .expect("it is TOML");
    assert!(notes.is_empty());
    assert_eq!(leaf(&tree, &["b"]).as_deref(), Some("1"));
    assert_eq!(leaf(&tree, &["a", "x"]).as_deref(), Some("y"));
    assert_eq!(leaf(&tree, &["a", "deep", "z"]).as_deref(), Some("[1, 2]"));
    assert!(salvage_file("home = ", &known()).is_none(), "not TOML");
    assert!(matches!(known_shape("home = "), Tree::Table(entries) if entries.is_empty()));
}

#[test]
fn a_moved_setting_is_noted_before_an_unknown_one() {
    let read = known_shape("nonsense = 1\n[page]\nrecolor = false\n");
    let (_, notes) = salvage_tree(read, &known());
    assert_eq!(
        notes,
        vec!["`page` is now `theme`, and was read as such", "`nonsense` is not a setting, and was ignored"]
    );
}

#[test]
fn a_query_goes_where_the_engine_says_or_at_the_end() {
    assert_eq!(search_url("https://s.test/?q={query}&x=1", "a+b"), "https://s.test/?q=a+b&x=1");
    assert_eq!(search_url("https://s.test/?q=", "a+b"), "https://s.test/?q=a+b");
}
