use oma_browse::profile::{data_dir, put_dashes, sanitize, take_flag, within, Profile};

fn argv(words: &[&str]) -> Vec<String> {
    words.iter().map(|w| (*w).to_string()).collect()
}

#[test]
fn the_flag_is_taken_out_in_both_spellings() {
    let (kept, found) = take_flag(argv(&["--profile", "work", "tab", "list"]));
    assert_eq!(found.as_deref(), Some("work"));
    assert_eq!(kept, argv(&["tab", "list"]));

    let (kept, found) = take_flag(argv(&["tab", "list", "--profile=work"]));
    assert_eq!(found.as_deref(), Some("work"));
    assert_eq!(kept, argv(&["tab", "list"]));
}

#[test]
fn an_argv_without_the_flag_is_untouched() {
    let (kept, found) = take_flag(argv(&["page", "console", "--level", "warn"]));
    assert!(found.is_none());
    assert_eq!(kept, argv(&["page", "console", "--level", "warn"]));
}

#[test]
fn a_trailing_flag_is_left_for_incurs_to_complain_about() {
    let (kept, found) = take_flag(argv(&["tab", "list", "--profile"]));
    assert!(found.is_none());
    assert_eq!(kept, argv(&["tab", "list", "--profile"]));
}

#[test]
fn a_profile_name_cannot_leave_its_directory() {
    assert_eq!(sanitize("work"), "work");
    assert_eq!(sanitize("../../etc"), "etc");
    assert_eq!(sanitize("a/b"), "a-b");
    assert_eq!(sanitize("  spaced name "), "spaced-name");
    assert_eq!(sanitize("..."), "profile");
    assert_eq!(sanitize(""), "profile");
}

#[test]
fn a_profile_is_fixed_once() {
    let mut profile = Profile::default();
    assert_eq!(profile.name(), None);
    profile.set(Some("work".to_string()));
    profile.set(Some("home".to_string()));
    assert_eq!(profile.name(), Some("work"));
    let mut blank = Profile::default();
    blank.set(Some("  ".to_string()));
    assert_eq!(blank.name(), None);
}

#[test]
fn a_profile_has_directories_of_its_own() {
    assert_eq!(within("/c/oma-browse", None), "/c/oma-browse");
    assert_eq!(within("/c/oma-browse", Some("work")), "/c/oma-browse/profiles/work");
    assert_eq!(data_dir(Some("work"), "/s").as_deref(), Some("/s/profiles/work/webkit"));
    assert_eq!(data_dir(Some("home"), "/s").as_deref(), Some("/s/profiles/home/webkit"));
    assert_eq!(data_dir(None, "/s"), None);
    assert_eq!(put_dashes("a b"), "a-b");
}
