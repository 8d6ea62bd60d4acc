use oma_browse::fuzzy::score;

fn best<'a>(needle: &str, options: &[&'a str]) -> &'a str {
    options
        .iter()
        .filter_map(|o| score(o, needle).map(|s| (s, *o)))
        .max_by_key(|(s, _)| *s)
        .map(|(_, o)| o)
        .unwrap_or("")
}

#[test]
fn a_word_start_beats_a_letter_in_the_middle() {
    assert!(score("go back in history", "go") < score("nav go", "go"));
}

#[test]
fn initials_find_a_host() {
    assert_eq!(
        best("ycom", &["en.wikipedia.org", "news.ycombinator.com"]),
        "news.ycombinator.com"
    );
    assert_eq!(best("wiki", &["news.ycombinator.com", "en.wikipedia.org"]), "en.wikipedia.org");
}

#[test]
fn consecutive_beats_scattered() {
    assert!(score("zoom", "zoom") > score("z o o m", "zoom"));
}

#[test]
fn a_miss_is_none() {
    assert_eq!(score("page zoom", "xyzzy"), None);
    assert_eq!(score("", "a"), None);
}

#[test]
fn an_empty_needle_matches_everything() {
    assert_eq!(score("anything at all", ""), Some(0));
}

#[test]
fn shorter_wins_a_tie() {
    // Both contain "reload" at a word start; the terser one should win.
    assert!(
        score("reload", "reload")
            > score("reload the active tab after a very long explanation", "reload")
    );
}

#[test]
fn letters_out_of_order_do_not_match() {
    assert_eq!(score("abc", "cb"), None);
    assert!(score("a-b-c", "abc").is_some());
    assert!(score("ABC", "abc").is_some(), "case does not matter");
}

#[test]
fn a_hump_and_a_letter_after_a_digit_begin_a_word() {
    assert_eq!(score("ab", "b"), Some(16));
    assert_eq!(score("aB", "b"), Some(30));
    assert_eq!(score("1b", "b"), Some(30));
    // Beyond ASCII too: what is a letter, and of which case, is Unicode's to say.
    assert_eq!(score("1é", "é"), Some(30));
    assert_eq!(score("1-", "-"), Some(16));
    assert_eq!(score("éÉ", "É"), Some(30));
    assert_eq!(score("ÉÉ", "É"), Some(32));
}
