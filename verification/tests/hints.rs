use oma_browse::hints::{intercept, percent_decode, script, Intercept, PLACEHOLDER, SENTINEL};

#[test]
fn the_script_carries_the_sentinel() {
    let js = script("location.href = \"__OMA_HINT_SENTINEL__\" + encodeURIComponent(url);");
    assert!(js.contains(SENTINEL), "the script must know where to send a new-tab request");
    assert!(!js.contains("__OMA_HINT_SENTINEL__"), "the placeholder must be substituted");
    assert_eq!(PLACEHOLDER, "__OMA_HINT_SENTINEL__");
}

#[test]
fn decoding_is_the_inverse_of_encodeuricomponent() {
    // What `encodeURIComponent("https://a.example/x y?q=1&r=2#f")` produces.
    let encoded = "https%3A%2F%2Fa.example%2Fx%20y%3Fq%3D1%26r%3D2%23f";
    assert_eq!(percent_decode(encoded).as_deref(), Some("https://a.example/x y?q=1&r=2#f"));
}

#[test]
fn a_plus_survives_decoding() {
    // Form decoding would turn this into a space and break the URL.
    assert_eq!(percent_decode("a%2Bb").as_deref(), Some("a+b"));
}

#[test]
fn truncated_escapes_do_not_panic() {
    assert_eq!(percent_decode("%"), None);
    assert_eq!(percent_decode("%2"), None);
    assert_eq!(percent_decode("%zz"), None);
    assert_eq!(percent_decode(""), None);
}

#[test]
fn letters_beyond_ascii_come_back_whole() {
    assert_eq!(percent_decode("caf%C3%A9").as_deref(), Some("café"));
    assert_eq!(percent_decode("%FF"), None, "not UTF-8");
}

#[test]
fn a_new_tab_request_is_caught_and_a_page_is_not() {
    assert!(matches!(intercept("https://a.test/"), Intercept::Proceed));
    let asked = format!("{SENTINEL}https%3A%2F%2Fa.test%2F");
    assert!(matches!(intercept(&asked), Intercept::Open(to) if to == "https://a.test/"));
    assert!(matches!(intercept(SENTINEL), Intercept::Refuse));
}

#[test]
fn an_escape_is_two_digits_and_nothing_else() {
    assert_eq!(percent_decode("%+5"), None);
    assert_eq!(percent_decode("%5+"), None);
    assert_eq!(percent_decode("%41").as_deref(), Some("A"));
}
