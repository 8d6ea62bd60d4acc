use oma_browse::interstitial::{escape, host_heading, host_of, Interstitial};

#[test]
fn interstitial_a_url_becomes_a_host() {
    assert_eq!(host_of("https://youtube.com/watch?v=1"), "youtube.com");
    assert_eq!(host_of("http://127.0.0.1:8731/index.html"), "127.0.0.1");
}

#[test]
fn interstitial_something_that_is_not_a_url_still_gets_a_heading() {
    assert_eq!(host_of(""), "This page");
    assert_eq!(host_of("not a url"), "This page");
    // Parses, but has no host to show.
    assert_eq!(host_of("file:///etc/hosts"), "This page");
}

/// The URL on these pages came off the network, and it is written into markup by hand.
#[test]
fn interstitial_the_url_cannot_carry_markup_onto_the_page() {
    let nasty = "https://x.test/?q=<script>alert('x')</script>&a=\"b\"";
    let escaped = escape(nasty);
    assert!(!escaped.contains('<'), "{escaped}");
    assert!(!escaped.contains('>'), "{escaped}");
    assert!(!escaped.contains('"'), "{escaped}");
    assert!(escaped.contains("&lt;script&gt;"), "{escaped}");
    // And the ampersand that was already there is not left half-escaped.
    assert!(escaped.contains("&amp;a="), "{escaped}");
}

/// A host is echoed into the heading, and a page chooses what it navigates to -- so
/// the heading is as much of an injection point as the URL.
#[test]
fn a_host_cannot_carry_markup_onto_the_page() {
    let escaped = escape(&host_of("https://x.test/"));
    assert_eq!(escaped, "x.test");
    assert_eq!(escape("<b>evil</b>.test"), "&lt;b&gt;evil&lt;/b&gt;.test");
}

#[test]
fn interstitial_escaping_leaves_an_ordinary_url_alone() {
    let plain = "https://omarchy.org/docs/getting-started";
    assert_eq!(escape(plain), plain);
}

#[test]
fn a_page_in_the_way_shows_its_parts_in_order() {
    let shown = Interstitial {
        tag: "blocked",
        title: "Not this one",
        sub: "is not trusted",
        detail: Some("a < b"),
        hint: "<code>nav go</code>",
        uri: "https://x.test/?a=1&b=2",
    };
    let html = shown.render(None);
    assert!(html.contains("blocked"), "{html}");
    assert!(html.contains("<h1>x.test</h1>"), "{html}");
    assert!(html.contains("a &lt; b"), "{html}");
    assert!(html.contains("<code>nav go</code>"), "{html}");
    assert!(html.contains("https://x.test/?a=1&amp;b=2"), "{html}");
    let named = shown.render_for(Some(Some("y.test".to_string())), Some((":root{}", "")));
    assert!(named.contains("<h1>y.test</h1>"), "{named}");
    assert!(named.contains(":root{}"), "{named}");
    assert_eq!(host_heading(Some(None)), "This page");
}
