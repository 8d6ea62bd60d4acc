use oma_browse::crash::{describe, host_heading, host_of, page, page_for, Termination};
use oma_browse::interstitial::escape;

#[test]
fn crash_a_url_becomes_a_host() {
    assert_eq!(host_of("https://youtube.com/watch?v=1"), "youtube.com");
    assert_eq!(host_of("http://127.0.0.1:8731/index.html"), "127.0.0.1");
}

#[test]
fn crash_something_that_is_not_a_url_still_gets_a_heading() {
    assert_eq!(host_of(""), "This page");
    assert_eq!(host_of("not a url"), "This page");
    // Parses, but has no host to show.
    assert_eq!(host_of("file:///etc/hosts"), "This page");
}

/// The URL on this page came off a page that just died, and it is written into markup
/// by hand.
#[test]
fn crash_the_url_cannot_carry_markup_onto_the_page() {
    let nasty = "https://x.test/?q=<script>alert('x')</script>&a=\"b\"";
    let escaped = escape(nasty);
    assert!(!escaped.contains('<'), "{escaped}");
    assert!(!escaped.contains('>'), "{escaped}");
    assert!(!escaped.contains('"'), "{escaped}");
    assert!(escaped.contains("&lt;script&gt;"), "{escaped}");
    // And the ampersand that was already there is not left half-escaped.
    assert!(escaped.contains("&amp;a="), "{escaped}");
}

#[test]
fn crash_escaping_leaves_an_ordinary_url_alone() {
    let plain = "https://omarchy.org/docs/getting-started";
    assert_eq!(escape(plain), plain);
}

#[test]
fn a_crash_page_says_what_died_and_why() {
    let html = page("https://a.test/<x>", Termination::ExceededMemoryLimit, None);
    assert!(html.contains("<h1>a.test</h1>"), "{html}");
    assert!(html.contains("stopped responding, because it ran out of memory."), "{html}");
    assert!(html.contains("https://a.test/&lt;x&gt;"), "{html}");
    let themed = page_for("", "of you", None, Some((":root{}", "p{}")));
    assert!(themed.contains("<style>:root{}</style><style>p{}</style>"), "{themed}");
    assert!(themed.contains("<h1>This page</h1>"), "{themed}");
    assert_ne!(describe(Termination::Other), describe(Termination::TerminatedByApi));
}

#[test]
fn a_heading_is_the_host_or_this_page() {
    assert_eq!(host_heading(Some(Some("a.test".to_string()))), "a.test");
    assert_eq!(host_heading(None), "This page");
    assert_eq!(host_heading(Some(None)), "This page");
}
