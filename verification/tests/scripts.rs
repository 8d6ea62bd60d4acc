use oma_browse::scripts::{
    dir, injection, load, normalise, parse_header, read_one, trouble, Injection, Script,
};

fn parse(source: &str, kind: &str) -> Script {
    let mut script = Script {
        name: "test".into(),
        path: String::new(),
        kind: kind.into(),
        matches: Vec::new(),
        excludes: Vec::new(),
        run_at: "document-end".into(),
        problem: String::new(),
    };
    parse_header(source, &mut script);
    script
}

/// The engine accepts each of these and then matches nothing with it, so the file has
/// to be listed as inert or nobody ever finds out why their script does not run.
#[test]
fn the_patterns_webkit_takes_and_ignores_are_reported() {
    // A port is the obvious thing to write for the local dev server this browser is
    // pointed at all day, and the symptom is silence.
    assert!(trouble("http://localhost:3000/*").is_some_and(|w| w.contains("port")));
    assert!(trouble("*://localhost:*/*").is_some_and(|w| w.contains("port")));
    assert!(trouble("example.com/*").is_some_and(|w| w.contains("scheme")));
    assert!(trouble("https://example.com").is_some_and(|w| w.contains("path")));
}

#[test]
fn an_ordinary_pattern_has_no_trouble() {
    assert!(trouble("https://example.com/*").is_none());
    assert!(trouble("*://localhost/*").is_none());
    assert!(trouble("*://*/*").is_none());
    assert!(trouble("https://example.com/a/b").is_none());
    // A colon in the path is ordinary and is not the host's.
    assert!(trouble("https://example.com/a:b").is_none());
}

/// Two spellings of "everywhere" that other managers take and the engine does not.
/// Rewriting beats refusing: nothing about either is ambiguous.
#[test]
fn everywhere_is_spelled_the_way_webkit_wants_it() {
    assert_eq!(normalise("*"), "*://*/*");
    assert_eq!(normalise("<all_urls>"), "*://*/*");
    assert!(trouble(&normalise("*")).is_none());
    assert_eq!(normalise("https://a.example/*"), "https://a.example/*");
}

#[test]
fn a_greasemonkey_header_is_read() {
    let s = parse(
        "// ==UserScript==\n// @name    Wider\n// @match   https://a.example/*\n\
         // @exclude https://a.example/admin/*\n// @run-at  document-start\n\
         // ==/UserScript==\nconsole.log(1)",
        "js",
    );
    assert_eq!(s.name, "Wider");
    assert_eq!(s.matches, ["https://a.example/*"]);
    assert_eq!(s.excludes, ["https://a.example/admin/*"]);
    assert_eq!(s.run_at, "document-start");
}

/// A stylesheet cannot write `//` comments, so the same keys have to work inside a
/// block comment.
#[test]
fn a_css_header_is_read_out_of_a_block_comment() {
    let s =
        parse("/* @name Wider */\n/* @match https://a.example/* */\nbody { color: red }", "css");
    assert_eq!(s.name, "Wider");
    assert_eq!(s.matches, ["https://a.example/*"]);
}

#[test]
fn several_matches_all_count() {
    let s = parse("// @match https://a.example/*\n// @match https://b.example/*", "js");
    assert_eq!(s.matches.len(), 2);
}

/// The one that matters: a file with no `@match` must not become a script that runs
/// everywhere.
#[test]
fn a_file_with_no_match_is_inert_and_says_why() {
    let script = read_one("/tmp/oma-scripts/nomatch.js", Some("console.log('hello')"));
    assert!(script.matches.is_empty());
    assert!(!script.live(), "a script with no @match must not be injected");
    assert!(script.problem.contains("@match"), "{}", script.problem);
}

#[test]
fn a_run_at_we_do_not_know_falls_back_to_document_end() {
    let s = parse("// @match https://a.example/*\n// @run-at whenever", "js");
    assert_eq!(s.run_at, "document-end");
}

/// `@match` far down a file is somebody's string, not a header.
#[test]
fn only_the_top_of_the_file_is_a_header() {
    let mut source = String::from("// @match https://real.example/*\n");
    source.push_str(&"const x = 1;\n".repeat(60));
    source.push_str("// @match https://sneaky.example/*\n");
    let s = parse(&source, "js");
    assert_eq!(s.matches, ["https://real.example/*"], "a line 60 deep is not a header");
}

#[test]
fn a_bare_at_sign_with_no_value_is_not_a_key() {
    let s = parse("// @match\n// @match https://a.example/*", "js");
    assert_eq!(s.matches, ["https://a.example/*"]);
}

#[test]
fn a_live_script_says_when_it_runs() {
    let js = read_one("/s/a.js", Some("// @match *\n"));
    assert!(js.live(), "{}", js.problem);
    assert_eq!(js.matches, ["*://*/*"]);
    assert_eq!(js.name, "a.js");
    assert_eq!(injection(&js), Some(Injection::AtEnd));
    let early = read_one("/s/a.js", Some("// @match *\n// @run-at document-start"));
    assert_eq!(injection(&early), Some(Injection::AtStart));
    let css = read_one("/s/a.CSS", Some("/* @match * */"));
    assert_eq!(css.kind, "css");
    assert_eq!(injection(&css), Some(Injection::Style));
    let gone = read_one("/s/a.js", None);
    assert!(!gone.live());
    assert_eq!(injection(&gone), None);
}

#[test]
fn scripts_are_listed_in_the_order_of_their_names() {
    let names: Vec<String> =
        ["b.js", "a.css", "notes.txt", "A.js"].iter().map(|s| s.to_string()).collect();
    assert_eq!(load("/s", &names), ["/s/A.js", "/s/a.css", "/s/b.js"]);
    assert_eq!(dir(Some("/c"), Some("/home/me"), None), "/c/oma-browse/scripts");
}

#[test]
fn a_pattern_that_ends_like_a_comment_is_read_whole() {
    let script = parse("// @match https://a.example/*/\n", "js");
    assert_eq!(script.matches, vec!["https://a.example/*/"]);
    let script = parse("/* @match https://a.example/* */\n", "css");
    assert_eq!(script.matches, vec!["https://a.example/*"]);
}
