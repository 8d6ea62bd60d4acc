use oma_browse::commands::acting::{
    budget, click_script, fill_script, filling_at, filling_for, idle, interacted, js_string,
    remaining, secret, selector_of, settled, until, wait, waited, Field, Filling, Idle, Poll, Vault, Wait,
};
use oma_browse::commands::logs::{asked, console, floor, logged, network, report};
use oma_browse::commands::page::{
    default_pdf, devtools, eval, evaluated, file_of, file_url, hinted, hints, print, printed,
    read_page, reader, reader_said, reading, reading_file, screenshot, shown, source, source_of,
    sourced, told, wants_file, written, zoom, Extracted, Filing, Printing, ZoomChange, SOURCE,
};
use oma_browse::commands::from_view;
use oma_browse::commands::tab::Toggle;
use oma_browse::inspect::{Exchange, Inspector, Level, Line};
use oma_browse::paths::{with_caller_cwd, Scope};
use oma_browse::shot::Shot;

fn s(text: &str) -> Option<String> {
    Some(text.to_string())
}

#[test]
fn a_script_is_asked_for_when_none_was_given() {
    assert_eq!(eval(None, s("1+1")).unwrap(), "1+1");
    assert_eq!(eval(None, None).unwrap_err().message, "a script is required");
    assert_eq!(from_view::<u8>(Ok(3)).unwrap(), 3);
    let e = from_view::<u8>(Err("gone".to_string())).unwrap_err();
    assert_eq!((e.code, e.message.as_str()), ("webview", "gone"));
}

#[test]
fn zoom_goes_by_level_before_direction() {
    assert_eq!(zoom(true, Some("sideways")).unwrap(), ZoomChange::Exactly);
    assert_eq!(zoom(false, None).unwrap(), ZoomChange::Reset);
    assert_eq!(zoom(false, Some("in")).unwrap(), ZoomChange::In);
    assert_eq!(zoom(false, Some("out")).unwrap(), ZoomChange::Out);
    assert_eq!(
        zoom(false, Some("sideways")).unwrap_err().message,
        "unknown direction \"sideways\"; use in, out or reset"
    );
}

#[test]
fn hints_know_several_words_for_the_same_thing() {
    let click = hints(None, None).unwrap();
    assert_eq!(click, "window.__omaHints ? String(window.__omaHints(\"click\")) : \"absent\"");
    assert_eq!(hints(s("show"), None).unwrap(), click);
    assert!(hints(None, s("background")).unwrap().contains("\"newtab\""));
    assert!(hints(None, s("off")).unwrap().contains("\"clear\""));
    assert_eq!(
        hints(None, s("dance")).unwrap_err().message,
        "unknown mode \"dance\"; use click, newtab or clear"
    );
    assert_eq!(hinted(Ok(" \"12\" ".to_string())).unwrap().shown, 12);
    assert_eq!(hinted(Ok("\"absent\"".to_string())).unwrap_err().code, "no_script");
    assert_eq!(hinted(Err("gone".to_string())).unwrap_err().code, "webview");
}

#[test]
fn devtools_are_a_switch() {
    assert_eq!(devtools(None, None).unwrap(), Toggle::Toggle);
    assert_eq!(devtools(s("show"), None).unwrap(), Toggle::On);
    assert_eq!(
        devtools(s("dance"), None).unwrap_err().message,
        "unknown action \"dance\"; expected show, hide or toggle"
    );
}

#[test]
fn a_page_is_printed_where_the_caller_stands() {
    let home = Some("/home/me");
    with_caller_cwd("/here", |scope: &Scope| {
        let to = print(s("a.pdf"), None, false, scope, home).unwrap();
        assert!(matches!(to, Printing::To(p) if p == "/here/a.pdf"));
    });
    let nobody = Scope::nobody();
    assert_eq!(print(s("a.pdf"), None, false, &nobody, home).unwrap_err().code, "path");
    assert!(matches!(print(None, None, true, &nobody, home), Ok(Printing::Dialog)));
    assert!(matches!(print(s(""), None, false, &nobody, home), Ok(Printing::Downloads)));
    assert_eq!(default_pdf(" My page ", "/dl", &[]), "/dl/My page.pdf");
    assert_eq!(default_pdf("  ", "/dl", &["page.pdf".to_string()]), "/dl/page (1).pdf");
}

#[test]
fn a_file_that_could_not_be_written_says_which() {
    assert!(!wants_file(false, None));
    assert!(wants_file(true, None));
    assert!(wants_file(false, Some("x")));
    assert_eq!(written(Ok("/a".to_string()), Ok(())).unwrap(), "/a");
    assert_eq!(written(Err("no".to_string()), Ok(())).unwrap_err().code, "path");
    let e = written(Ok("/a".to_string()), Err("full".to_string())).unwrap_err();
    assert_eq!((e.code, e.message.as_str()), ("io", "could not write /a: full"));
    assert_eq!(file_url("/a b"), "file:///a b");
}

#[test]
fn the_source_comes_out_of_its_quotes() {
    let got = source_of("u".to_string(), "\"<p>\\u00e9</p>\"".to_string());
    assert_eq!(got.html.as_deref(), Some("<p>é</p>"));
    assert_eq!(got.bytes, 9, "counted in bytes");
    let raw = source_of("u".to_string(), "<p>".to_string());
    assert_eq!(raw.html.as_deref(), Some("<p>"));
    let filed = source("u".to_string(), "<p>".to_string()).filed("/s.txt".to_string());
    assert_eq!((filed.bytes, filed.html, filed.path.as_deref()), (3, None, Some("/s.txt")));
    assert!(SOURCE.contains("outerHTML"));
}

fn found() -> Extracted {
    Extracted {
        title: "T \"q\"".to_string(),
        url: "https://a.test/".to_string(),
        markdown: "# é".to_string(),
        text: "é!".to_string(),
        html: "<p>é</p>".to_string(),
    }
}

#[test]
fn an_article_is_read_as_markdown_or_as_text() {
    let md = reading(found(), true);
    assert_eq!((md.chars, md.content.as_deref()), (3, Some("# é")));
    let text = reading(found(), false).filed("/t.txt".to_string());
    assert_eq!((text.chars, text.content, text.path.as_deref()), (2, None, Some("/t.txt")));
    assert_eq!(reading_file(true), ("markdown", "md"));
    assert_eq!(reading_file(false), ("text", "txt"));
    assert!(read_page(Ok(found())).is_ok());
    assert_eq!(
        read_page(Err("EOF".to_string())).unwrap_err().message,
        "the reader answered with something unreadable: EOF"
    );
}

#[test]
fn the_reader_gets_the_article_as_an_argument() {
    let (js, told) = reader("function(a){}", found()).unwrap();
    let given = js.strip_prefix("(function(a){})(").and_then(|r| r.strip_suffix(")")).unwrap();
    let given: serde_json::Value = serde_json::from_str(given).unwrap();
    assert_eq!(given["title"], "T \"q\"");
    assert_eq!(given["html"], "<p>é</p>");
    assert_eq!(given["base"], "https://a.test/");
    assert_eq!(told.chars, 2);
    let empty = Extracted { html: " \n".to_string(), ..found() };
    assert_eq!(reader("f", empty).unwrap_err().code, "no_article");
}

#[test]
fn a_selector_is_quoted_for_the_page() {
    let js = click_script("a[href=\"x\"]", 2);
    assert!(js.contains("querySelectorAll(\"a[href=\\\"x\\\"]\")"), "{js}");
    assert!(js.contains("found.length <= 2"), "{js}");
    assert!(js.contains("found[2]"), "{js}");
    assert_eq!(js_string("a\nb"), "\"a\\nb\"");
    assert_eq!(selector_of(None, s("#x")).unwrap(), "#x");
    assert_eq!(selector_of(None, None).unwrap_err().message, "a CSS selector is required");
}

#[test]
fn a_field_is_filled_or_added_to() {
    let js = fill_script("#q", 0, "it's \"me\"", true);
    assert!(js.contains("querySelectorAll(\"#q\")"), "{js}");
    assert_eq!(js.matches("\"it's \\\"me\\\"\"").count(), 4, "{js}");
    assert!(js.contains("true ?"), "{js}");
    assert!(fill_script("#q", 0, "x", false).contains("false ?"));
}

#[test]
fn what_to_fill_in_is_typed_or_kept_and_never_both() {
    let typed = filling_for("#p", s("x"), None, None, None, None).unwrap();
    assert!(matches!(typed, Filling::Typed(t) if t == "x"));
    let both = filling_for("#p", s("x"), Some("rbw"), None, None, None).unwrap_err();
    assert_eq!(both.message, "give text or --from, not both");
    let none = filling_for("#p", None, None, None, None, None).unwrap_err();
    assert_eq!(none.message, "what should go in #p?");
    let vault = filling_for("#p", None, Some("lastpass"), None, None, None).unwrap_err();
    assert_eq!(vault.message, "unknown password manager \"lastpass\"; use rbw, op, pass");
    let field = filling_for("#p", None, Some("op"), Some("pin"), None, None).unwrap_err();
    assert_eq!(field.message, "unknown field \"pin\"; use password or username");
    let kept = filling_at("#p", None, Some("pass"), Some("username"), None, "https://a.test/x");
    match kept.unwrap() {
        Filling::Kept { vault, entry, field } => {
            assert_eq!((vault, entry.as_str(), field), (Vault::Pass, "a.test", Field::Username))
        }
        _ => panic!("nothing was typed"),
    }
    let nowhere = filling_at("#p", None, Some("rbw"), None, None, "about:blank").unwrap_err();
    assert_eq!(nowhere.message, "this page has no host to look up; name one with --entry");
}

#[test]
fn a_page_is_asked_until_it_answers() {
    assert_eq!(budget(None), 10_000);
    assert_eq!(budget(Some(0)), 1);
    assert!(matches!(until(Ok("3".to_string()), 0, 100), Poll::Found(raw) if raw == "3"));
    assert!(matches!(until(Ok(" null ".to_string()), 0, 100), Poll::Again(last) if last.is_empty()));
    assert!(matches!(until(Err("torn".to_string()), 0, 100), Poll::Again(last) if last == "torn"));
    match until(Err("torn".to_string()), 100, 100) {
        Poll::GiveUp(why) => {
            assert_eq!(why, "still not there after 100ms; last answer was torn")
        }
        _ => panic!("the time was up"),
    }
    match until(Ok("null".to_string()), 100, 100) {
        Poll::GiveUp(why) => assert_eq!(why, "still not there after 100ms"),
        _ => panic!("the time was up"),
    }
}

#[test]
fn acting_says_how_many_matched() {
    let acted = interacted("#x".to_string(), Ok((" 4 ".to_string(), 7))).unwrap();
    assert_eq!((acted.matched, acted.waited), (4, 7));
    assert_eq!(interacted("#x".to_string(), Ok(("yes".to_string(), 7))).unwrap().matched, 1);
    let e = interacted("#x".to_string(), Err("late".to_string())).unwrap_err();
    assert_eq!((e.code, e.message.as_str()), ("no_match", "#x: late"));
}

#[test]
fn waiting_is_for_an_element_a_text_or_the_page() {
    match wait(s("#x"), s("ignored")) {
        Wait::Script { js, said, .. } => {
            assert_eq!(js, "document.querySelector(\"#x\") ? 1 : null");
            assert_eq!(said, "#x");
        }
        Wait::Idle => panic!("an element was named"),
    }
    match wait(None, s("hi")) {
        Wait::Script { js, blamed, .. } => {
            assert!(js.contains("indexOf(\"hi\") >= 0"), "{js}");
            let e = waited("hi".to_string(), &blamed, Err("late".to_string())).unwrap_err();
            assert_eq!((e.code, e.message.as_str()), ("timeout", "\"hi\": late"));
        }
        Wait::Idle => panic!("a text was named"),
    }
    assert!(matches!(wait(None, None), Wait::Idle));
    assert_eq!(waited("x".to_string(), "x", Ok(5)).unwrap().ms, 5);
    assert_eq!(settled(Ok(5)).unwrap().what, "idle");
    assert_eq!(settled(Err("busy".to_string())).unwrap_err().message, "busy");
    assert_eq!(remaining(100, 30), 70);
    assert_eq!(remaining(100, 130), 0);
}

fn request(seq: u64, at: u64, status: u32, ms: u64) -> Exchange {
    Exchange {
        seq,
        method: "GET".to_string(),
        url: "https://a.test/".to_string(),
        status,
        mime: String::new(),
        bytes: 0,
        at,
        ms,
        failed: None,
    }
}

#[test]
fn a_page_is_idle_when_nothing_moved_for_half_a_second() {
    assert!(matches!(idle(&[], 1_000, 0, 100), Idle::Yes));
    let landed = [request(1, 1_000, 200, 400)];
    assert!(matches!(idle(&landed, 1_899, 0, 100), Idle::Wait));
    assert!(matches!(idle(&landed, 1_900, 0, 100), Idle::Yes));
}

#[test]
fn a_request_that_will_never_end_does_not_keep_a_page_busy() {
    let beacon = [request(1, 1_000, 0, 0)];
    assert!(matches!(idle(&beacon, 2_999, 0, 100), Idle::Wait));
    assert!(matches!(idle(&beacon, 3_000, 0, 100), Idle::Yes));
    let both = [request(1, 1_000, 0, 0), request(2, 9_900, 0, 0)];
    match idle(&both, 10_000, 100, 100) {
        Idle::GiveUp(why) => {
            assert_eq!(why, "1 request(s) still loading after 100ms (1 stalled and ignored)")
        }
        _ => panic!("the time was up"),
    }
}

fn line(seq: u64, level: Level) -> Line {
    Line { seq, level, text: format!("{seq}"), source: String::new(), at: 0 }
}

#[test]
fn a_console_is_read_from_where_it_was_left() {
    let mut inspector = Inspector::default();
    for (seq, level) in [(1, Level::Log), (2, Level::Error), (3, Level::Debug), (4, Level::Error)] {
        inspector.say("tab-1", line(seq, level));
    }
    let all = console(&mut inspector, "tab-1", "u".to_string(), Level::Debug, None, None, false);
    assert_eq!((all.lines.len(), all.next), (4, 5));
    let rest =
        console(&mut inspector, "tab-1", "u".to_string(), Level::Debug, None, Some(all.next), false);
    assert_eq!((rest.lines.len(), rest.next), (0, 5));
    let loud = console(&mut inspector, "tab-1", "u".to_string(), Level::Error, Some(1), None, false);
    assert_eq!(loud.lines.iter().map(|l| l.seq).collect::<Vec<_>>(), vec![4]);
    let gone = console(&mut inspector, "tab-1", "u".to_string(), Level::Debug, None, None, true);
    assert_eq!((gone.lines.len(), gone.next), (0, 0));
    assert!(inspector.console_of("tab-1").is_empty());
}

#[test]
fn a_level_nobody_knows_is_refused() {
    assert_eq!(floor(None).unwrap(), Level::Debug);
    assert_eq!(floor(Some("warning")).unwrap(), Level::Warn);
    assert_eq!(
        floor(Some("shout")).unwrap_err().message,
        "unknown level \"shout\"; use debug, log, info, warn, error"
    );
    assert_eq!(asked(s("tab-1")).unwrap(), "tab-1");
    assert_eq!(asked(None).unwrap_err().message, "there is no active tab");
}

#[test]
fn only_what_went_wrong_is_told_of_when_asked() {
    let mut inspector = Inspector::default();
    inspector.started("tab-1", request(1, 0, 200, 1));
    inspector.started("tab-1", request(2, 0, 404, 1));
    inspector.started("tab-1", Exchange { failed: s("no route"), ..request(3, 0, 0, 1) });
    let bad = network(&mut inspector, "tab-1", "u".to_string(), None, None, true, false);
    assert_eq!(bad.requests.iter().map(|e| e.seq).collect::<Vec<_>>(), vec![2, 3]);
    assert_eq!(bad.next, 4);
    let told = report(bad, true, "0.1.0");
    assert!(told.requests.is_none());
    let har: serde_json::Value = serde_json::from_str(told.har.as_deref().unwrap()).unwrap();
    assert_eq!(har["log"]["entries"].as_array().map(|e| e.len()), Some(2));
    let filed = logged(told, Some(filing("/n.har"))).unwrap();
    assert_eq!((filed.har.as_deref(), filed.path.as_deref()), (None, Some("/n.har")));
    let kept = logged(filed, Some(Filing { path: Err("no".to_string()), ..filing("/x") })).unwrap();
    assert_eq!(kept.path.as_deref(), Some("/n.har"), "only a log goes to a file");
    let cleared = network(&mut inspector, "tab-1", "u".to_string(), None, None, false, true);
    let told = report(cleared, true, "0.1.0");
    assert_eq!(told.requests.map(|r| r.len()), Some(0));
    assert!(inspector.network_of("tab-1").is_empty());
}

fn filing(path: &str) -> Filing {
    Filing { path: Ok(path.to_string()), written: Ok(()), opened: None }
}

#[test]
fn what_became_of_a_page_is_told_under_its_own_code() {
    let bad = || -> Result<String, String> { Err("gone".to_string()) };
    assert_eq!(evaluated(Ok("3".to_string())).unwrap().result, "3");
    assert_eq!(evaluated(bad()).unwrap_err().code, "webview");
    assert_eq!(printed(Ok(s("/p.pdf"))).unwrap().path.as_deref(), Some("/p.pdf"));
    assert_eq!(printed(Err("gone".to_string())).unwrap_err().code, "webview");
    let shot = Shot { path: "/s.png".to_string(), width: 2, height: 1, label: "t".to_string() };
    let took = screenshot(Ok("/s.png".to_string()), Ok(shot)).unwrap();
    assert_eq!((took.path.as_str(), took.width), ("/s.png", 2));
    assert_eq!(screenshot(bad(), Err("x".to_string())).unwrap_err().code, "path");
    let e = screenshot(Ok("/s.png".to_string()), Err("x".to_string())).unwrap_err();
    assert_eq!((e.code, e.message.as_str()), ("webview", "x"));
    assert_eq!(secret(Ok("pw".to_string())).unwrap(), "pw");
    assert_eq!(secret(bad()).unwrap_err().code, "vault");

    assert_eq!(file_of(filing("/f")).unwrap(), "/f");
    let stuck = Filing { opened: Some(Err("no tab".to_string())), ..filing("/f") };
    let e = file_of(stuck).unwrap_err();
    assert_eq!((e.code, e.message.as_str()), ("webview", "no tab"));
    let u = || "u".to_string();
    assert_eq!(sourced(u(), bad(), None).unwrap_err().code, "webview");
    let whole = sourced(u(), Ok("\"<p>\"".to_string()), None).unwrap();
    assert_eq!((whole.html.as_deref(), whole.path), (Some("<p>"), None));
    let put = sourced(u(), Ok("\"<p>\"".to_string()), Some(filing("/f"))).unwrap();
    assert_eq!((put.bytes, put.html, put.path.as_deref()), (3, None, Some("/f")));
    let full = Filing { written: Err("full".to_string()), ..filing("/f") };
    let e = sourced(u(), Ok("<p>".to_string()), Some(full)).unwrap_err();
    assert_eq!((e.code, e.message.as_str()), ("io", "could not write /f: full"));

    assert_eq!(reader_said(Ok("\"{}\"".to_string())).unwrap(), "{}");
    assert_eq!(reader_said(bad()).unwrap_err().message, "gone");
    assert_eq!(told(found(), true, None).unwrap().content.as_deref(), Some("# é"));
    let put = told(found(), false, Some(filing("/t"))).unwrap();
    assert_eq!((put.chars, put.content, put.path.as_deref()), (2, None, Some("/t")));
    let lost = Filing { path: Err("where?".to_string()), ..filing("/t") };
    assert_eq!(told(found(), true, Some(lost)).unwrap_err().code, "path");
    let (_, article) = reader("f", found()).unwrap();
    assert_eq!(shown(article, Ok(())).unwrap().chars, 2);
    let (_, article) = reader("f", found()).unwrap();
    assert_eq!(shown(article, Err("gone".to_string())).unwrap_err().code, "webview");
}
