use oma_browse::blocker::Blocker;
use oma_browse::bookmarks::Bookmarks;
use oma_browse::commands::{bookmark, content, download, find, history, nav, settings, share, tab, theme, ui, window};
use oma_browse::commands::{acted, refuse, reported, toggled, Here};
use oma_browse::downloads::Downloads;
use oma_browse::history::History;
use oma_browse::policy::{self, Challenge, Logins, Refused};
use oma_browse::state::{AppState, Settings, ThemeState};

fn s(text: &str) -> Option<String> {
    Some(text.to_string())
}

fn no(why: &str) -> Result<(), String> {
    Err(why.to_string())
}

fn here(url: &str, title: &str) -> Here {
    Here { url: url.to_string(), title: title.to_string() }
}

fn state() -> AppState {
    AppState::new(Settings {
        problem: None,
        keep_history: true,
        strip: true,
        downloads: String::new(),
        recolor: true,
        recolor_max_rules: 4,
    })
}

#[test]
fn the_page_on_screen_is_what_gets_bookmarked() {
    let mut marks = Bookmarks::default();
    let page = here("https://a.test", "A");
    let kept = bookmark::add(&mut marks, None, None, None, Some(&page), 3).unwrap();
    assert_eq!((kept.url.as_str(), kept.title.as_str(), kept.added), ("https://a.test", "A", true));
    assert!(!bookmark::add(&mut marks, s("https://a.test"), None, s("B"), None, 4).unwrap().added);
    assert_eq!(bookmark::list(&marks)[0].title, "B");
    let e = bookmark::add(&mut marks, None, None, None, None, 4).unwrap_err();
    assert_eq!((e.code, e.message.as_str()), ("usage", "there is no page to bookmark"));
    assert!(bookmark::remove(&mut marks, None, s("https://a.test"), None).is_ok());
    let e = bookmark::remove(&mut marks, None, s("https://a.test"), None).unwrap_err();
    assert_eq!((e.code, e.message.as_str()), ("not_found", "https://a.test was not bookmarked"));
    assert_eq!(bookmark::remove(&mut marks, None, None, None).unwrap_err().code, "usage");
}

#[test]
fn a_tab_is_excused_only_when_there_is_one() {
    let mut blocker = Blocker::new();
    let page = here("https://a.test", "A");
    let done =
        content::excuse_tab(&mut blocker, true, Some("tab-1"), true, Ok(()), Some(&page), true)
            .unwrap();
    assert_eq!((done.url.as_str(), done.blocking), ("https://a.test", false));
    assert!(blocker.is_excused("tab-1"));
    let e = content::excuse_tab(&mut blocker, false, Some("tab-1"), true, Ok(()), None, true)
        .unwrap_err();
    assert_eq!((e.code, e.message.as_str()), ("no_window", "the window is not up yet"));
    let e = content::excuse_tab(&mut blocker, true, Some("tab-9"), false, Ok(()), None, true)
        .unwrap_err();
    assert_eq!((e.code, e.message.as_str()), ("no_tab", "no webview labelled tab-9"));
    let e = content::excuse_tab(&mut blocker, true, Some("tab-2"), true, no("gone"), None, true)
        .unwrap_err();
    assert_eq!((e.code, e.message.as_str()), ("webview", "gone"));
    assert!(!blocker.is_excused("tab-2"));
    let e = content::blocking(true, Err("no window".to_string())).unwrap_err();
    assert_eq!((e.code, e.message.as_str()), ("blocker", "no window"));
    let told = content::blocking(true, Ok(blocker.report(vec!["p".to_string()], Some("tab-1"))))
        .unwrap();
    assert_eq!((told.on, told.here, told.problems.len()), (true, Some(false), 1));
}

#[test]
fn a_download_is_picked_by_its_place_in_the_list() {
    let mut list = Downloads::default();
    assert_eq!(download::pick(&list, None).unwrap_err().message, "nothing has been downloaded");
    list.start("https://a.test/1", "/dl/one.txt", 1);
    list.start("https://a.test/2", "/dl/two.txt", 2);
    assert_eq!(download::pick(&list, None).unwrap().name, "two.txt");
    assert_eq!(download::pick(&list, Some(2)).unwrap().path, "/dl/one.txt");
    let e = download::pick(&list, Some(3)).unwrap_err();
    assert_eq!((e.code, e.message.as_str()), ("missing_id", "there is no download 3"));
    assert_eq!(download::list(&list, Some(1)).len(), 1);
    assert_eq!(download::directory("/dl/two.txt"), "/dl");
    let entry = download::saved(list.nth(1).unwrap());
    assert_eq!((entry.state.as_str(), entry.percent), ("running", Some(0)));
    let open = download::Errand::Open;
    let reveal = download::Errand::Reveal;
    let copy = download::Errand::Copy;
    assert_eq!(download::argument(reveal, &entry, false).unwrap(), "/dl");
    assert_eq!(download::argument(copy, &entry, false).unwrap(), entry.path);
    assert_eq!(download::argument(open, &entry, true).unwrap(), entry.path);
    let e = download::argument(open, &entry, false).unwrap_err();
    assert_eq!((e.code, e.message), ("gone", format!("{} is no longer on disk", entry.path)));
    let rootless = download::Saved { path: String::new(), ..download::saved(list.nth(1).unwrap()) };
    let e = download::argument(reveal, &rootless, true).unwrap_err();
    assert_eq!((e.code, e.message.as_str()), ("gone", "that file has no folder"));
    let path = entry.path.clone();
    assert_eq!(download::handed(open, entry, Ok(None)).unwrap().path, path);
    let again = || download::saved(list.nth(1).unwrap());
    let e = download::handed(reveal, again(), Ok(s("exit status: 4"))).unwrap_err();
    assert_eq!((e.code, e.message.as_str()), ("desktop", "xdg-open exited with exit status: 4"));
    let e = download::handed(copy, again(), Err("not found".to_string())).unwrap_err();
    assert_eq!((e.code, e.message.as_str()), ("clipboard", "could not run wl-copy: not found"));
    assert_eq!(download::clear(&mut list), 2);
    assert!(list.entries().is_empty());
}

#[test]
fn history_is_listed_up_to_a_limit_and_cleared_by_count() {
    let mut log = History::default();
    log.record("https://a.test", 1);
    log.record("https://b.test", 2);
    assert_eq!(history::list(&log, Some(1))[0].url, "https://b.test");
    assert_eq!(history::list(&log, None).len(), 2);
    assert_eq!(history::clear(&mut log), 2);
    assert!(history::list(&log, None).is_empty());
}

#[test]
fn what_was_not_said_is_asked_for() {
    assert_eq!(find::wanted(None, s("x")).unwrap(), "x");
    assert_eq!(find::wanted(None, None).unwrap_err().message, "text to find is required");
    assert_eq!(nav::go(s("a"), s("b")).unwrap(), "a");
    assert_eq!(nav::go(None, None).unwrap_err().message, "a url is required");
    assert_eq!(nav::reload(true), nav::HistoryAction::HardReload);
    assert_eq!(nav::reload(false), nav::HistoryAction::Reload);
    let e = refuse("usage", "say more");
    assert_eq!((e.code, e.message.as_str()), ("usage", "say more"));
}

#[test]
fn trusting_a_certificate_reloads_the_page_it_was_for() {
    let refused = Refused {
        host: "a.test".to_string(),
        uri: "https://a.test/x".to_string(),
        reasons: Vec::new(),
    };
    let trusted = nav::trust_certificate(None, Some(&refused)).unwrap();
    assert_eq!(trusted.host, "a.test");
    assert_eq!(trusted.reload.as_deref(), Some("https://a.test/x"));
    let other = nav::trust_certificate(Some(" b.test "), Some(&refused)).unwrap();
    assert_eq!((other.host.as_str(), other.reload.as_deref()), ("b.test", None));
    let e = nav::trusted(nav::trust_certificate(None, Some(&refused)).unwrap(), no("shut"), Ok(()));
    assert_eq!(e.unwrap_err().message, "shut");
    let e = nav::trusted(nav::trust_certificate(None, Some(&refused)).unwrap(), Ok(()), no("lost"))
        .unwrap_err();
    assert_eq!((e.code, e.message.as_str()), ("webview", "lost"));
    let done = nav::trusted(trusted, Ok(()), Ok(())).unwrap();
    assert_eq!((done.host.as_str(), done.url.as_str()), ("a.test", "https://a.test/x"));
    // Nothing is loaded for another host, so nothing can go wrong loading it.
    let done = nav::trusted(other, Ok(()), no("lost")).unwrap();
    assert_eq!((done.host.as_str(), done.url.as_str()), ("b.test", ""));
    assert_eq!(nav::trust_certificate(Some(" "), None).unwrap_err().code, "usage");
}

#[test]
fn a_login_answers_the_challenge_that_is_open() {
    let mut logins = Logins::new();
    let mut challenge = None;
    let e = nav::login(&mut logins, &mut challenge, s("me"), s("pw")).unwrap_err();
    assert_eq!((e.code, e.message.as_str()), ("state", "nothing is asking for a login"));
    challenge = Some(Challenge {
        host: "a.test".to_string(),
        port: 80,
        realm: String::new(),
        uri: "http://a.test/".to_string(),
        retry: false,
    });
    assert_eq!(
        nav::login(&mut logins, &mut challenge, None, None).unwrap_err().message,
        "which user?"
    );
    let done = nav::login(&mut logins, &mut challenge, s("me"), s("pw")).unwrap();
    assert_eq!((done.user.as_str(), done.uri.as_str()), ("me", "http://a.test/"));
    assert_eq!(nav::logged_in(done, Ok(())).unwrap().host, "a.test");
    assert!(challenge.is_none());
    assert_eq!(logins.stored_login("a.test:80"), Some(("me".to_string(), "pw".to_string())));
    // The fresh load asks again, and is answered without anybody being asked twice.
    let again = Challenge {
        host: "a.test".to_string(),
        port: 80,
        realm: String::new(),
        uri: "http://a.test/".to_string(),
        retry: false,
    };
    assert!(matches!(policy::logins(&mut logins, false, &again), policy::Login::Answer(u, p) if u == "me" && p == "pw"));
}

#[test]
fn a_page_is_handed_to_another_program() {
    let page = here("https://app.example.com/x", "App");
    let copied = share::copy(Some(&page)).unwrap();
    assert_eq!((copied.program, copied.args.len()), ("wl-copy", 1));
    assert_eq!(share::copy(None).unwrap_err().message, "there is no page");
    let app = share::webapp(None, None, Some(&page), Some("/bin/ob")).unwrap();
    assert_eq!(
        app.args,
        [
            "webapp",
            "install",
            "App",
            "https://app.example.com/x",
            "example",
            "/bin/ob --app https://app.example.com/x"
        ]
    );
    let shell = share::terminal(Some(&here("https://a.test/\"", ""))).unwrap();
    assert_eq!(
        shell.args[3],
        "printf %s \"https://a.test/\\\"\" | wl-copy; echo \"https://a.test/\\\"\"; exec $SHELL"
    );
    assert!(share::handoff("wl-copy", Ok(None)).is_ok());
    assert_eq!(
        share::handoff("wl-copy", Ok(s("exit status: 1"))).unwrap_err(),
        "wl-copy exited with exit status: 1"
    );
    assert_eq!(
        share::handoff("wl-copy", Err("not found".to_string())).unwrap_err(),
        "could not run wl-copy: not found"
    );
    let e = share::handed(copied, Err("not found".to_string())).unwrap_err();
    assert_eq!((e.code, e.message.as_str()), ("clipboard", "could not run wl-copy: not found"));
    let e = share::handed(app, Ok(s("exit status: 1"))).unwrap_err();
    assert_eq!((e.code, e.message.as_str()), ("omarchy", "omarchy exited with exit status: 1"));
    let e = share::handed(shell, Ok(s("exit status: 2"))).unwrap_err();
    assert_eq!((e.code, e.message.as_str()), ("terminal", "ghostty exited with exit status: 2"));
    let done = share::handed(share::terminal(Some(&page)).unwrap(), Ok(None)).unwrap();
    assert_eq!((done.url.as_str(), done.via.as_str()), ("https://app.example.com/x", "ghostty"));
}

#[test]
fn a_new_tab_starts_where_it_is_told_to() {
    assert_eq!(tab::start_page(Some("http://127.0.0.1:9/"), "", ""), "http://127.0.0.1:9/start");
    assert_eq!(tab::start_page(None, "", ""), "about:blank");
    assert_eq!(tab::start_page(None, "x", "https://x.test"), "https://x.test");
    assert_eq!(tab::start_page_at(s("b"), "", ""), "b");
    let opened = tab::opening(None, None, "start", false);
    assert_eq!((opened.url.as_str(), opened.background, opened.palette), ("start", false, true));
    let behind = tab::opening(None, None, "start", true);
    assert!(!behind.palette, "a tab nobody is looking at brings up nothing");
    let asked = tab::opening(s("u"), None, "start", false);
    assert_eq!((asked.url.as_str(), asked.palette), ("u", false));
}

#[test]
fn tabs_are_chosen_and_closed() {
    assert_eq!(tab::select(Some(3), None, None).unwrap(), tab::Selection::Tab(3));
    assert_eq!(tab::select(None, Some(9), None).unwrap(), tab::Selection::Stay);
    assert_eq!(tab::select(None, Some(1), Some(5)).unwrap(), tab::Selection::Tab(5));
    assert!(tab::select(None, None, None).is_err());
    assert_eq!(tab::close(None, Some(2)).unwrap(), 2);
    assert_eq!(tab::close(None, None).unwrap_err().message, "there are no tabs to close");
    assert_eq!(tab::cycle_by(None), 1);
    assert_eq!(tab::cycle(Some(4)).unwrap(), 4);
    assert_eq!(tab::cycle(None).unwrap_err().code, "no_tabs");
    assert_eq!(tab::reopen(s("u")).unwrap(), "u");
    assert_eq!(tab::reopen(None).unwrap_err().message, "nothing has been closed");
    assert_eq!(tab::mute(None, s("on")).unwrap(), tab::Toggle::On);
    assert_eq!(
        tab::mute(None, s("loud")).unwrap_err().message,
        "unknown action \"loud\"; expected on, off or toggle"
    );
    assert!(tab::Toggle::Toggle.applied(false));
    assert_eq!(tab::switch(None, "x").unwrap(), tab::Toggle::Toggle);
}

#[test]
fn the_theme_hook_is_shown_and_removed() {
    assert!(!theme::recolor(None, true).unwrap());
    assert!(theme::recolor(Some("on"), false).unwrap());
    assert!(theme::recolor(Some("loud"), false).is_err());
    let mut w = state();
    assert!(!theme::recolored(&mut w, Some("off")).unwrap().recolor);
    assert!(theme::recolored(&mut w, None).unwrap().recolor && w.recolor());
    assert_eq!(theme::recolored(&mut w, Some("loud")).unwrap_err().code, "bad_mode");
    let ok = |text: &str| -> Result<String, String> { Ok(text.to_string()) };
    let err = |text: &str| -> Result<String, String> { Err(text.to_string()) };
    let put = theme::installed(ok("/bin/ob"), ok("/h"), Some(" run \n")).unwrap();
    assert_eq!((put.path.as_str(), put.installed, put.runs.as_deref()), ("/h", true, Some("run")));
    let e = theme::installed(ok("/bin/ob"), err("read-only"), None).unwrap_err();
    assert_eq!((e.code, e.message.as_str()), ("hook", "read-only"));
    let e = theme::installed(err("gone"), ok("/h"), None).unwrap_err();
    assert_eq!((e.code, e.message.as_str()), ("exe", "could not find the running binary: gone"));
    assert_eq!(theme::hook(None).unwrap(), theme::HookAction::Show);
    assert_eq!(theme::hook(Some("add")).unwrap(), theme::HookAction::Install);
    assert!(theme::hook(Some("dance")).is_err());
    let hook = theme::shown("/h", true, Some(" run \n"));
    assert_eq!((hook.installed, hook.runs.as_deref()), (true, Some("run")));
    assert!(!theme::removed("/h", theme::Removal::Missing).unwrap().installed);
    let e = theme::removed("/h", theme::Removal::Failed("no".to_string())).unwrap_err();
    assert_eq!((e.code, e.message.as_str()), ("hook", "could not remove /h: no"));
}

#[test]
fn the_palette_is_shown_hidden_and_dismissed() {
    let mut w = state();
    assert!(ui::palette(&mut w, s("nav_go"), None).unwrap());
    assert_eq!(w.take_stage().as_deref(), Some("nav_go"));
    assert!(!ui::palette(&mut w, None, Some("hide")).unwrap());
    assert_eq!(ui::palette(&mut w, None, Some("spin")).unwrap_err().code, "bad_action");
    assert!(ui::palette_set(&mut w, true, Ok(())).unwrap().visible);
    let e = ui::palette_set(&mut w, false, Err("gone".to_string())).unwrap_err();
    assert_eq!((e.code, e.message.as_str()), ("webview", "gone"));
    assert!(w.palette_visible(), "what could not be hidden is still up");
    let e = ui::dismiss(&mut w, Err("gone".to_string()), true).unwrap_err();
    assert_eq!((e.code, e.message.as_str()), ("webview", "gone"));
    assert!(w.palette_visible());
    let gone = ui::dismiss(&mut w, Ok(()), true).unwrap();
    assert!(gone.palette && gone.hints);
    assert!(!w.palette_visible());
    let gone = ui::dismiss(&mut w, Err("gone".to_string()), false).unwrap();
    assert!(!gone.palette && !gone.hints, "nothing was up to hide");
}

#[test]
fn a_window_is_sized_and_started() {
    assert_eq!(window::resize(s("800x600"), None, true, false).unwrap(), window::Size::Written);
    assert!(window::resize(s("big"), None, false, false).is_err());
    assert_eq!(window::resize(None, None, false, true).unwrap(), window::Size::Pair);
    assert_eq!(window::fullscreen(None).unwrap(), None);
    assert_eq!(window::fullscreen(Some("off")).unwrap(), Some(false));
    assert!(window::fullscreen(Some("up")).is_err());
    assert_eq!(window::fresh(None, None), (None, true));
    let up = window::started(Ok(s("3")), Some(7), 10).unwrap();
    assert_eq!((up.pid, up.workspace.as_deref()), (Some(7), Some("3")));
    let e = window::started(Ok(None), None, 10).unwrap_err();
    assert_eq!(e.code, "slow_start");
    assert_eq!(e.message, "the window was started but did not answer within 10s");
    let e = window::started(Err("no fork".to_string()), Some(7), 10).unwrap_err();
    assert_eq!((e.code, e.message.as_str()), ("spawn", "no fork"));
    assert!(window::filled(Ok(true)).unwrap().fullscreen);
    assert_eq!(window::filled(Err("gone".to_string())).unwrap_err().code, "window");
    assert!(window::closed(Ok(())).unwrap().ok);
    assert_eq!(window::closed(no("gone")).unwrap_err().code, "window");
    assert_eq!(window::resized(Ok((800, 600))).unwrap(), (800, 600));
    assert_eq!(window::resized::<u8>(Err("tiled".to_string())).unwrap_err().code, "window");
}

fn dressed(name: &str, fingerprint: &str) -> ThemeState {
    ThemeState {
        name: name.to_string(),
        mode: "light".to_string(),
        colors: 20,
        chrome: String::new(),
        tint: (0, 0, 0),
        opaque: true,
        fingerprint: fingerprint.to_string(),
    }
}

#[test]
fn reading_the_theme_again_says_whether_it_changed() {
    let mut now = dressed("one", "a");
    assert_eq!(theme::show(&now).colors, 20);
    assert_eq!(theme::css(&now), "");
    let (same, event) = theme::reload(&mut now, dressed("two", "a"));
    assert_eq!((same.name.as_str(), same.changed, event.is_none()), ("one", false, true));
    let (other, event) = theme::reload(&mut now, dressed("two", "b"));
    assert_eq!((other.name.as_str(), other.changed, event.is_some()), ("two", true, true));
}

#[test]
fn what_an_engine_did_is_told_under_the_commands_own_code() {
    let mut w = state();
    assert_eq!(tab::opened(&mut w, true, Ok(4u32), no("no palette")).unwrap(), 4);
    assert!(!w.palette_visible(), "the tab is open all the same");
    assert_eq!(tab::opened(&mut w, false, Ok(4u32), Ok(())).unwrap(), 4);
    assert!(!w.palette_visible());
    let e = tab::opened::<u32>(&mut w, true, Err("full".to_string()), Ok(())).unwrap_err();
    assert_eq!((e.code, e.message.as_str(), w.palette_visible()), ("webview", "full", false));
    tab::opened(&mut w, true, Ok(4u32), Ok(())).unwrap();
    assert!(w.palette_visible());

    let there = tab::Selection::Tab(2);
    assert_eq!(tab::selected(there, Ok(()), vec![1, 2]).unwrap().tabs, vec![1, 2]);
    assert_eq!(tab::selected(there, no("gone"), vec![1, 2]).unwrap_err().code, "webview");
    assert_eq!(tab::selected(tab::Selection::Stay, no("gone"), vec![1]).unwrap().tabs, vec![1]);
    let gone = tab::closed(3, Ok(Some(2))).unwrap();
    assert_eq!((gone.closed, gone.active), (3, Some(2)));
    assert_eq!(tab::closed(3, Err("no".to_string())).unwrap_err().code, "webview");
    let saved = vec!["a".to_string(), "b".to_string(), "c".to_string()];
    let back = tab::restored(&saved, &[true, false, true]);
    assert_eq!((back.opened, back.saved), (2, 3));

    assert_eq!(nav::navigated(Ok("u".to_string())).unwrap().url, "u");
    assert_eq!(nav::navigated(Err("no".to_string())).unwrap_err().code, "webview");
    let hit = find::found("x".to_string(), Ok(Some(3))).unwrap();
    assert_eq!((hit.text.as_str(), hit.matches), ("x", Some(3)));
    assert_eq!(find::found("x".to_string(), Err("no".to_string())).unwrap_err().code, "webview");
    assert!(acted(Ok(())).unwrap().ok);
    assert_eq!(acted(no("gone")).unwrap_err().code, "webview");
    assert!(toggled(Ok(true)).unwrap().on);
    assert_eq!(toggled(Err("gone".to_string())).unwrap_err().code, "webview");
    assert_eq!(reported::<u8>(Err("gone".to_string()), "window").unwrap_err().code, "window");
    assert_eq!(settings::written(Ok("/c".to_string())).unwrap().path, "/c");
    let e = settings::written(Err("there".to_string())).unwrap_err();
    assert_eq!((e.code, e.message.as_str()), ("config", "there"));
}
