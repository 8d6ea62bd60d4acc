use oma_browse::config::Engine;
use oma_browse::engine::{configure, cookie_policy, proxy, spellcheck_languages, CookieAcceptPolicy};
use oma_browse::paths::{with_caller_cwd, Scope};
use oma_browse::shot::{capture, destination, scratch_dir, scratch_file};
use oma_browse::state::{AppState, Settings, ThemeState, UiEvent};

fn state() -> AppState {
    AppState::new(Settings {
        problem: None,
        keep_history: true,
        strip: true,
        downloads: String::new(),
        recolor: true,
        recolor_max_rules: 4,
    })
}

#[test]
fn a_private_window_keeps_no_history() {
    let mut s = state();
    assert!(s.keeps_history());
    s.set_incognito(true);
    assert!(s.incognito());
    assert!(!s.keeps_history());
}

#[test]
fn an_app_window_has_no_strip_to_make_room_for() {
    let mut s = state();
    assert!(s.strip_enabled());
    assert_eq!(s.page_script("T", "I", "H", "N"), "T\nI\nH\nN");
    s.set_app_mode(true);
    assert!(s.app_mode());
    assert!(!s.strip_enabled());
    assert_eq!(s.inset_script("I"), "");
    assert_eq!(s.page_script("T", "I", "H", "N"), "T\n\nH\nN");
}

#[test]
fn what_is_claimed_is_claimed_once() {
    let mut s = state();
    assert!(s.claim_download_hook());
    assert!(!s.claim_download_hook());
    assert!(s.claim_shared_context());
    assert!(!s.claim_shared_context());
}

#[test]
fn the_first_problem_is_the_one_that_is_told() {
    let mut s = state();
    assert_eq!(s.config_problem(), None);
    s.note_config_problem("one".to_string());
    s.note_config_problem("two".to_string());
    assert_eq!(s.config_problem().as_deref(), Some("one"));
    s.set_base_url("http://127.0.0.1:1/".to_string());
    s.set_base_url("http://127.0.0.1:2/".to_string());
    assert_eq!(s.base_url().as_deref(), Some("http://127.0.0.1:1/"));
}

#[test]
fn a_stage_is_taken_once() {
    let mut s = state();
    s.set_stage(Some("nav_go".to_string()));
    assert_eq!(s.take_stage().as_deref(), Some("nav_go"));
    assert_eq!(s.take_stage(), None);
    s.set_palette_visible(true);
    assert!(s.palette_visible());
    s.set_recolor(false);
    assert!(!s.recolor());
    assert_eq!(s.recolor_max_rules(), 4);
}

#[test]
fn downloads_go_where_they_are_configured_to() {
    let s = state();
    assert_eq!(s.download_dir("/home/me", None, None, Some("/home/me")), "/home/me/Downloads");
    let elsewhere = AppState::new(Settings {
        problem: Some("bad".to_string()),
        keep_history: false,
        strip: false,
        downloads: "~/in".to_string(),
        recolor: false,
        recolor_max_rules: 0,
    });
    assert_eq!(elsewhere.download_dir("/home/me", None, None, Some("/home/me")), "/home/me/in");
    assert_eq!(elsewhere.download_path("/d", "a.txt", &[]), "/d/a.txt");
    assert_eq!(elsewhere.config_problem().as_deref(), Some("bad"));
}

#[test]
fn a_picture_goes_where_it_was_asked_to() {
    assert_eq!(scratch_dir(Some("/run/user/1000"), "/tmp"), "/run/user/1000/oma-browse");
    assert_eq!(scratch_dir(None, "/tmp"), "/tmp/oma-browse");
    let nobody = Scope::nobody();
    let home = Some("/home/me");
    assert_eq!(
        scratch_file(None, &nobody, home, "/tmp/oma-browse", "source", 17, "txt").unwrap(),
        "/tmp/oma-browse/source-17.txt"
    );
    assert_eq!(
        scratch_file(Some("/a/b.txt"), &nobody, home, "/t", "source", 17, "txt").unwrap(),
        "/a/b.txt"
    );
    assert!(scratch_file(Some("b.txt"), &nobody, home, "/t", "source", 17, "txt").is_err());
    with_caller_cwd("/here", |scope: &Scope| {
        assert_eq!(destination(Some("a.png"), "", scope, home, "/t", 3).unwrap(), "/here/a.png");
    });
    assert!(destination(None, "~/shots", &nobody, home, "/t", 3)
        .unwrap()
        .starts_with("/home/me/shots/"));
    assert!(destination(None, "", &nobody, home, "/t", 3).unwrap().starts_with("/t/"));
}

#[test]
fn a_picture_that_never_came_says_so() {
    let shot = capture("/a.png".to_string(), "tab-1".to_string(), Some(Ok((8, 6)))).unwrap();
    assert_eq!((shot.width, shot.height, shot.label.as_str()), (8, 6, "tab-1"));
    assert_eq!(capture(String::new(), String::new(), Some(Err("no".into()))).unwrap_err(), "no");
    assert_eq!(
        capture(String::new(), String::new(), None).unwrap_err(),
        "the snapshot was dropped before it finished"
    );
}

#[test]
fn the_engine_is_set_up_as_configured() {
    let mut engine = Engine::default();
    let settings = configure(&engine);
    assert!(settings.javascript);
    assert_eq!(settings.font_size, 16);
    assert_eq!(settings.user_agent, None);
    engine.user_agent = " Mine ".to_string();
    assert_eq!(configure(&engine).user_agent.as_deref(), Some("Mine"));
    assert_eq!(proxy(&engine).unwrap(), None);
    engine.proxy = "socks5://127.0.0.1:1080".to_string();
    assert_eq!(proxy(&engine).unwrap().as_deref(), Some("socks5://127.0.0.1:1080"));
    engine.proxy = "127.0.0.1:1080".to_string();
    assert!(proxy(&engine).unwrap_err().contains("127.0.0.1:1080"));
    engine.spellcheck_languages = vec!["en_GB".to_string(), String::new()];
    assert_eq!(spellcheck_languages(&engine), vec!["en_GB".to_string()]);
    assert_eq!(cookie_policy(" Always ").unwrap(), CookieAcceptPolicy::Always);
    assert_eq!(cookie_policy("no-third-party").unwrap(), CookieAcceptPolicy::NoThirdParty);
    assert!(cookie_policy("sometimes").unwrap_err().contains("\"sometimes\""));
}

fn theme(name: &str, fingerprint: &str, opaque: bool) -> ThemeState {
    ThemeState {
        name: name.to_string(),
        mode: "dark".to_string(),
        colors: 16,
        chrome: String::new(),
        tint: (26, 27, 38),
        opaque,
        fingerprint: fingerprint.to_string(),
    }
}

#[test]
fn a_theme_that_did_not_change_is_not_painted_again() {
    let mut now = theme("one", "a", true);
    assert!(now.reload_theme(theme("one again", "a", true)).is_none());
    assert_eq!(now.name, "one");
    match now.reload_theme(theme("two", "b", false)) {
        Some(UiEvent::ThemeChanged { name, mode }) => {
            assert_eq!((name.as_str(), mode.as_str()), ("two", "dark"))
        }
        _ => panic!("the theme changed"),
    }
    assert_eq!(now.name, "two");
    assert_eq!(now.background_color(), (26, 27, 38, 0));
    assert_eq!(theme("one", "a", true).background_color(), (26, 27, 38, 255));
}
