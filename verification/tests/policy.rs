use oma_browse::permissions::{Kind, Permissions};
use oma_browse::policy::{
    certificate_for, certificates, describe, failures, host_of, kinds_of, logins, matches_host,
    popups, rule, rule_for, trusted_by_config, worth_a_page, Certificate, Challenge, LoadError,
    Login, Logins, NetworkError, PolicyError, Popup, Refusals, Requests, TlsCertificateFlags,
    Verdict, Wish,
};

#[test]
fn a_trusted_host_is_matched_by_name() {
    assert!(matches_host("staging.example", "staging.example"));
    assert!(matches_host("STAGING.example", "staging.example"));
    assert!(!matches_host("staging.example", "other.example"));
    // An empty entry in the list must not trust the empty host.
    assert!(!matches_host("", ""));
    assert!(!matches_host("  ", "anything"));
}

#[test]
fn a_star_matches_one_level_and_no_more() {
    assert!(matches_host("*.test", "api.test"));
    // Not the bare domain, and not two levels down: a wildcard that grew extra levels
    // is a wildcard that trusts more than it was given.
    assert!(!matches_host("*.test", "test"));
    assert!(!matches_host("*.test", "a.b.test"));
    assert!(!matches_host("*.test", "nottest"));
    assert!(!matches_host("*.test", ".test"));
}

#[test]
fn a_host_comes_out_of_a_uri() {
    assert_eq!(host_of("https://staging.example:8443/a/b"), "staging.example");
    assert_eq!(host_of("not a uri"), "");
}

fn flags() -> TlsCertificateFlags {
    TlsCertificateFlags {
        unknown_ca: false,
        bad_identity: false,
        not_activated: false,
        expired: true,
        revoked: false,
        insecure: false,
    }
}

#[test]
fn a_certificate_is_let_through_only_for_a_host_you_trust() {
    let trust = vec!["*.test".to_string()];
    let uri = "https://api.test/";
    assert!(matches!(certificates(uri, &trust, flags()), Certificate::Trusted(h) if h == "api.test"));
    match certificates("https://api.example/", &trust, flags()) {
        Certificate::Refused(refused) => {
            assert_eq!(refused.host, "api.example");
            assert_eq!(refused.uri, "https://api.example/");
            assert_eq!(refused.reasons.len(), 1);
        }
        _ => panic!("nobody trusted api.example"),
    }
    assert!(matches!(
        certificate_for("a.test".to_string(), "x", &trust, flags()),
        Certificate::Trusted(_)
    ));
    assert!(trusted_by_config(&trust, "a.test"));
    assert!(!trusted_by_config(&trust, "test"));
    let none = TlsCertificateFlags { expired: false, ..flags() };
    assert_eq!(describe(none), vec!["it did not check out".to_string()]);
}

#[test]
fn a_refused_host_can_be_allowed_once_it_was_refused() {
    let mut refusals = Refusals::new();
    assert!(!refusals.allow_host("a.test"));
    refusals.keep("a.test");
    assert!(refusals.allow_host("a.test"));
    assert!(!refusals.allow_host("b.test"));
}

#[test]
fn a_load_that_was_only_cancelled_gets_no_page() {
    assert!(worth_a_page(LoadError::Network(NetworkError::Cancelled)).is_none());
    assert!(worth_a_page(LoadError::Abandoned).is_none());
    assert!(worth_a_page(LoadError::Policy(PolicyError::CannotShowMimeType)).is_none());
    assert_eq!(worth_a_page(LoadError::Other), Some("could not be reached."));
    let error = LoadError::Network(NetworkError::FileDoesNotExist);
    let html = failures(error, "https://a.test/x", "No <such> file", None).unwrap();
    assert!(html.contains("is not there."), "{html}");
    assert!(html.contains("No &lt;such&gt; file"), "{html}");
    assert!(failures(LoadError::Abandoned, "https://a.test/", "", None).is_none());
}

#[test]
fn a_link_gets_a_tab_and_a_script_gets_a_window() {
    assert!(matches!(popups(None, true, true), Popup::Nothing));
    assert!(matches!(popups(Some("about:blank"), true, true), Popup::Nothing));
    assert!(matches!(popups(Some("https://a.test"), false, true), Popup::Window(_)));
    assert!(matches!(
        popups(Some("https://a.test"), true, true),
        Popup::Tab { background: false, .. }
    ));
    assert!(matches!(
        popups(Some("https://a.test"), true, false),
        Popup::Tab { background: true, .. }
    ));
}

#[test]
fn asking_for_the_screen_is_not_asking_for_the_camera() {
    let screen = Wish::Media { display: true, video: false, audio: false };
    assert_eq!(kinds_of(screen), Some(vec![Kind::ScreenShare]));
    let both = Wish::Media { display: false, video: true, audio: true };
    assert_eq!(kinds_of(both), Some(vec![Kind::Camera, Kind::Microphone]));
    assert_eq!(kinds_of(Wish::Other), None);
}

#[test]
fn only_what_was_decided_is_allowed() {
    let mut store = Permissions::default();
    let uri = Some("https://a.test/page");
    assert_eq!(rule(&store, uri, Wish::Geolocation), Verdict::Ask);
    store.set("https://a.test", Kind::Geolocation, true, 1);
    assert_eq!(rule(&store, uri, Wish::Geolocation), Verdict::Allow);
    assert_eq!(rule(&store, uri, Wish::Notification), Verdict::Ask);
    assert_eq!(rule(&store, Some("about:blank"), Wish::Geolocation), Verdict::Deny);
    assert_eq!(rule(&store, uri, Wish::Other), Verdict::Leave);
    assert_eq!(rule_for(&store, None, Wish::Geolocation), Verdict::Deny);
}

#[test]
fn answering_one_question_leaves_the_others() {
    let mut requests = Requests::new();
    let (first, question) = requests.ask("https://a.test".to_string(), vec![Kind::Camera]);
    let (second, _) = requests.ask("https://b.test".to_string(), vec![Kind::Camera]);
    assert_eq!(question, "https://a.test wants to use your camera -- allow or deny?");
    assert_ne!(first, second);
    assert_eq!(requests.front().map(|p| p.id), Some(first));
    requests.forget(first);
    assert_eq!(requests.front().map(|p| p.id), Some(second));
    assert!(requests.answer(first));
    assert!(!requests.answer(first), "once");
    assert!(requests.answer(second));
}

#[test]
fn a_login_is_remembered_until_it_is_refused() {
    let mut known = Logins::new();
    let challenge = Challenge {
        host: "a.test".to_string(),
        port: 443,
        realm: "staff".to_string(),
        uri: "https://a.test/".to_string(),
        retry: false,
    };
    assert_eq!(challenge.key(), "a.test:443");
    assert!(matches!(logins(&mut known, false, &challenge), Login::Page));
    known.remember_login("a.test:443", "me", "pw");
    assert!(matches!(logins(&mut known, false, &challenge), Login::Answer(u, p) if u == "me" && p == "pw"));
    assert!(matches!(logins(&mut known, true, &challenge), Login::Leave));
    let again = Challenge { retry: true, ..challenge };
    assert!(matches!(logins(&mut known, false, &again), Login::Page));
    assert!(known.stored_login("a.test:443").is_none(), "a wrong password is not kept");
    known.remember_login("b", "x", "y");
    known.forget_login("b");
    assert!(known.stored_login("b").is_none());
}
