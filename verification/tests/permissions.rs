use oma_browse::permissions::{
    origin_of, path, remembered_origin, Decision, Kind, Pending, Permissions,
};

#[test]
fn nothing_decided_means_ask() {
    let p = Permissions::default();
    assert_eq!(p.decide("https://a.example", Kind::Camera), Decision::Ask);
}

#[test]
fn a_decision_is_per_origin_and_per_kind() {
    let mut p = Permissions::default();
    p.set("https://a.example", Kind::Microphone, true, 1);
    assert_eq!(p.decide("https://a.example", Kind::Microphone), Decision::Allow);
    // Saying yes to the microphone is not saying yes to the camera...
    assert_eq!(p.decide("https://a.example", Kind::Camera), Decision::Ask);
    // ...nor to anybody else.
    assert_eq!(p.decide("https://b.example", Kind::Microphone), Decision::Ask);
}

#[test]
fn deciding_again_replaces_rather_than_stacks() {
    let mut p = Permissions::default();
    p.set("https://a.example", Kind::Camera, true, 1);
    p.set("https://a.example", Kind::Camera, false, 2);
    assert_eq!(p.entries().len(), 1);
    assert_eq!(p.decide("https://a.example", Kind::Camera), Decision::Deny);
}

#[test]
fn forgetting_takes_one_kind_or_the_whole_origin() {
    let mut p = Permissions::default();
    p.set("https://a.example", Kind::Camera, true, 1);
    p.set("https://a.example", Kind::Microphone, true, 1);
    p.set("https://b.example", Kind::Camera, true, 1);

    assert_eq!(p.forget("https://a.example", Some(Kind::Camera)), 1);
    assert_eq!(p.decide("https://a.example", Kind::Microphone), Decision::Allow);

    assert_eq!(p.forget("https://a.example", None), 1);
    assert_eq!(p.forget("https://a.example", None), 0);
    // And nobody else's decisions moved.
    assert_eq!(p.decide("https://b.example", Kind::Camera), Decision::Allow);
}

#[test]
fn one_denial_denies_the_whole_request() {
    let mut p = Permissions::default();
    let both = [Kind::Camera, Kind::Microphone];
    assert_eq!(p.decide_all("https://a.example", &both), Decision::Ask);

    p.set("https://a.example", Kind::Camera, true, 1);
    // Half an answer is still a question.
    assert_eq!(p.decide_all("https://a.example", &both), Decision::Ask);

    p.set("https://a.example", Kind::Microphone, true, 1);
    assert_eq!(p.decide_all("https://a.example", &both), Decision::Allow);

    p.set("https://a.example", Kind::Microphone, false, 2);
    assert_eq!(p.decide_all("https://a.example", &both), Decision::Deny);

    // A request for nothing is not a request to say yes to.
    assert_eq!(p.decide_all("https://a.example", &[]), Decision::Deny);
}

#[test]
fn the_question_names_everything_it_is_asking_for() {
    let one = Pending { id: 1, origin: "https://a.example".into(), kinds: vec![Kind::Microphone] };
    assert_eq!(one.question(), "https://a.example wants to use your microphone -- allow or deny?");

    let two = Pending {
        id: 2,
        origin: "https://a.example".into(),
        kinds: vec![Kind::Camera, Kind::Microphone],
    };
    assert!(
        two.question().contains("to use your camera and to use your microphone"),
        "{}",
        two.question()
    );
}

#[test]
fn an_origin_is_scheme_host_and_port() {
    assert_eq!(origin_of("https://a.example/x?y=1#z").as_deref(), Some("https://a.example"));
    // A different port is a different site, and the default one is implicit.
    assert_eq!(
        origin_of("http://127.0.0.1:8901/index.html").as_deref(),
        Some("http://127.0.0.1:8901")
    );
    assert_eq!(origin_of("https://a.example:443/").as_deref(), Some("https://a.example"));
    // Nothing to remember a decision against.
    assert_eq!(origin_of("about:blank"), None);
    assert_eq!(origin_of("data:text/html,hi"), None);
    assert_eq!(origin_of("not a url"), None);
}

#[test]
fn every_kind_survives_a_round_trip_through_its_name() {
    for kind in Kind::ALL {
        assert_eq!(Kind::parse(kind.as_str()), Some(kind));
    }
    // What someone might actually type.
    assert_eq!(Kind::parse("Screen_Share"), Some(Kind::ScreenShare));
    assert_eq!(Kind::parse("  camera "), Some(Kind::Camera));
    assert_eq!(Kind::parse("cameras"), None);
}

#[test]
fn a_hand_edited_file_fails_closed() {
    // Only the literal word "allow" is a grant.
    let mut p = Permissions::default();
    p.set("https://a.example", Kind::Camera, false, 1);
    assert_eq!(p.decide("https://a.example", Kind::Camera), Decision::Deny);

    let mut granted = Permissions::default();
    granted.set("https://a.example", Kind::Camera, true, 1);
    let edited = granted.render().replace("allow", "Allow");
    let again = Permissions::load(Some(edited.as_str()));
    assert_ne!(again.decide("https://a.example", Kind::Camera), Decision::Allow);
}

#[test]
fn a_permissions_file_is_read_back() {
    let mut p = Permissions::default();
    p.set("https://a.example", Kind::Camera, true, 1);
    p.set("https://b.example", Kind::Geolocation, false, 2);
    let file = p.render();
    let again = Permissions::load(Some(file.as_str()));
    assert_eq!(again.entries().len(), 2);
    assert_eq!(again.decide("https://a.example", Kind::Camera), Decision::Allow);
    assert_eq!(again.decide("https://b.example", Kind::Geolocation), Decision::Deny);
    assert_eq!(again.entries()[0].decided, 2);
    assert_eq!(path("/s"), "/s/permissions");
    assert_eq!(remembered_origin(Some((false, "null".to_string()))), None);
    assert_eq!(Kind::Camera.phrase(), "to use your camera");
}
