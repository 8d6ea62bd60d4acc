use oma_browse::dispatch::{
    args_from_json, args_or_none, coerce, failure, label, primary_arg, upper_char, Arg, Prop, Tool,
};

#[test]
fn labels_split_group_from_command() {
    assert_eq!(label("page_zoom"), ("page".into(), "Zoom".into()));
    assert_eq!(label("nav_go"), ("nav".into(), "Go".into()));
    assert_eq!(label("solo"), (String::new(), "Solo".into()));
}

#[test]
fn integers_do_not_become_floats() {
    // A whole number field rejects 3.0, so this is the whole point.
    assert!(matches!(coerce("3", "number"), Arg::Integer(3)));
    assert!(matches!(coerce("-1", "integer"), Arg::Integer(-1)));
    assert!(matches!(coerce("1.5", "number"), Arg::Numeric(s) if s.parse::<f64>() == Ok(1.5)));
}

#[test]
fn bare_boolean_flags_mean_true() {
    assert!(matches!(coerce("", "boolean"), Arg::Flag(true)));
    assert!(matches!(coerce("off", "boolean"), Arg::Flag(false)));
}

#[test]
fn strings_survive_verbatim() {
    assert!(matches!(coerce(" https://a/b ", "string"), Arg::Text(s) if s == "https://a/b"));
}

#[test]
fn bad_binding_json_is_empty_not_fatal() {
    assert!(args_from_json("{").is_empty());
    let args = args_from_json(r#"{"delta":-1}"#);
    assert_eq!(args, vec![("delta".to_string(), "-1".to_string())]);
    assert!(args_or_none(None).is_empty());
    assert_eq!(args_or_none(Some(args.clone())), args);
}

#[test]
fn a_word_that_is_no_flag_stays_text() {
    assert!(matches!(coerce("maybe", "boolean"), Arg::Text(s) if s == "maybe"));
    assert!(matches!(coerce("YES", "boolean"), Arg::Text(_)));
}

fn prop(name: &str, kind: &str) -> Prop {
    Prop { name: name.to_string(), kind: Some(kind.to_string()), description: None }
}

#[test]
fn the_first_argument_worth_typing_is_the_primary_one() {
    let tool = Tool { name: "page_zoom".into(), props: Some(vec![prop("direction", "string")]) };
    let (name, kind, description) = primary_arg(&tool).unwrap();
    assert_eq!((name.as_str(), kind.as_str()), ("direction", "string"));
    assert!(description.is_none());
    assert!(primary_arg(&Tool { name: "nav_back".into(), props: None }).is_none());
}

#[test]
fn a_failure_names_the_fields_that_were_wrong() {
    assert_eq!(failure("no", &[]), "no");
    assert_eq!(failure("no", &["a".to_string(), "b".to_string()]), "no (a, b)");
    assert_eq!(upper_char('z'), 'Z');
    assert_eq!(upper_char('é'), 'é');
}

#[test]
fn an_address_that_would_not_open_is_named() {
    assert_eq!(
        oma_browse::dispatch::not_opened("https://a.test", "no window"),
        "could not open https://a.test: no window"
    );
}
