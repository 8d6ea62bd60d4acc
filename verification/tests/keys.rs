use oma_browse::dispatch::{Arg, Prop};
use oma_browse::keys::{key_names, parse_chord, parse_command};

#[test]
fn a_chord_is_modifiers_and_one_key() {
    let c = parse_chord("ctrl+shift+t").unwrap();
    assert!(c.ctrl && !c.alt);
    assert_eq!(c.shift, Some(true));
    assert_eq!(c.keys, ["t", "T"], "both cases, because GTK reports the shifted name");

    let alt_left = parse_chord("alt+left").unwrap();
    assert!(alt_left.alt && !alt_left.ctrl);
    assert_eq!(alt_left.shift, Some(false));
    assert!(alt_left.keys.contains(&"Left".to_string()));
}

#[test]
fn the_zoom_keys_survive_being_written_as_symbols() {
    // `ctrl++` is the chord everyone writes for zoom in, and splitting on `+` naively
    // turns it into modifiers with no key at all.
    let plus = parse_chord("ctrl++").unwrap();
    assert!(plus.ctrl);
    assert!(plus.keys.contains(&"plus".to_string()));
    assert!(plus.keys.contains(&"KP_Add".to_string()), "and on the keypad");

    assert_eq!(parse_chord("ctrl+plus").unwrap().keys, parse_chord("ctrl++").unwrap().keys);
    assert!(parse_chord("ctrl+-").unwrap().keys.contains(&"minus".to_string()));
}

#[test]
fn an_unknown_key_is_passed_through_to_gdk() {
    // Not every keyval name will ever be in the table, and someone who has read
    // `gdkkeysyms.h` should not be blocked by that.
    assert_eq!(parse_chord("ctrl+ISO_Left_Tab").unwrap().keys, ["ISO_Left_Tab"]);
    assert_eq!(parse_chord("F5").unwrap().keys, ["F5"]);
}

#[test]
fn nonsense_chords_are_refused_rather_than_guessed_at() {
    assert!(parse_chord("").is_err());
    assert!(parse_chord("ctrl+shift").is_err(), "modifiers with no key");
    assert!(parse_chord("ctrl+a+b").is_err(), "two keys");
}

fn prop(name: &str, kind: &str) -> Prop {
    Prop { name: name.to_string(), kind: Some(kind.to_string()), description: None }
}

#[test]
fn a_command_carries_its_flags() {
    let props = vec![
        prop("action", "string"),
        prop("delta", "integer"),
        prop("background", "boolean"),
    ];

    let (tool, args) = parse_command("ui_palette --action toggle", Some(&props)).unwrap();
    assert_eq!(tool, "ui_palette");
    assert_eq!(args.len(), 1);
    assert_eq!(args[0].0, "action");
    assert!(matches!(&args[0].1, Arg::Text(s) if s == "toggle"));

    // Coerced against the schema, so the command receives a number.
    let (_, args) = parse_command("tab_cycle --delta -1", Some(&props)).unwrap();
    assert_eq!(args[0].0, "delta");
    assert!(matches!(args[0].1, Arg::Integer(-1)));

    // A boolean flag may stand alone.
    let (_, args) = parse_command("tab_open --background", Some(&props)).unwrap();
    assert_eq!(args[0].0, "background");
    assert!(matches!(args[0].1, Arg::Flag(true)));
}

#[test]
fn a_bare_command_takes_no_arguments() {
    let (tool, args) = parse_command("tab_reopen", None).unwrap();
    assert_eq!(tool, "tab_reopen");
    assert!(args.is_empty());
}

#[test]
fn a_stray_word_is_an_error_not_an_argument() {
    // Without this, `"nav_go example.com"` would silently bind a command with no
    // arguments and the URL would go nowhere.
    assert!(parse_command("nav_go example.com", None).is_err());
}

#[test]
fn a_key_is_every_name_it_may_arrive_under() {
    assert_eq!(key_names("+"), ["plus", "equal", "KP_Add"]);
    assert_eq!(key_names("t"), ["t", "T"]);
    assert!(parse_command("", None).is_err());
}

#[test]
fn the_order_of_a_chords_parts_does_not_matter() {
    let chord = parse_chord("ctrl+shift+t").unwrap();
    assert_eq!(parse_chord("shift+t+ctrl").unwrap(), chord);
    assert_eq!(parse_chord("t+Control+SHIFT").unwrap(), chord);
    assert!(parse_chord("a+ctrl+b").is_err() && parse_chord("b+a+ctrl").is_err());
}
