use oma_browse::config;
use oma_browse::dispatch::{Prop, Tool};
use oma_browse::layout::{
    asked, bindings, builtin, palette_size, plain_layout, press, Asked, Bound, Palette, When,
};

/// What half of a window's width, or the whole of it, asks for.
fn ideal(ratio: f64, window_width: i32) -> i32 {
    (f64::from(window_width) * ratio) as i32
}

fn width(p: &Palette, ratio: f64, w: i32, h: i32) -> i32 {
    palette_size(p, ideal(ratio, w), w, h).0
}

/// The card tracks the window between the bounds, and stays inside it outside them --
/// a card clipped by the overlay loses its right-hand edge and, on the tab rows, its
/// close button with it.
#[test]
fn the_card_tracks_the_window_width() {
    let p = config::Palette::default().card;

    assert_eq!(width(&p, 0.5, 1400, 900), 700);
    assert_eq!(width(&p, 0.5, 1000, 900), 500);

    // Bounded at both ends.
    assert_eq!(width(&p, 0.5, 3440, 900), p.max_width);
    assert_eq!(width(&p, 0.5, 700, 900), p.min_width);

    // And on a window too narrow for even the minimum, the margins win.
    let narrow = width(&p, 0.5, 360, 900);
    assert!(narrow < p.min_width, "{narrow} should have been squeezed");
    assert_eq!(narrow, 360 - 2 * p.side_margin);

    // A short window trims the card rather than overflowing the page.
    assert_eq!(palette_size(&p, 700, 1400, 900).1, p.height);
    assert!(palette_size(&p, 700, 1400, 500).1 < p.height);
    assert!(palette_size(&p, 700, 1400, 100).1 > 0);
}

/// A card configured wider than it is allowed to be is still a card: the bounds are
/// what keep a whole window's width from becoming a bar.
#[test]
fn the_configured_bounds_are_what_hold() {
    let wide = config::Palette::default().card;
    assert_eq!(width(&wide, 1.0, 1400, 900), wide.max_width);

    let roomy = Palette { max_width: 1200, ..config::Palette::default().card };
    assert_eq!(width(&roomy, 0.5, 1400, 900), 700, "the ratio still shapes it");
}

fn tool(name: &str, props: &[(&str, &str)]) -> Tool {
    Tool {
        name: name.to_string(),
        props: Some(
            props
                .iter()
                .map(|(n, k)| Prop {
                    name: n.to_string(),
                    kind: Some(k.to_string()),
                    description: None,
                })
                .collect(),
        ),
    }
}

fn catalog() -> Vec<Tool> {
    vec![
        tool("tab_open", &[("input", "string"), ("background", "boolean")]),
        tool("page_hints", &[("mode", "string")]),
        tool("tab_cycle", &[("delta", "integer")]),
    ]
}

fn lines(v: &[(&str, &str)]) -> Vec<(String, String)> {
    v.iter().map(|(a, b)| (a.to_string(), b.to_string())).collect()
}

fn bound_to(list: &[Bound], key: &str, ctrl: bool, shift: bool) -> Option<String> {
    list.iter().find(|b| b.matches(ctrl, false, shift, key)).map(|b| b.tool.clone())
}

/// What the config file may do to the table: replace, add, unbind.
#[test]
fn the_config_file_rebinds_adds_and_unbinds() {
    let (stock, _) = bindings(&Vec::new(), &catalog());
    assert_eq!(bound_to(&stock, "t", true, false).as_deref(), Some("tab_open"));

    let written = lines(&[
        ("ctrl+d", ""),
        ("ctrl+shift+j", "tab_cycle --delta -1"),
        ("ctrl+t", "page_hints"),
    ]);
    let (merged, said) = bindings(&written, &catalog());
    assert!(said.is_empty(), "{said:?}");

    assert_eq!(
        bound_to(&merged, "t", true, false).as_deref(),
        Some("page_hints"),
        "an addressed chord is replaced, not duplicated"
    );
    assert_eq!(
        merged.iter().filter(|b| b.matches(true, false, false, "t")).count(),
        1,
        "and exactly once"
    );
    assert_eq!(
        bound_to(&merged, "j", true, true).as_deref(),
        Some("tab_cycle"),
        "a chord nothing holds is added"
    );
    assert!(bound_to(&merged, "d", true, false).is_none(), "an empty command unbinds");
}

/// A broken line in the file loses that one binding and nothing else.
#[test]
fn a_bad_binding_is_skipped_and_reported() {
    let written = lines(&[
        ("ctrl+shift", "tab_open"), // no key
        ("ctrl+u", "tab_open --nonsense 1"),
        ("ctrl+y", "no_such_command"),
    ]);
    let (merged, complaints) = bindings(&written, &catalog());

    assert_eq!(complaints.len(), 3, "each bad line says so once");
    assert!(
        merged.iter().all(|b| b.tool != "no_such_command"),
        "a command that does not exist is never installed"
    );
    assert!(
        merged.iter().any(|b| b.matches(true, false, false, "t")),
        "and the rest of the table survives"
    );
}

/// Escape is the one key bound twice, and the split is the whole point: it dismisses
/// the palette when there is one, and otherwise stops the load *and lets the page have
/// the key*. A page whose modal cannot be closed is what the single unconditional
/// binding used to cause.
#[test]
fn escape_is_bound_once_per_palette_state() {
    let table = builtin();
    let escape: Vec<_> =
        table.iter().filter(|b| b.keys.contains(&"Escape".to_string())).collect();
    assert_eq!(escape.len(), 2, "Escape needs one binding per palette state");

    let open = escape.iter().find(|b| b.when == When::PaletteOpen).expect("no palette-open Escape");
    let closed =
        escape.iter().find(|b| b.when == When::PaletteClosed).expect("no palette-closed Escape");

    assert_eq!(open.tool, "ui_palette");
    assert!(!open.propagate, "the palette's own Escape is not the page's business");
    assert_eq!(closed.tool, "nav_stop");
    assert!(closed.propagate, "the page must still see Escape");

    // Propagation is the exception, not a thing to reach for: anything else the
    // browser binds, it owns outright.
    let propagating: Vec<&str> =
        table.iter().filter(|b| b.propagate).map(|b| b.tool.as_str()).collect();
    assert_eq!(propagating, vec!["nav_stop"]);
}

/// Two bindings that can both fire on the same keystroke: the second is dead, because
/// the handler takes the first match. `when` splits Escape legitimately; anything else
/// sharing a chord is a mistake.
#[test]
fn no_two_bindings_claim_the_same_chord() {
    let table = builtin();
    for (i, b) in table.iter().enumerate() {
        for other in &table[i + 1..] {
            let same_mods = b.ctrl == other.ctrl && b.alt == other.alt;
            let same_shift = match (b.shift, other.shift) {
                (Some(x), Some(y)) => x == y,
                _ => true,
            };
            let overlaps =
                [true, false].iter().any(|&open| b.when.applies(open) && other.when.applies(open));
            let shared = b.keys.iter().any(|k| other.keys.contains(k));
            assert!(
                !(same_mods && same_shift && overlaps && shared),
                "{} and {} both claim the same chord; the second can never fire",
                b.tool,
                other.tool
            );
        }
    }
}

/// Two chords that differ only by Shift must both be reachable: a `None` shift earlier
/// in the table would shadow the `Some(true)` entry after it.
#[test]
fn shift_variants_are_not_shadowed() {
    let table = builtin();
    for (i, b) in table.iter().enumerate() {
        let Some(_) = b.shift else { continue };
        let shadowed = table[..i].iter().any(|earlier| {
            earlier.ctrl == b.ctrl
                && earlier.alt == b.alt
                && earlier.shift.is_none()
                && earlier.keys.iter().any(|k| b.keys.contains(k))
        });
        assert!(!shadowed, "{} is unreachable behind an earlier binding", b.tool);
    }
}

#[test]
fn a_key_press_runs_the_first_binding_that_answers() {
    let table = builtin();
    let open = press(&table, false, false, false, "Escape", true).unwrap();
    assert_eq!((open.tool.as_str(), open.propagate), ("ui_palette", false));
    let closed = press(&table, false, false, false, "Escape", false).unwrap();
    assert_eq!((closed.tool.as_str(), closed.propagate), ("nav_stop", true));
    assert!(press(&table, true, true, true, "Hyper_L", false).is_none());
}

#[test]
fn a_line_of_the_file_says_what_to_change() {
    assert!(matches!(asked("ctrl+t", "", &catalog()), Asked::Unbind(_)));
    assert!(matches!(asked("ctrl+t", "tab_open", &catalog()), Asked::Bind(_, t, _) if t == "tab_open"));
    assert!(matches!(asked("ctrl", "tab_open", &catalog()), Asked::Complain(_)));
    assert!(plain_layout(true, None));
    assert!(plain_layout(false, Some("plain")));
    assert!(!plain_layout(false, Some("fancy")));
}
