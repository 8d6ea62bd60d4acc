//! Chords, as written in the config file.
//!
//! `"ctrl+shift+t" = "tab_reopen"` has to become the same thing the built-in
//! table holds: modifier flags, a set of key names, a tool, and its arguments.
//! Two halves, both here: the chord on the left of the `=`, and the command on
//! the right.
//!
//! Key names are GDK's, and deliberately so at the bottom end: anything not
//! recognised here is passed through untouched, so `"ctrl+ISO_Left_Tab"` works
//! for someone who knows what they want.

use vstd::prelude::*;

use crate::dispatch;
use crate::list;
use crate::text;

verus! {

/// A chord, read out of a config key.
#[derive(Debug, Clone, PartialEq)]
pub struct Chord {
    pub ctrl: bool,
    pub alt: bool,
    /// `Some(true)` when the chord says `shift+`, `Some(false)` when it does
    /// not. Never `None`: only the built-in table has chords that do not care,
    /// and it says so by hand.
    pub shift: Option<bool>,
    /// Every key name this chord should match.
    pub keys: Vec<String>,
}

/// A chord as values.
pub struct Press {
    pub ctrl: bool,
    pub alt: bool,
    pub shift: Option<bool>,
    pub keys: Seq<Seq<char>>,
}

impl View for Chord {
    type V = Press;

    open spec fn view(&self) -> Press {
        Press {
            ctrl: self.ctrl,
            alt: self.alt,
            shift: self.shift,
            keys: text::texts(self.keys@),
        }
    }
}

pub open spec fn is_ctrl(word: Seq<char>) -> bool {
    text::lowered(word) == "ctrl"@ || text::lowered(word) == "control"@
}

pub open spec fn is_alt(word: Seq<char>) -> bool {
    text::lowered(word) == "alt"@ || text::lowered(word) == "meta"@ || text::lowered(word)
        == "mod1"@
}

pub open spec fn is_shift(word: Seq<char>) -> bool {
    text::lowered(word) == "shift"@
}

/// A chord without the plus sign at its end, and whether that sign names the
/// plus key: `ctrl++` is Ctrl and plus.
pub open spec fn chord_body(cleaned: Seq<char>) -> (Seq<char>, bool) {
    match text::without_suffix(cleaned, "+"@) {
        Some(rest) if rest.len() > 0 => (rest, true),
        _ => (cleaned, false),
    }
}

/// What stands between the plus signs.
pub open spec fn chord_words(body: Seq<char>) -> Seq<Seq<char>> {
    list::kept(
        text::pieces(body, '+').map_values(|p: Seq<char>| text::trimmed(p)),
        |w: Seq<char>| w.len() > 0,
    )
}

/// The keys a chord names: every word that is not a modifier, and the plus sign
/// at its end.
pub open spec fn chord_keys(words: Seq<Seq<char>>, plus: bool) -> Seq<Seq<char>> {
    let named = list::kept(
        words,
        |w: Seq<char>| !is_ctrl(w) && !is_alt(w) && !is_shift(w),
    );
    if plus {
        named.push("plus"@)
    } else {
        named
    }
}

/// The chord a text spells, or what is wrong with it.
pub open spec fn chord_of(spec_text: Seq<char>) -> Result<Press, Seq<char>> {
    let cleaned = text::trimmed(spec_text);
    let (body, plus) = chord_body(cleaned);
    let words = chord_words(body);
    let keys = chord_keys(words, plus);
    if cleaned.len() == 0 {
        Err("empty chord"@)
    } else if keys.len() > 1 {
        Err(text::shown(spec_text) + " names more than one key"@)
    } else if keys.len() == 0 {
        Err(text::shown(spec_text) + " is modifiers with no key"@)
    } else {
        Ok(
            Press {
                ctrl: exists|i: int| 0 <= i < words.len() && is_ctrl(#[trigger] words[i]),
                alt: exists|i: int|
                    0 <= i < words.len() && is_alt(#[trigger] words[i]) && !is_ctrl(words[i]),
                shift: Some(
                    exists|i: int|
                        0 <= i < words.len() && is_shift(#[trigger] words[i]) && !is_ctrl(words[i])
                            && !is_alt(words[i]),
                ),
                keys: key_set(keys[0]),
            },
        )
    }
}

/// Every key name a written key stands for.
pub open spec fn key_set(key: Seq<char>) -> Seq<Seq<char>> {
    let lower = text::lowered(key);
    if lower == "plus"@ || lower == "+"@ {
        seq!["plus"@, "equal"@, "KP_Add"@]
    } else if lower == "minus"@ || lower == "-"@ {
        seq!["minus"@, "underscore"@, "KP_Subtract"@]
    } else if lower == "space"@ {
        seq!["space"@, "KP_Space"@]
    } else if lower == "enter"@ || lower == "return"@ {
        seq!["Return"@, "KP_Enter"@]
    } else if lower == "escape"@ || lower == "esc"@ {
        seq!["Escape"@]
    } else if lower == "tab"@ {
        seq!["Tab"@, "ISO_Left_Tab"@]
    } else if lower == "backspace"@ {
        seq!["BackSpace"@]
    } else if lower == "delete"@ || lower == "del"@ {
        seq!["Delete"@, "KP_Delete"@]
    } else if lower == "left"@ {
        seq!["Left"@, "KP_Left"@]
    } else if lower == "right"@ {
        seq!["Right"@, "KP_Right"@]
    } else if lower == "up"@ {
        seq!["Up"@, "KP_Up"@]
    } else if lower == "down"@ {
        seq!["Down"@, "KP_Down"@]
    } else if lower == "home"@ {
        seq!["Home"@, "KP_Home"@]
    } else if lower == "end"@ {
        seq!["End"@, "KP_End"@]
    } else if lower == "pageup"@ || lower == "page_up"@ || lower == "prior"@ {
        seq!["Page_Up"@, "Prior"@, "KP_Page_Up"@, "KP_Prior"@]
    } else if lower == "pagedown"@ || lower == "page_down"@ || lower == "next"@ {
        seq!["Page_Down"@, "Next"@, "KP_Page_Down"@, "KP_Next"@]
    } else if key.len() == 1 && ('a' <= key[0] <= 'z' || 'A' <= key[0] <= 'Z') {
        seq![seq![text::lower(key[0])], seq![dispatch::upper(key[0])]]
    } else if key.len() == 1 && '0' <= key[0] <= '9' {
        seq![key, "KP_"@ + key]
    } else {
        seq![key]
    }
}

pub(crate) fn one(a: &str) -> (r: Vec<String>)
    ensures
        text::texts(r@) == seq![a@],
{
    let mut out: Vec<String> = Vec::new();
    out.push(a.to_owned());
    assert(text::texts(out@) =~= seq![a@]);
    out
}

pub(crate) fn two(a: &str, b: &str) -> (r: Vec<String>)
    ensures
        text::texts(r@) == seq![a@, b@],
{
    let mut out = one(a);
    let ghost before = out@;
    out.push(b.to_owned());
    assert(text::texts(out@) =~= text::texts(before).push(b@));
    out
}

pub(crate) fn three(a: &str, b: &str, c: &str) -> (r: Vec<String>)
    ensures
        text::texts(r@) == seq![a@, b@, c@],
{
    let mut out = two(a, b);
    let ghost before = out@;
    out.push(c.to_owned());
    assert(text::texts(out@) =~= text::texts(before).push(c@));
    out
}

pub(crate) fn four(a: &str, b: &str, c: &str, d: &str) -> (r: Vec<String>)
    ensures
        text::texts(r@) == seq![a@, b@, c@, d@],
{
    let mut out = three(a, b, c);
    let ghost before = out@;
    out.push(d.to_owned());
    assert(text::texts(out@) =~= text::texts(before).push(d@));
    out
}

/// Every key name a written key should match.
///
/// A letter matches both cases because the shifted name is reported when Shift
/// is down; a digit and the zoom keys match their keypad twins, because a chord
/// that works on the number row and not the keypad is a bug report.
pub fn key_names(key: &str) -> (r: Vec<String>)
    ensures
        text::texts(r@) == key_set(key@),
{
    let lower = text::to_lower(key);
    let word = lower.as_str();
    if text::same(word, "plus") || text::same(word, "+") {
        return three("plus", "equal", "KP_Add");
    }
    if text::same(word, "minus") || text::same(word, "-") {
        return three("minus", "underscore", "KP_Subtract");
    }
    if text::same(word, "space") {
        return two("space", "KP_Space");
    }
    if text::same(word, "enter") || text::same(word, "return") {
        return two("Return", "KP_Enter");
    }
    if text::same(word, "escape") || text::same(word, "esc") {
        return one("Escape");
    }
    if text::same(word, "tab") {
        return two("Tab", "ISO_Left_Tab");
    }
    if text::same(word, "backspace") {
        return one("BackSpace");
    }
    if text::same(word, "delete") || text::same(word, "del") {
        return two("Delete", "KP_Delete");
    }
    if text::same(word, "left") {
        return two("Left", "KP_Left");
    }
    if text::same(word, "right") {
        return two("Right", "KP_Right");
    }
    if text::same(word, "up") {
        return two("Up", "KP_Up");
    }
    if text::same(word, "down") {
        return two("Down", "KP_Down");
    }
    if text::same(word, "home") {
        return two("Home", "KP_Home");
    }
    if text::same(word, "end") {
        return two("End", "KP_End");
    }
    if text::same(word, "pageup") || text::same(word, "page_up") || text::same(word, "prior") {
        return four("Page_Up", "Prior", "KP_Page_Up", "KP_Prior");
    }
    if text::same(word, "pagedown") || text::same(word, "page_down") || text::same(word, "next") {
        return four("Page_Down", "Next", "KP_Page_Down", "KP_Next");
    }
    let chars = text::chars_of(key);
    if chars.len() == 1 {
        let c = chars[0];
        if ('a' <= c && c <= 'z') || ('A' <= c && c <= 'Z') {
            let mut small = String::new();
            small.push(text::lower_char(c));
            let mut large = String::new();
            large.push(dispatch::upper_char(c));
            assert(small@ =~= seq![text::lower(c)]);
            assert(large@ =~= seq![dispatch::upper(c)]);
            return two(small.as_str(), large.as_str());
        }
        if '0' <= c && c <= '9' {
            let mut pad = "KP_".to_owned();
            pad.append(key);
            return two(key, pad.as_str());
        }
    }
    // Anything else is handed on as written: `F5`, `ISO_Left_Tab`, and whatever
    // else someone found in `gdkkeysyms.h`.
    one(key)
}

/// Turn `"ctrl+shift+t"` into modifiers and key names.
pub fn parse_chord(written: &str) -> (r: Result<Chord, String>)
    ensures
        match r {
            Ok(chord) => chord_of(written@) == Ok::<Press, Seq<char>>(chord@),
            Err(why) => chord_of(written@) == Err::<Press, Seq<char>>(why@),
        },
{
    let cleaned = text::trim(written);
    if cleaned.as_str().is_empty() {
        return Err("empty chord".to_owned());
    }
    let (body, plus) = match text::strip_suffix(cleaned.as_str(), "+") {
        Some(rest) => if rest.as_str().is_empty() {
            (cleaned, false)
        } else {
            (rest, true)
        },
        None => (cleaned, false),
    };
    let parts = text::split(body.as_str(), '+');
    let ghost trims = text::pieces(body@, '+').map_values(|p: Seq<char>| text::trimmed(p));
    let ghost filled = |w: Seq<char>| w.len() > 0;
    let ghost named = |w: Seq<char>| !is_ctrl(w) && !is_alt(w) && !is_shift(w);
    let ghost words = list::kept(trims, filled);
    let mut ctrl = false;
    let mut alt = false;
    let mut shift = false;
    let mut keys: Vec<String> = Vec::new();
    let mut i: usize = 0;
    let ghost mut seen: Seq<Seq<char>> = list::kept(trims.take(0), filled);
    assert(text::texts(keys@) =~= list::kept(seen, named));
    while i < parts.len()
        invariant
            i <= parts.len(),
            text::texts(parts@) == text::pieces(body@, '+'),
            trims == text::pieces(body@, '+').map_values(|p: Seq<char>| text::trimmed(p)),
            filled == (|w: Seq<char>| w.len() > 0),
            named == (|w: Seq<char>| !is_ctrl(w) && !is_alt(w) && !is_shift(w)),
            seen == list::kept(trims.take(i as int), filled),
            text::texts(keys@) == list::kept(seen, named),
            ctrl == exists|j: int| 0 <= j < seen.len() && is_ctrl(#[trigger] seen[j]),
            alt == exists|j: int|
                0 <= j < seen.len() && is_alt(#[trigger] seen[j]) && !is_ctrl(seen[j]),
            shift == exists|j: int|
                0 <= j < seen.len() && is_shift(#[trigger] seen[j]) && !is_ctrl(seen[j]) && !is_alt(
                    seen[j],
                ),
        decreases parts.len() - i,
    {
        let part = text::trim(parts[i].as_str());
        assert(text::texts(parts@)[i as int] == parts@[i as int]@);
        assert(trims[i as int] == part@);
        assert(trims.take(i + 1).drop_last() =~= trims.take(i as int));
        if !part.as_str().is_empty() {
            let ghost before = seen;
            let ghost grown = seen.push(part@);
            assert(grown.drop_last() =~= seen);
            assert(grown[grown.len() - 1] == part@);
            assert forall|j: int| 0 <= j < before.len() implies grown[j] == before[j] by {}
            let lower = text::to_lower(part.as_str());
            let word = lower.as_str();
            if text::same(word, "ctrl") || text::same(word, "control") {
                assert(is_ctrl(part@));
                ctrl = true;
            } else if text::same(word, "alt") || text::same(word, "meta") || text::same(
                word,
                "mod1",
            ) {
                assert(is_alt(part@) && !is_ctrl(part@));
                alt = true;
            } else if text::same(word, "shift") {
                assert(is_shift(part@) && !is_ctrl(part@) && !is_alt(part@));
                shift = true;
            } else {
                let ghost old_keys = keys@;
                keys.push(part);
                assert(text::texts(keys@) =~= text::texts(old_keys).push(part@));
            }
            proof {
                seen = grown;
                lemma_any_grown(before, part@, |w: Seq<char>| is_ctrl(w));
                lemma_any_grown(before, part@, |w: Seq<char>| is_alt(w) && !is_ctrl(w));
                lemma_any_grown(
                    before,
                    part@,
                    |w: Seq<char>| is_shift(w) && !is_ctrl(w) && !is_alt(w),
                );
            }
        }
        i += 1;
    }
    assert(trims.take(i as int) =~= trims);
    if plus {
        let ghost old_keys = keys@;
        keys.push("plus".to_owned());
        assert(text::texts(keys@) =~= text::texts(old_keys).push("plus"@));
    }
    assert(text::texts(keys@) == chord_keys(words, plus));
    assert(text::texts(keys@).len() == keys@.len());
    if keys.len() > 1 {
        let mut why = text::show(written);
        why.append(" names more than one key");
        return Err(why);
    }
    if keys.len() == 0 {
        let mut why = text::show(written);
        why.append(" is modifiers with no key");
        return Err(why);
    }
    assert(text::texts(keys@)[0] == keys@[0]@);
    Ok(Chord { ctrl, alt, shift: Some(shift), keys: key_names(keys[0].as_str()) })
}

/// Whether any of a list and one more is wanted.
proof fn lemma_any_grown<T>(s: Seq<T>, item: T, want: spec_fn(T) -> bool)
    ensures
        (exists|i: int| 0 <= i < s.push(item).len() && want(#[trigger] s.push(item)[i])) == (want(
            item,
        ) || exists|i: int| 0 <= i < s.len() && want(#[trigger] s[i])),
{
    let grown = s.push(item);
    if want(item) {
        assert(want(grown[s.len() as int]));
    }
    if exists|i: int| 0 <= i < s.len() && want(#[trigger] s[i]) {
        let i = choose|i: int| 0 <= i < s.len() && want(#[trigger] s[i]);
        assert(grown[i] == s[i]);
        assert(want(grown[i]));
    }
    if exists|i: int| 0 <= i < grown.len() && want(#[trigger] grown[i]) {
        let i = choose|i: int| 0 <= i < grown.len() && want(#[trigger] grown[i]);
        if i < s.len() {
            assert(grown[i] == s[i]);
            assert(want(s[i]));
        }
    }
}

// ---------------------------------------------------------------------------
// The command on the right
// ---------------------------------------------------------------------------

/// The arguments of a command, by name, in the order of the names.
pub open spec fn given(args: Seq<(String, dispatch::Arg)>) -> Seq<(Seq<char>, dispatch::Given)> {
    args.map_values(|a: (String, dispatch::Arg)| (a.0@, a.1@))
}

/// The arguments with one of them set, whatever it was before.
pub open spec fn with_arg(
    args: Seq<(Seq<char>, dispatch::Given)>,
    name: Seq<char>,
    value: dispatch::Given,
) -> Seq<(Seq<char>, dispatch::Given)>
    decreases args.len(),
{
    if args.len() == 0 {
        seq![(name, value)]
    } else if args[0].0 == name {
        args.update(0, (name, value))
    } else if text::precedes(name, args[0].0) {
        seq![(name, value)] + args
    } else {
        seq![args[0]] + with_arg(args.drop_first(), name, value)
    }
}

/// The type of the argument with a name: text, unless the schema says otherwise.
pub open spec fn type_named(
    fields: Option<Seq<dispatch::Field>>,
    name: Seq<char>,
) -> Seq<char> {
    match fields {
        Some(list) => match list::first_where(list, |f: dispatch::Field| f.name == name) {
            Some(i) => dispatch::kind_of(list[i]),
            None => "string"@,
        },
        None => "string"@,
    }
}

/// The arguments a list of words spells, added to those there are already, or
/// what is wrong with it.
pub open spec fn read_args(
    rest: Seq<Seq<char>>,
    fields: Option<Seq<dispatch::Field>>,
    args: Seq<(Seq<char>, dispatch::Given)>,
) -> Result<Seq<(Seq<char>, dispatch::Given)>, Seq<char>>
    decreases rest.len(),
{
    if rest.len() == 0 {
        Ok(args)
    } else {
        match text::without_prefix(rest[0], "--"@) {
            Some(raw) => {
                let name = text::swapped(raw, '-', '_');
                let kind = type_named(fields, name);
                if kind == "boolean"@ && (rest.len() == 1 || text::has_prefix(rest[1], "--"@)) {
                    read_args(
                        rest.skip(1),
                        fields,
                        with_arg(args, name, dispatch::Given::Flag(true)),
                    )
                } else if rest.len() == 1 {
                    Err("--"@ + name + " has no value"@)
                } else {
                    read_args(
                        rest.skip(2),
                        fields,
                        with_arg(args, name, dispatch::coerced(rest[1], kind)),
                    )
                }
            },
            None => Err(text::shown(rest[0]) + " is not a --flag"@),
        }
    }
}

/// The tool and the arguments a command spells, or what is wrong with it.
pub open spec fn command_of(
    written: Seq<char>,
    fields: Option<Seq<dispatch::Field>>,
) -> Result<(Seq<char>, Seq<(Seq<char>, dispatch::Given)>), Seq<char>> {
    let words = text::words(written);
    if words.len() == 0 {
        Err("no command"@)
    } else {
        match read_args(words.skip(1), fields, Seq::empty()) {
            Ok(args) => Ok((words[0], args)),
            Err(why) => Err(why),
        }
    }
}

fn set_arg(args: &mut Vec<(String, dispatch::Arg)>, name: String, value: dispatch::Arg)
    ensures
        given(final(args)@) == with_arg(given(old(args)@), name@, value@),
{
    let ghost all = given(args@);
    let mut i: usize = 0;
    proof {
        assert(all.skip(0) =~= all);
        assert(all.take(0) + with_arg(all, name@, value@) =~= with_arg(all, name@, value@));
    }
    while i < args.len() && args[i].0 != name && !text::before(name.as_str(), args[i].0.as_str())
        invariant
            i <= args.len(),
            all == given(args@),
            all == given(old(args)@),
            all.take(i as int) + with_arg(all.skip(i as int), name@, value@) == with_arg(
                all,
                name@,
                value@,
            ),
        decreases args.len() - i,
    {
        let ghost rest = all.skip(i as int);
        assert(rest[0] == all[i as int]);
        assert(all[i as int].0 == args@[i as int].0@);
        assert(rest.drop_first() =~= all.skip(i + 1));
        assert(all.take(i + 1) =~= all.take(i as int).push(all[i as int]));
        assert(all.take(i as int) + (seq![rest[0]] + with_arg(all.skip(i + 1), name@, value@))
            =~= all.take(i + 1) + with_arg(all.skip(i + 1), name@, value@));
        i += 1;
    }
    let ghost rest = all.skip(i as int);
    if i < args.len() && args[i].0 == name {
        assert(rest[0] == all[i as int]);
        assert(all[i as int].0 == args@[i as int].0@);
        let _old = args.remove(i);
        args.insert(i, (name, value));
        assert(given(args@) =~= all.take(i as int) + rest.update(0, (name@, value@)));
    } else {
        if i < args.len() {
            assert(rest[0] == all[i as int]);
            assert(all[i as int].0 == args@[i as int].0@);
        }
        args.insert(i, (name, value));
        assert(given(args@) =~= all.take(i as int) + (seq![(name@, value@)] + rest));
        proof {
            if rest.len() == 0 {
                assert(seq![(name@, value@)] + rest =~= seq![(name@, value@)]);
            }
        }
    }
}

fn type_of(props: Option<&Vec<dispatch::Prop>>, name: &str) -> (r: String)
    ensures
        r@ == type_named(
            match props {
                Some(list) => Some(dispatch::fields(list@)),
                None => None,
            },
            name@,
        ),
{
    let list = match props {
        Some(list) => list,
        None => return "string".to_owned(),
    };
    let ghost want = |f: dispatch::Field| f.name == name@;
    let mut i: usize = 0;
    while i < list.len()
        invariant
            i <= list.len(),
            props == Some(list),
            want == (|f: dispatch::Field| f.name == name@),
            forall|j: int| 0 <= j < i ==> !want(#[trigger] dispatch::fields(list@)[j]),
        decreases list.len() - i,
    {
        assert(dispatch::fields(list@)[i as int] == list@[i as int]@);
        if text::same(list[i].name.as_str(), name) {
            proof {
                list::lemma_first_where(dispatch::fields(list@), want, i as int);
            }
            return match &list[i].kind {
                Some(kind) => kind.clone(),
                None => "string".to_owned(),
            };
        }
        i += 1;
    }
    proof {
        list::lemma_first_where(dispatch::fields(list@), want, i as int);
    }
    "string".to_owned()
}

/// Split `"ui_palette --action toggle"` into the tool and its arguments.
///
/// The flag spelling is the command line's, because that is what the command is
/// documented as everywhere else. Values are coerced against the command's own
/// schema, so `--delta -1` is a number and `--background true` is a flag.
pub fn parse_command(
    written: &str,
    props: Option<&Vec<dispatch::Prop>>,
) -> (r: Result<(String, Vec<(String, dispatch::Arg)>), String>)
    ensures
        ({
            let said = command_of(
                written@,
                match props {
                    Some(list) => Some(dispatch::fields(list@)),
                    None => None,
                },
            );
            match r {
                Ok((tool, args)) => said == Ok::<
                    (Seq<char>, Seq<(Seq<char>, dispatch::Given)>),
                    Seq<char>,
                >((tool@, given(args@))),
                Err(why) => said == Err::<
                    (Seq<char>, Seq<(Seq<char>, dispatch::Given)>),
                    Seq<char>,
                >(why@),
            }
        }),
{
    let words = text::split_words(written);
    let ghost said = text::texts(words@);
    let ghost fields = match props {
        Some(list) => Some(dispatch::fields(list@)),
        None => None,
    };
    assert forall|j: int| 0 <= j < words@.len() implies said[j] == #[trigger] words@[j]@ by {}
    if words.len() == 0 {
        return Err("no command".to_owned());
    }
    let mut args: Vec<(String, dispatch::Arg)> = Vec::new();
    let mut i: usize = 1;
    assert(given(args@) =~= Seq::<(Seq<char>, dispatch::Given)>::empty());
    while i < words.len()
        invariant
            1 <= i <= words.len(),
            said == text::texts(words@),
            said == text::words(written@),
            forall|j: int| 0 <= j < words@.len() ==> said[j] == #[trigger] words@[j]@,
            fields == match props {
                Some(list) => Some(dispatch::fields(list@)),
                None => None,
            },
            read_args(said.skip(i as int), fields, given(args@)) == read_args(
                said.skip(1),
                fields,
                Seq::empty(),
            ),
        decreases words.len() - i,
    {
        let ghost rest = said.skip(i as int);
        assert(rest[0] == words@[i as int]@);
        let raw = match text::strip_prefix(words[i].as_str(), "--") {
            Some(raw) => raw,
            None => {
                let mut why = text::show(words[i].as_str());
                why.append(" is not a --flag");
                return Err(why);
            },
        };
        let name = text::swap_char(raw.as_str(), '-', '_');
        let kind = type_of(props, name.as_str());
        // A flag may stand alone: `--background` means true.
        let alone = i + 1 >= words.len() || text::starts_with(words[i + 1].as_str(), "--");
        if i + 1 < words.len() {
            assert(rest[1] == words@[i + 1]@);
        }
        if text::same(kind.as_str(), "boolean") && alone {
            set_arg(&mut args, name, dispatch::Arg::Flag(true));
            assert(rest.skip(1) =~= said.skip(i + 1));
            i += 1;
        } else if i + 1 >= words.len() {
            let mut why = "--".to_owned();
            why.append(name.as_str());
            why.append(" has no value");
            return Err(why);
        } else {
            let value = dispatch::coerce(words[i + 1].as_str(), kind.as_str());
            set_arg(&mut args, name, value);
            assert(rest.skip(2) =~= said.skip(i + 2));
            i += 2;
        }
    }
    assert(said.skip(i as int).len() == 0);
    Ok((words[0].clone(), args))
}

// ---------------------------------------------------------------------------
// Laws
// ---------------------------------------------------------------------------

proof fn lemma_any_permuted(a: Seq<Seq<char>>, b: Seq<Seq<char>>, want: spec_fn(Seq<char>) -> bool)
    requires
        a.to_multiset() == b.to_multiset(),
    ensures
        (exists|i: int| 0 <= i < a.len() && want(#[trigger] a[i])) == (exists|i: int|
            0 <= i < b.len() && want(#[trigger] b[i])),
{
    broadcast use vstd::seq_lib::group_to_multiset_ensures;

    if exists|i: int| 0 <= i < a.len() && want(#[trigger] a[i]) {
        let i = choose|i: int| 0 <= i < a.len() && want(#[trigger] a[i]);
        assert(a.contains(a[i]));
        assert(b.to_multiset().count(a[i]) > 0);
        let j = choose|j: int| 0 <= j < b.len() && b[j] == a[i];
        assert(want(b[j]));
    }
    if exists|i: int| 0 <= i < b.len() && want(#[trigger] b[i]) {
        let i = choose|i: int| 0 <= i < b.len() && want(#[trigger] b[i]);
        assert(b.contains(b[i]));
        assert(a.to_multiset().count(b[i]) > 0);
        let j = choose|j: int| 0 <= j < a.len() && a[j] == b[i];
        assert(want(a[j]));
    }
}

/// What stands between the plus signs of a chord has no white space around it and
/// no plus sign in it.
proof fn lemma_chord_words(body: Seq<char>)
    ensures
        forall|i: int|
            0 <= i < chord_words(body).len() ==> is_word(#[trigger] chord_words(body)[i]),
{
    let filled = |w: Seq<char>| w.len() > 0;
    let split = text::pieces(body, '+');
    let trims = split.map_values(|p: Seq<char>| text::trimmed(p));
    text::lemma_pieces_are_plain(body, '+');
    list::lemma_kept(trims, filled);
    let words = chord_words(body);
    assert forall|i: int| 0 <= i < words.len() implies is_word(#[trigger] words[i]) by {
        assert(filled(words[i]));
        assert(trims.contains(words[i]));
        let k = choose|k: int| 0 <= k < trims.len() && trims[k] == words[i];
        assert(words[i] == text::trimmed(split[k]));
        text::lemma_trimmed_ends(split[k]);
        assert(!split[k].contains('+'));
        assert forall|j: int| 0 <= j < words[i].len() implies words[i][j] != '+' by {
            assert(split[k].contains(text::trimmed(split[k])[j]));
        }
    }
}

/// Whether this can be one word of a chord.
pub open spec fn is_word(word: Seq<char>) -> bool {
    &&& word.len() > 0
    &&& !text::is_space(word[0])
    &&& !text::is_space(word.last())
    &&& !word.contains('+')
}

proof fn lemma_joined_ends(parts: Seq<Seq<char>>)
    requires
        parts.len() > 0,
        forall|i: int| 0 <= i < parts.len() ==> is_word(#[trigger] parts[i]),
    ensures
        text::joined(parts, seq!['+']).len() > 0,
        text::joined(parts, seq!['+'])[0] == parts[0][0],
        text::joined(parts, seq!['+']).last() == parts.last().last(),
    decreases parts.len(),
{
    assert(is_word(parts[0]));
    assert(is_word(parts[parts.len() - 1]));
    if parts.len() > 1 {
        let front = parts.drop_last();
        assert forall|i: int| 0 <= i < front.len() implies is_word(#[trigger] front[i]) by {
            assert(front[i] == parts[i]);
        }
        lemma_joined_ends(front);
    }
}

proof fn lemma_words_of_joined(parts: Seq<Seq<char>>)
    requires
        parts.len() > 0,
        forall|i: int| 0 <= i < parts.len() ==> is_word(#[trigger] parts[i]),
    ensures
        ({
            let written = text::joined(parts, seq!['+']);
            &&& text::trimmed(written) == written
            &&& chord_body(written) == (written, false)
            &&& chord_words(written) == parts
        }),
{
    let written = text::joined(parts, seq!['+']);
    lemma_joined_ends(parts);
    assert(is_word(parts[0]));
    let last = parts[parts.len() - 1];
    assert(is_word(last));
    assert(last.contains(last[last.len() - 1]));
    reveal_strlit("+");
    assert(written.last() != '+');
    assert(!text::has_suffix(written, "+"@)) by {
        if text::has_suffix(written, "+"@) {
            assert("+"@[0] == written[written.len() - 1]);
        }
    }
    assert forall|i: int| 0 <= i < parts.len() implies !(#[trigger] parts[i]).contains('+') by {
        assert(is_word(parts[i]));
    }
    text::lemma_pieces_of_joined(parts, '+');
    let trims = parts.map_values(|p: Seq<char>| text::trimmed(p));
    assert forall|i: int| 0 <= i < parts.len() implies #[trigger] trims[i] == parts[i] by {
        assert(is_word(parts[i]));
    }
    assert(trims =~= parts);
    let filled = |w: Seq<char>| w.len() > 0;
    assert forall|i: int| 0 <= i < parts.len() implies filled(#[trigger] parts[i]) by {
        assert(is_word(parts[i]));
    }
    lemma_all_kept(parts, filled);
}

proof fn lemma_all_kept<T>(s: Seq<T>, keep: spec_fn(T) -> bool)
    requires
        forall|i: int| 0 <= i < s.len() ==> keep(#[trigger] s[i]),
    ensures
        list::kept(s, keep) == s,
    decreases s.len(),
{
    if s.len() > 0 {
        let front = s.drop_last();
        assert forall|i: int| 0 <= i < front.len() implies keep(#[trigger] front[i]) by {
            assert(front[i] == s[i]);
        }
        lemma_all_kept(front, keep);
        assert(keep(s[s.len() - 1]));
        assert(front.push(s.last()) =~= s);
    } else {
        assert(s =~= Seq::empty());
    }
}

/// The order of a chord's parts does not matter: written in another order, a chord
/// is the same chord, and one that is refused is refused.
pub proof fn law_order_does_not_matter(written: Seq<char>, parts: Seq<Seq<char>>)
    requires
        !text::has_suffix(text::trimmed(written), "+"@),
        parts.to_multiset() == chord_words(text::trimmed(written)).to_multiset(),
    ensures
        match chord_of(written) {
            Ok(press) => chord_of(text::joined(parts, seq!['+'])) == Ok::<Press, Seq<char>>(press),
            Err(_) => chord_of(text::joined(parts, seq!['+'])) is Err,
        },
{
    broadcast use vstd::seq_lib::group_to_multiset_ensures;

    let cleaned = text::trimmed(written);
    let words = chord_words(cleaned);
    assert(chord_body(cleaned) == (cleaned, false));
    lemma_chord_words(cleaned);
    words.to_multiset_ensures();
    parts.to_multiset_ensures();
    assert(words.len() == parts.len());
    if parts.len() == 0 {
        assert(chord_keys(words, false).len() == 0);
        let other = text::joined(parts, seq!['+']);
        assert(other =~= Seq::empty());
        assert(text::trimmed(other) =~= Seq::empty());
    } else {
        assert forall|i: int| 0 <= i < parts.len() implies is_word(#[trigger] parts[i]) by {
            assert(parts.contains(parts[i]));
            assert(words.to_multiset().count(parts[i]) > 0);
            let k = choose|k: int| 0 <= k < words.len() && words[k] == parts[i];
            assert(is_word(words[k]));
        }
        lemma_words_of_joined(parts);
        lemma_joined_ends(parts);
        let named = |w: Seq<char>| !is_ctrl(w) && !is_alt(w) && !is_shift(w);
        list::lemma_kept_multiset(words, named);
        list::lemma_kept_multiset(parts, named);
        let keys = chord_keys(words, false);
        let others = chord_keys(parts, false);
        assert(keys.to_multiset() == others.to_multiset());
        keys.to_multiset_ensures();
        others.to_multiset_ensures();
        assert(keys.len() == others.len());
        if keys.len() == 1 {
            assert(keys.contains(keys[0]));
            assert(others.to_multiset().count(keys[0]) > 0);
            assert(others.contains(keys[0]));
            assert(others[0] == keys[0]);
        }
        lemma_any_permuted(words, parts, |w: Seq<char>| is_ctrl(w));
        lemma_any_permuted(words, parts, |w: Seq<char>| is_alt(w) && !is_ctrl(w));
        lemma_any_permuted(
            words,
            parts,
            |w: Seq<char>| is_shift(w) && !is_ctrl(w) && !is_alt(w),
        );
        assert(cleaned.len() > 0) by {
            if cleaned.len() == 0 {
                let trims = text::pieces(cleaned, '+').map_values(
                    |p: Seq<char>| text::trimmed(p),
                );
                assert(trims =~= seq![Seq::<char>::empty()]);
                list::lemma_kept(trims, |w: Seq<char>| w.len() > 0);
                assert(words[0].len() > 0);
                assert(trims.contains(words[0]));
            }
        }
    }
}

/// A chord that is taken names a key, under at least one name.
pub proof fn law_a_chord_has_a_key(written: Seq<char>)
    ensures
        match chord_of(written) {
            Ok(press) => press.keys.len() > 0 && press.shift is Some,
            Err(_) => true,
        },
{
}

/// A key may be written as its symbol or as its word, and by its short name or its long
/// one. It is every name it may arrive under, on the keypad too.
pub proof fn law_symbols_and_words_name_keys()
    ensures
        key_set("plus"@) == seq!["plus"@, "equal"@, "KP_Add"@],
        key_set("+"@) == seq!["plus"@, "equal"@, "KP_Add"@],
        key_set("minus"@) == seq!["minus"@, "underscore"@, "KP_Subtract"@],
        key_set("-"@) == seq!["minus"@, "underscore"@, "KP_Subtract"@],
        key_set("space"@) == seq!["space"@, "KP_Space"@],
        key_set("enter"@) == seq!["Return"@, "KP_Enter"@],
        key_set("return"@) == seq!["Return"@, "KP_Enter"@],
        key_set("escape"@) == seq!["Escape"@],
        key_set("esc"@) == seq!["Escape"@],
        key_set("tab"@) == seq!["Tab"@, "ISO_Left_Tab"@],
        key_set("backspace"@) == seq!["BackSpace"@],
        key_set("delete"@) == seq!["Delete"@, "KP_Delete"@],
        key_set("del"@) == seq!["Delete"@, "KP_Delete"@],
{
    reveal_strlit("plus");
    reveal_strlit("+");
    reveal_strlit("minus");
    reveal_strlit("-");
    reveal_strlit("space");
    reveal_strlit("enter");
    reveal_strlit("return");
    reveal_strlit("escape");
    reveal_strlit("esc");
    reveal_strlit("tab");
    reveal_strlit("backspace");
    reveal_strlit("delete");
    reveal_strlit("del");
    reveal_strlit("left");
    reveal_strlit("right");
    reveal_strlit("up");
    reveal_strlit("down");
    reveal_strlit("home");
    reveal_strlit("end");
    reveal_strlit("pageup");
    reveal_strlit("page_up");
    reveal_strlit("prior");
    reveal_strlit("pagedown");
    reveal_strlit("page_down");
    reveal_strlit("next");
    assert("plus"@.len() == 4 && "plus"@[0] == 'p' && "plus"@[3] == 's');
    assert("+"@.len() == 1 && "+"@[0] == '+' && "+"@[0] == '+');
    assert("minus"@.len() == 5 && "minus"@[0] == 'm' && "minus"@[4] == 's');
    assert("-"@.len() == 1 && "-"@[0] == '-' && "-"@[0] == '-');
    assert("space"@.len() == 5 && "space"@[0] == 's' && "space"@[4] == 'e');
    assert("enter"@.len() == 5 && "enter"@[0] == 'e' && "enter"@[4] == 'r');
    assert("return"@.len() == 6 && "return"@[0] == 'r' && "return"@[5] == 'n');
    assert("escape"@.len() == 6 && "escape"@[0] == 'e' && "escape"@[5] == 'e');
    assert("esc"@.len() == 3 && "esc"@[0] == 'e' && "esc"@[2] == 'c');
    assert("tab"@.len() == 3 && "tab"@[0] == 't' && "tab"@[2] == 'b');
    assert("backspace"@.len() == 9 && "backspace"@[0] == 'b' && "backspace"@[8] == 'e');
    assert("delete"@.len() == 6 && "delete"@[0] == 'd' && "delete"@[5] == 'e');
    assert("del"@.len() == 3 && "del"@[0] == 'd' && "del"@[2] == 'l');
    assert("left"@.len() == 4 && "left"@[0] == 'l' && "left"@[3] == 't');
    assert("right"@.len() == 5 && "right"@[0] == 'r' && "right"@[4] == 't');
    assert("up"@.len() == 2 && "up"@[0] == 'u' && "up"@[1] == 'p');
    assert("down"@.len() == 4 && "down"@[0] == 'd' && "down"@[3] == 'n');
    assert("home"@.len() == 4 && "home"@[0] == 'h' && "home"@[3] == 'e');
    assert("end"@.len() == 3 && "end"@[0] == 'e' && "end"@[2] == 'd');
    assert("pageup"@.len() == 6 && "pageup"@[0] == 'p' && "pageup"@[5] == 'p');
    assert("page_up"@.len() == 7 && "page_up"@[0] == 'p' && "page_up"@[6] == 'p');
    assert("prior"@.len() == 5 && "prior"@[0] == 'p' && "prior"@[4] == 'r');
    assert("pagedown"@.len() == 8 && "pagedown"@[0] == 'p' && "pagedown"@[7] == 'n');
    assert("page_down"@.len() == 9 && "page_down"@[0] == 'p' && "page_down"@[8] == 'n');
    assert("next"@.len() == 4 && "next"@[0] == 'n' && "next"@[3] == 't');
    assert(text::lowered("plus"@) =~= "plus"@);
    assert(text::lowered("+"@) =~= "+"@);
    assert(text::lowered("minus"@) =~= "minus"@);
    assert(text::lowered("-"@) =~= "-"@);
    assert(text::lowered("space"@) =~= "space"@);
    assert(text::lowered("enter"@) =~= "enter"@);
    assert(text::lowered("return"@) =~= "return"@);
    assert(text::lowered("escape"@) =~= "escape"@);
    assert(text::lowered("esc"@) =~= "esc"@);
    assert(text::lowered("tab"@) =~= "tab"@);
    assert(text::lowered("backspace"@) =~= "backspace"@);
    assert(text::lowered("delete"@) =~= "delete"@);
    assert(text::lowered("del"@) =~= "del"@);
}

/// The keys that move go by where they move to.
pub proof fn law_directions_name_keys()
    ensures
        key_set("left"@) == seq!["Left"@, "KP_Left"@],
        key_set("right"@) == seq!["Right"@, "KP_Right"@],
        key_set("up"@) == seq!["Up"@, "KP_Up"@],
        key_set("down"@) == seq!["Down"@, "KP_Down"@],
        key_set("home"@) == seq!["Home"@, "KP_Home"@],
        key_set("end"@) == seq!["End"@, "KP_End"@],
        key_set("pageup"@) == seq!["Page_Up"@, "Prior"@, "KP_Page_Up"@, "KP_Prior"@],
        key_set("page_up"@) == seq!["Page_Up"@, "Prior"@, "KP_Page_Up"@, "KP_Prior"@],
        key_set("prior"@) == seq!["Page_Up"@, "Prior"@, "KP_Page_Up"@, "KP_Prior"@],
        key_set("pagedown"@) == seq!["Page_Down"@, "Next"@, "KP_Page_Down"@, "KP_Next"@],
        key_set("page_down"@) == seq!["Page_Down"@, "Next"@, "KP_Page_Down"@, "KP_Next"@],
        key_set("next"@) == seq!["Page_Down"@, "Next"@, "KP_Page_Down"@, "KP_Next"@],
{
    reveal_strlit("plus");
    reveal_strlit("+");
    reveal_strlit("minus");
    reveal_strlit("-");
    reveal_strlit("space");
    reveal_strlit("enter");
    reveal_strlit("return");
    reveal_strlit("escape");
    reveal_strlit("esc");
    reveal_strlit("tab");
    reveal_strlit("backspace");
    reveal_strlit("delete");
    reveal_strlit("del");
    reveal_strlit("left");
    reveal_strlit("right");
    reveal_strlit("up");
    reveal_strlit("down");
    reveal_strlit("home");
    reveal_strlit("end");
    reveal_strlit("pageup");
    reveal_strlit("page_up");
    reveal_strlit("prior");
    reveal_strlit("pagedown");
    reveal_strlit("page_down");
    reveal_strlit("next");
    assert("plus"@.len() == 4 && "plus"@[0] == 'p' && "plus"@[3] == 's');
    assert("+"@.len() == 1 && "+"@[0] == '+' && "+"@[0] == '+');
    assert("minus"@.len() == 5 && "minus"@[0] == 'm' && "minus"@[4] == 's');
    assert("-"@.len() == 1 && "-"@[0] == '-' && "-"@[0] == '-');
    assert("space"@.len() == 5 && "space"@[0] == 's' && "space"@[4] == 'e');
    assert("enter"@.len() == 5 && "enter"@[0] == 'e' && "enter"@[4] == 'r');
    assert("return"@.len() == 6 && "return"@[0] == 'r' && "return"@[5] == 'n');
    assert("escape"@.len() == 6 && "escape"@[0] == 'e' && "escape"@[5] == 'e');
    assert("esc"@.len() == 3 && "esc"@[0] == 'e' && "esc"@[2] == 'c');
    assert("tab"@.len() == 3 && "tab"@[0] == 't' && "tab"@[2] == 'b');
    assert("backspace"@.len() == 9 && "backspace"@[0] == 'b' && "backspace"@[8] == 'e');
    assert("delete"@.len() == 6 && "delete"@[0] == 'd' && "delete"@[5] == 'e');
    assert("del"@.len() == 3 && "del"@[0] == 'd' && "del"@[2] == 'l');
    assert("left"@.len() == 4 && "left"@[0] == 'l' && "left"@[3] == 't');
    assert("right"@.len() == 5 && "right"@[0] == 'r' && "right"@[4] == 't');
    assert("up"@.len() == 2 && "up"@[0] == 'u' && "up"@[1] == 'p');
    assert("down"@.len() == 4 && "down"@[0] == 'd' && "down"@[3] == 'n');
    assert("home"@.len() == 4 && "home"@[0] == 'h' && "home"@[3] == 'e');
    assert("end"@.len() == 3 && "end"@[0] == 'e' && "end"@[2] == 'd');
    assert("pageup"@.len() == 6 && "pageup"@[0] == 'p' && "pageup"@[5] == 'p');
    assert("page_up"@.len() == 7 && "page_up"@[0] == 'p' && "page_up"@[6] == 'p');
    assert("prior"@.len() == 5 && "prior"@[0] == 'p' && "prior"@[4] == 'r');
    assert("pagedown"@.len() == 8 && "pagedown"@[0] == 'p' && "pagedown"@[7] == 'n');
    assert("page_down"@.len() == 9 && "page_down"@[0] == 'p' && "page_down"@[8] == 'n');
    assert("next"@.len() == 4 && "next"@[0] == 'n' && "next"@[3] == 't');
    assert(text::lowered("left"@) =~= "left"@);
    assert(text::lowered("right"@) =~= "right"@);
    assert(text::lowered("up"@) =~= "up"@);
    assert(text::lowered("down"@) =~= "down"@);
    assert(text::lowered("home"@) =~= "home"@);
    assert(text::lowered("end"@) =~= "end"@);
    assert(text::lowered("pageup"@) =~= "pageup"@);
    assert(text::lowered("page_up"@) =~= "page_up"@);
    assert(text::lowered("prior"@) =~= "prior"@);
    assert(text::lowered("pagedown"@) =~= "pagedown"@);
    assert(text::lowered("page_down"@) =~= "page_down"@);
    assert(text::lowered("next"@) =~= "next"@);
}

/// A letter is both its cases, whichever it is written in, a digit is itself and the one
/// on the keypad, and the case a name is written in does not matter where it is known.
pub proof fn law_letters_and_digits_name_keys(c: char)
    ensures
        'a' <= c <= 'z' ==> key_set(seq![c]) == seq![seq![c], seq![dispatch::upper(c)]],
        'a' <= c <= 'z' ==> key_set(seq![dispatch::upper(c)]) == key_set(seq![c]),
        '0' <= c <= '9' ==> key_set(seq![c]) == seq![seq![c], "KP_"@ + seq![c]],
{
    reveal_strlit("plus");
    reveal_strlit("+");
    reveal_strlit("minus");
    reveal_strlit("-");
    reveal_strlit("space");
    reveal_strlit("enter");
    reveal_strlit("return");
    reveal_strlit("escape");
    reveal_strlit("esc");
    reveal_strlit("tab");
    reveal_strlit("backspace");
    reveal_strlit("delete");
    reveal_strlit("del");
    reveal_strlit("left");
    reveal_strlit("right");
    reveal_strlit("up");
    reveal_strlit("down");
    reveal_strlit("home");
    reveal_strlit("end");
    reveal_strlit("pageup");
    reveal_strlit("page_up");
    reveal_strlit("prior");
    reveal_strlit("pagedown");
    reveal_strlit("page_down");
    reveal_strlit("next");
    assert("plus"@.len() == 4 && "plus"@[0] == 'p' && "plus"@[3] == 's');
    assert("+"@.len() == 1 && "+"@[0] == '+' && "+"@[0] == '+');
    assert("minus"@.len() == 5 && "minus"@[0] == 'm' && "minus"@[4] == 's');
    assert("-"@.len() == 1 && "-"@[0] == '-' && "-"@[0] == '-');
    assert("space"@.len() == 5 && "space"@[0] == 's' && "space"@[4] == 'e');
    assert("enter"@.len() == 5 && "enter"@[0] == 'e' && "enter"@[4] == 'r');
    assert("return"@.len() == 6 && "return"@[0] == 'r' && "return"@[5] == 'n');
    assert("escape"@.len() == 6 && "escape"@[0] == 'e' && "escape"@[5] == 'e');
    assert("esc"@.len() == 3 && "esc"@[0] == 'e' && "esc"@[2] == 'c');
    assert("tab"@.len() == 3 && "tab"@[0] == 't' && "tab"@[2] == 'b');
    assert("backspace"@.len() == 9 && "backspace"@[0] == 'b' && "backspace"@[8] == 'e');
    assert("delete"@.len() == 6 && "delete"@[0] == 'd' && "delete"@[5] == 'e');
    assert("del"@.len() == 3 && "del"@[0] == 'd' && "del"@[2] == 'l');
    assert("left"@.len() == 4 && "left"@[0] == 'l' && "left"@[3] == 't');
    assert("right"@.len() == 5 && "right"@[0] == 'r' && "right"@[4] == 't');
    assert("up"@.len() == 2 && "up"@[0] == 'u' && "up"@[1] == 'p');
    assert("down"@.len() == 4 && "down"@[0] == 'd' && "down"@[3] == 'n');
    assert("home"@.len() == 4 && "home"@[0] == 'h' && "home"@[3] == 'e');
    assert("end"@.len() == 3 && "end"@[0] == 'e' && "end"@[2] == 'd');
    assert("pageup"@.len() == 6 && "pageup"@[0] == 'p' && "pageup"@[5] == 'p');
    assert("page_up"@.len() == 7 && "page_up"@[0] == 'p' && "page_up"@[6] == 'p');
    assert("prior"@.len() == 5 && "prior"@[0] == 'p' && "prior"@[4] == 'r');
    assert("pagedown"@.len() == 8 && "pagedown"@[0] == 'p' && "pagedown"@[7] == 'n');
    assert("page_down"@.len() == 9 && "page_down"@[0] == 'p' && "page_down"@[8] == 'n');
    assert("next"@.len() == 4 && "next"@[0] == 'n' && "next"@[3] == 't');
    let s = seq![c];
    let big = seq![dispatch::upper(c)];
    assert(text::lowered(s).len() == 1 && text::lowered(s)[0] == text::lower(c));
    assert(text::lowered(big).len() == 1 && text::lowered(big)[0] == text::lower(
        dispatch::upper(c),
    ));
}

/// The words for the keys held down, in any case.
pub proof fn law_modifiers_go_by_the_word(word: Seq<char>)
    ensures
        is_ctrl("ctrl"@) && is_ctrl("control"@),
        is_alt("alt"@) && is_alt("meta"@) && is_alt("mod1"@),
        is_shift("shift"@),
        is_ctrl(word) == is_ctrl(text::lowered(word)),
        is_alt(word) == is_alt(text::lowered(word)),
        is_shift(word) == is_shift(text::lowered(word)),
        !(is_ctrl(word) && is_alt(word)) && !(is_ctrl(word) && is_shift(word)) && !(is_alt(word)
            && is_shift(word)),
{
    reveal_strlit("ctrl");
    reveal_strlit("control");
    reveal_strlit("alt");
    reveal_strlit("meta");
    reveal_strlit("mod1");
    reveal_strlit("shift");
    assert("ctrl"@.len() == 4);
    assert("control"@.len() == 7);
    assert("alt"@.len() == 3);
    assert("meta"@.len() == 4);
    assert("mod1"@.len() == 4);
    assert("shift"@.len() == 5);
    assert("ctrl"@[0] == 'c');
    assert("meta"@[0] == 'm' && "meta"@[1] == 'e');
    assert("mod1"@[0] == 'm' && "mod1"@[1] == 'o');
    assert(text::lowered("ctrl"@) =~= "ctrl"@);
    assert(text::lowered("control"@) =~= "control"@);
    assert(text::lowered("alt"@) =~= "alt"@);
    assert(text::lowered("meta"@) =~= "meta"@);
    assert(text::lowered("mod1"@) =~= "mod1"@);
    assert(text::lowered("shift"@) =~= "shift"@);
    assert(text::lowered(text::lowered(word)) =~= text::lowered(word));
}

/// A field has the kind that the first field of its name declares. A name that no field has
/// stands for text.
pub proof fn law_first_field_of_the_name_gives_the_kind(
    front: Seq<dispatch::Field>,
    field: dispatch::Field,
    back: Seq<dispatch::Field>,
)
    requires
        forall|i: int| 0 <= i < front.len() ==> (#[trigger] front[i]).name != field.name,
    ensures
        type_named(Some(front + seq![field] + back), field.name) == dispatch::kind_of(field),
        type_named(Some(front), field.name) == "string"@,
        type_named(None, field.name) == "string"@,
{
    let name = field.name;
    let want = |f: dispatch::Field| f.name == name;
    let all = front + seq![field] + back;
    assert forall|j: int| 0 <= j < front.len() implies !want(#[trigger] all[j]) by {
        assert(all[j] == front[j]);
    }
    assert(all[front.len() as int] == field);
    list::lemma_first_where(all, want, front.len() as int);
    list::lemma_first_where(front, want, front.len() as int);
}

} // verus!
