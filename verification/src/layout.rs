//! The keyboard, and the size of the card the palette is drawn on.
//!
//! The only thing a key knows is a tool name and its arguments. Adding a command
//! is therefore enough to make it reachable from the keyboard.

use vstd::prelude::*;

use crate::dispatch;
use crate::keys;
use crate::list;
use crate::text;

verus! {

/// Height of the tab strip, in pixels, unless the config file says otherwise.
pub const STRIP_HEIGHT: i32 = 26;

/// The measures of the card the palette is drawn on, in pixels.
#[derive(Debug, Clone, Copy, PartialEq, Eq, Structural)]
pub struct Palette {
    pub min_width: i32,
    pub max_width: i32,
    /// Kept clear on either side.
    pub side_margin: i32,
    pub height: i32,
    pub min_height: i32,
    pub top_margin: i32,
    pub bottom_margin: i32,
}

/// A number brought within bounds.
pub open spec fn clamped(n: int, low: int, high: int) -> int {
    if n < low {
        low
    } else if n > high {
        high
    } else {
        n
    }
}

pub open spec fn smaller(a: int, b: int) -> int {
    if a <= b {
        a
    } else {
        b
    }
}

pub open spec fn larger(a: int, b: int) -> int {
    if a >= b {
        a
    } else {
        b
    }
}

/// The card's size for a window of the given size.
///
/// `ideal` is the share of the window's width the config asks for. It is what
/// shapes the card; the bounds keep it a card at both extremes, and the margins
/// win over the minimum, because a card wider than the window is clipped rather
/// than centred in it.
pub fn palette_size(p: &Palette, ideal: i32, window_width: i32, window_height: i32) -> (r: (
    i32,
    i32,
))
    requires
        p.min_width <= p.max_width,
        p.min_height <= p.height,
        i32::MIN <= 2 * p.side_margin <= i32::MAX,
        i32::MIN <= window_width - 2 * p.side_margin <= i32::MAX,
        i32::MIN <= window_height - p.top_margin <= i32::MAX,
        i32::MIN <= window_height - p.top_margin - p.bottom_margin <= i32::MAX,
    ensures
        r.0 == smaller(
            clamped(ideal as int, p.min_width as int, p.max_width as int),
            larger(window_width - 2 * p.side_margin, 1),
        ),
        r.1 == clamped(
            window_height - p.top_margin - p.bottom_margin,
            p.min_height as int,
            p.height as int,
        ),
{
    let mut room: i32 = window_width - 2 * p.side_margin;
    if room < 1 {
        room = 1;
    }
    let mut width = ideal;
    if width < p.min_width {
        width = p.min_width;
    } else if width > p.max_width {
        width = p.max_width;
    }
    if width > room {
        width = room;
    }
    let mut height: i32 = window_height - p.top_margin - p.bottom_margin;
    if height < p.min_height {
        height = p.min_height;
    } else if height > p.height {
        height = p.height;
    }
    (width, height)
}

/// Whether the window is left as the toolkit lays it out: an escape hatch for
/// bisecting rendering problems, from the config file or from `OMA_LAYOUT`.
pub fn plain_layout(configured: bool, layout: Option<&str>) -> (r: bool)
    ensures
        r == (configured || (layout matches Some(word) && word@ == "plain"@)),
{
    match layout {
        Some(word) => configured || text::same(word, "plain"),
        None => configured,
    }
}

/// What has to be true for a chord to fire.
///
/// Escape is the only key whose meaning depends on what is on screen, but the
/// condition belongs in the table rather than in the handler: the point of the
/// table is that reading it tells you the whole keyboard.
#[derive(Clone, Copy, PartialEq, Eq, Debug, Structural)]
pub enum When {
    Always,
    PaletteOpen,
    PaletteClosed,
}

impl When {
    pub open spec fn holds(self, palette_open: bool) -> bool {
        match self {
            When::Always => true,
            When::PaletteOpen => palette_open,
            When::PaletteClosed => !palette_open,
        }
    }

    pub fn applies(self, palette_open: bool) -> (r: bool)
        ensures
            r == self.holds(palette_open),
    {
        match self {
            When::Always => true,
            When::PaletteOpen => palette_open,
            When::PaletteClosed => !palette_open,
        }
    }
}

/// A binding as it is actually installed: the built-in table with the config
/// file's `[keys]` merged over it.
#[derive(Debug)]
pub struct Bound {
    pub ctrl: bool,
    pub alt: bool,
    /// `None` when Shift is not part of the chord.
    pub shift: Option<bool>,
    /// Key names. Both letter cases are listed because the shifted name (`"T"`)
    /// is reported when Shift is down.
    pub keys: Vec<String>,
    /// A tool name from the catalog: the command path joined with `_`.
    pub tool: String,
    pub args: Vec<(String, dispatch::Arg)>,
    /// What has to be on screen for this chord to mean anything.
    pub when: When,
    /// Whether the page sees the key as well.
    ///
    /// Off for everything the browser owns outright: a page must not also act on
    /// Ctrl-W. On only for Escape with the palette down: Escape means "close
    /// your modal" or "leave fullscreen" to a page at least as often as it means
    /// "stop loading" to us, and swallowing it breaks both.
    pub propagate: bool,
}

/// A binding as values.
pub struct Row {
    pub ctrl: bool,
    pub alt: bool,
    pub shift: Option<bool>,
    pub keys: Seq<Seq<char>>,
    pub tool: Seq<char>,
    pub args: Seq<(Seq<char>, dispatch::Given)>,
    pub when: When,
    pub propagate: bool,
}

impl View for Bound {
    type V = Row;

    open spec fn view(&self) -> Row {
        Row {
            ctrl: self.ctrl,
            alt: self.alt,
            shift: self.shift,
            keys: text::texts(self.keys@),
            tool: self.tool@,
            args: keys::given(self.args@),
            when: self.when,
            propagate: self.propagate,
        }
    }
}

pub open spec fn rows(bound: Seq<Bound>) -> Seq<Row> {
    bound.map_values(|b: Bound| b@)
}

/// Whether a keystroke is a binding's.
pub open spec fn answers(row: Row, ctrl: bool, alt: bool, shift: bool, name: Seq<char>) -> bool {
    &&& row.ctrl == ctrl
    &&& row.alt == alt
    &&& match row.shift {
        Some(want) => want == shift,
        None => true,
    }
    &&& row.keys.contains(name)
}

/// Whether a chord from the config file addresses a binding.
///
/// Key and modifiers, but *not* Shift when the binding does not care about it:
/// someone rebinding Ctrl-K will write `"ctrl+k"`, not `"ctrl+shift+k"` as well.
pub open spec fn addressed(row: Row, chord: keys::Press) -> bool {
    &&& row.ctrl == chord.ctrl
    &&& row.alt == chord.alt
    &&& row.shift is None || row.shift == chord.shift
    &&& exists|i: int| 0 <= i < row.keys.len() && chord.keys.contains(#[trigger] row.keys[i])
}

/// Whether a list of texts holds one.
fn holds_text(all: &Vec<String>, one: &str) -> (r: bool)
    ensures
        r == text::texts(all@).contains(one@),
{
    let mut i: usize = 0;
    while i < all.len()
        invariant
            i <= all.len(),
            forall|j: int| 0 <= j < i ==> #[trigger] text::texts(all@)[j] != one@,
        decreases all.len() - i,
    {
        assert(text::texts(all@)[i as int] == all@[i as int]@);
        if text::same(all[i].as_str(), one) {
            return true;
        }
        i += 1;
    }
    false
}

impl Bound {
    pub fn matches(&self, ctrl: bool, alt: bool, shift: bool, name: &str) -> (r: bool)
        ensures
            r == answers(self@, ctrl, alt, shift, name@),
    {
        let shifted = match self.shift {
            Some(want) => want == shift,
            None => true,
        };
        self.ctrl == ctrl && self.alt == alt && shifted && holds_text(&self.keys, name)
    }

    pub fn addressed_by(&self, chord: &keys::Chord) -> (r: bool)
        ensures
            r == addressed(self@, chord@),
    {
        let shifted = match (self.shift, chord.shift) {
            (None, _) => true,
            (Some(a), Some(b)) => a == b,
            (Some(_), None) => false,
        };
        if self.ctrl != chord.ctrl || self.alt != chord.alt || !shifted {
            return false;
        }
        let mut i: usize = 0;
        while i < self.keys.len()
            invariant
                i <= self.keys.len(),
                self@.ctrl == chord@.ctrl,
                self@.alt == chord@.alt,
                self@.shift is None || self@.shift == chord@.shift,
                forall|j: int| 0 <= j < i ==> !chord@.keys.contains(#[trigger] self@.keys[j]),
            decreases self.keys.len() - i,
        {
            assert(self@.keys[i as int] == self.keys@[i as int]@);
            if holds_text(&chord.keys, self.keys[i].as_str()) {
                return true;
            }
            i += 1;
        }
        false
    }
}

/// What a keystroke runs.
#[derive(Debug)]
pub struct Hit {
    pub tool: String,
    pub args: Vec<(String, dispatch::Arg)>,
    /// Whether the page sees the key as well. A chord that does fires on presses
    /// that were meant for the page, so its failures are not news.
    pub propagate: bool,
}

/// Which binding a keystroke runs: the first it belongs to that applies.
pub open spec fn struck(
    all: Seq<Row>,
    ctrl: bool,
    alt: bool,
    shift: bool,
    name: Seq<char>,
    palette_open: bool,
) -> Option<int> {
    list::first_where(
        all,
        |row: Row| answers(row, ctrl, alt, shift, name) && row.when.holds(palette_open),
    )
}

fn copy_args(args: &Vec<(String, dispatch::Arg)>) -> (r: Vec<(String, dispatch::Arg)>)
    ensures
        r@ == args@,
{
    let mut out: Vec<(String, dispatch::Arg)> = Vec::new();
    let mut i: usize = 0;
    while i < args.len()
        invariant
            i <= args.len(),
            out@ == args@.take(i as int),
        decreases args.len() - i,
    {
        out.push((args[i].0.clone(), args[i].1.clone()));
        i += 1;
        assert(out@ =~= args@.take(i as int));
    }
    assert(args@.take(i as int) =~= args@);
    out
}

/// What a keystroke runs, if it is bound to anything that applies.
pub fn press(
    bound: &Vec<Bound>,
    ctrl: bool,
    alt: bool,
    shift: bool,
    name: &str,
    palette_open: bool,
) -> (r: Option<Hit>)
    ensures
        match r {
            Some(hit) => struck(rows(bound@), ctrl, alt, shift, name@, palette_open) matches Some(
                i,
            ) && {
                let row = rows(bound@)[i];
                &&& hit.tool@ == row.tool
                &&& keys::given(hit.args@) == row.args
                &&& hit.propagate == row.propagate
            },
            None => struck(rows(bound@), ctrl, alt, shift, name@, palette_open) is None,
        },
{
    let ghost want = |row: Row|
        answers(row, ctrl, alt, shift, name@) && row.when.holds(palette_open);
    let mut i: usize = 0;
    while i < bound.len()
        invariant
            i <= bound.len(),
            want == (|row: Row|
                answers(row, ctrl, alt, shift, name@) && row.when.holds(palette_open)),
            forall|j: int| 0 <= j < i ==> !want(#[trigger] rows(bound@)[j]),
        decreases bound.len() - i,
    {
        let one = &bound[i];
        assert(rows(bound@)[i as int] == one@);
        if one.matches(ctrl, alt, shift, name) && one.when.applies(palette_open) {
            proof {
                list::lemma_first_where(rows(bound@), want, i as int);
            }
            return Some(
                Hit {
                    tool: one.tool.clone(),
                    args: copy_args(&one.args),
                    propagate: one.propagate,
                },
            );
        }
        i += 1;
    }
    proof {
        list::lemma_first_where(rows(bound@), want, i as int);
    }
    None
}

/// What one line of `[keys]` asks for.
pub enum Change {
    /// Nothing: it does not make sense, and this is why.
    Complain(Seq<char>),
    /// Give the chord back to the page.
    Unbind(keys::Press),
    /// Run this command.
    Bind(keys::Press, Seq<char>, Seq<(Seq<char>, dispatch::Given)>),
}

/// A command as values.
pub struct Entry {
    pub name: Seq<char>,
    pub fields: Option<Seq<dispatch::Field>>,
}

pub open spec fn entries(catalog: Seq<dispatch::Tool>) -> Seq<Entry> {
    catalog.map_values(
        |t: dispatch::Tool| Entry { name: t.name@, fields: dispatch::fields_of(t.props) },
    )
}

/// Whether a command takes an argument with a name.
pub open spec fn takes(fields: Option<Seq<dispatch::Field>>, name: Seq<char>) -> bool {
    match fields {
        Some(list) => exists|i: int| 0 <= i < list.len() && (#[trigger] list[i]).name == name,
        None => false,
    }
}

/// The command with a name.
pub open spec fn entry_called(catalog: Seq<Entry>, tool: Seq<char>) -> Option<int> {
    list::first_where(catalog, |e: Entry| e.name == tool)
}

/// The first argument a command does not take.
pub open spec fn first_unknown(
    args: Seq<(Seq<char>, dispatch::Given)>,
    fields: Option<Seq<dispatch::Field>>,
) -> Option<int> {
    list::first_where(args, |a: (Seq<char>, dispatch::Given)| !takes(fields, a.0))
}

/// What a line of `[keys]` asks for: a chord, and the command it runs. An empty
/// command unbinds, which is the only way to get a key back from the browser and
/// give it to the page.
pub open spec fn change_for(
    spec_text: Seq<char>,
    command: Seq<char>,
    catalog: Seq<Entry>,
) -> Change {
    match keys::chord_of(spec_text) {
        Err(why) => Change::Complain("keys: "@ + why),
        Ok(chord) => if text::trimmed(command).len() == 0 {
            Change::Unbind(chord)
        } else {
            let words = text::words(command);
            let tool = if words.len() > 0 {
                words[0]
            } else {
                Seq::empty()
            };
            match entry_called(catalog, tool) {
                None => Change::Complain(
                    "keys: "@ + text::shown(spec_text) + " names "@ + text::shown(tool)
                        + ", which is not a command"@,
                ),
                Some(i) => match keys::command_of(command, catalog[i].fields) {
                    Err(why) => Change::Complain(
                        "keys: "@ + text::shown(spec_text) + ": "@ + why,
                    ),
                    Ok((tool, args)) => match first_unknown(args, catalog[i].fields) {
                        Some(k) => Change::Complain(
                            "keys: "@ + tool + " does not take an argument named "@
                                + text::shown(args[k].0),
                        ),
                        None => Change::Bind(chord, tool, args),
                    },
                },
            }
        },
    }
}

/// A binding that runs another command. When it applies, and whether the page
/// sees the key, stay as they were: rebinding Escape should not quietly stop it
/// reaching the page.
pub open spec fn rebound(
    row: Row,
    chord: keys::Press,
    tool: Seq<char>,
    args: Seq<(Seq<char>, dispatch::Given)>,
) -> Row {
    if addressed(row, chord) {
        Row { tool, args, ..row }
    } else {
        row
    }
}

/// A binding for a chord that nothing holds.
pub open spec fn fresh(
    chord: keys::Press,
    tool: Seq<char>,
    args: Seq<(Seq<char>, dispatch::Given)>,
) -> Row {
    Row {
        ctrl: chord.ctrl,
        alt: chord.alt,
        shift: chord.shift,
        keys: chord.keys,
        tool,
        args,
        when: When::Always,
        propagate: false,
    }
}

/// Whether a chord addresses any of the bindings.
pub open spec fn any_addressed(all: Seq<Row>, chord: keys::Press) -> bool {
    exists|i: int| 0 <= i < all.len() && addressed(#[trigger] all[i], chord)
}

/// The bindings once one line of `[keys]` has been heeded. A chord that
/// addresses a binding replaces its command; one that does not is added.
pub open spec fn changed(all: Seq<Row>, change: Change) -> Seq<Row> {
    match change {
        Change::Complain(_) => all,
        Change::Unbind(chord) => list::kept(all, |row: Row| !addressed(row, chord)),
        Change::Bind(chord, tool, args) => if any_addressed(all, chord) {
            all.map_values(|row: Row| rebound(row, chord, tool, args))
        } else {
            all.push(fresh(chord, tool, args))
        },
    }
}

/// The complaints once one line more has been read.
pub open spec fn complained(said: Seq<Seq<char>>, change: Change) -> Seq<Seq<char>> {
    match change {
        Change::Complain(why) => said.push(why),
        _ => said,
    }
}

/// The lines of `[keys]` as values.
pub open spec fn lines(written: Seq<(String, String)>) -> Seq<(Seq<char>, Seq<char>)> {
    written.map_values(|l: (String, String)| (l.0@, l.1@))
}

/// The bindings to install and the complaints to make: the built-in table, with
/// each line of `[keys]` heeded in turn.
pub open spec fn merged(written: Seq<(Seq<char>, Seq<char>)>, catalog: Seq<Entry>) -> (
    Seq<Row>,
    Seq<Seq<char>>,
)
    decreases written.len(),
{
    if written.len() == 0 {
        (builtin_rows(), Seq::empty())
    } else {
        let (all, said) = merged(written.drop_last(), catalog);
        let change = change_for(written.last().0, written.last().1, catalog);
        (changed(all, change), complained(said, change))
    }
}

fn find_tool(catalog: &Vec<dispatch::Tool>, name: &str) -> (r: Option<usize>)
    ensures
        match r {
            Some(i) => i < catalog@.len() && entry_called(entries(catalog@), name@) == Some(
                i as int,
            ),
            None => entry_called(entries(catalog@), name@) is None,
        },
{
    let ghost want = |e: Entry| e.name == name@;
    let mut i: usize = 0;
    while i < catalog.len()
        invariant
            i <= catalog.len(),
            want == (|e: Entry| e.name == name@),
            forall|j: int| 0 <= j < i ==> !want(#[trigger] entries(catalog@)[j]),
        decreases catalog.len() - i,
    {
        assert(entries(catalog@)[i as int].name == catalog@[i as int].name@);
        if text::same(catalog[i].name.as_str(), name) {
            proof {
                list::lemma_first_where(entries(catalog@), want, i as int);
            }
            return Some(i);
        }
        i += 1;
    }
    proof {
        list::lemma_first_where(entries(catalog@), want, i as int);
    }
    None
}

fn takes_arg(props: &Option<Vec<dispatch::Prop>>, name: &str) -> (r: bool)
    ensures
        r == takes(dispatch::fields_of(*props), name@),
{
    let list = match props {
        Some(list) => list,
        None => return false,
    };
    let mut i: usize = 0;
    while i < list.len()
        invariant
            i <= list.len(),
            *props == Some(*list),
            forall|j: int| 0 <= j < i ==> (#[trigger] dispatch::fields(list@)[j]).name != name@,
        decreases list.len() - i,
    {
        assert(dispatch::fields(list@)[i as int].name == list@[i as int].name@);
        if text::same(list[i].name.as_str(), name) {
            return true;
        }
        i += 1;
    }
    false
}

fn unknown_arg(
    args: &Vec<(String, dispatch::Arg)>,
    props: &Option<Vec<dispatch::Prop>>,
) -> (r: Option<usize>)
    ensures
        match r {
            Some(i) => i < args@.len() && first_unknown(
                keys::given(args@),
                dispatch::fields_of(*props),
            ) == Some(i as int),
            None => first_unknown(keys::given(args@), dispatch::fields_of(*props)) is None,
        },
{
    let ghost said = keys::given(args@);
    let ghost fields = dispatch::fields_of(*props);
    let ghost bad = |a: (Seq<char>, dispatch::Given)| !takes(fields, a.0);
    let mut i: usize = 0;
    while i < args.len()
        invariant
            i <= args.len(),
            said == keys::given(args@),
            fields == dispatch::fields_of(*props),
            bad == (|a: (Seq<char>, dispatch::Given)| !takes(fields, a.0)),
            forall|j: int| 0 <= j < i ==> !bad(#[trigger] said[j]),
        decreases args.len() - i,
    {
        assert(said[i as int].0 == args@[i as int].0@);
        if !takes_arg(props, args[i].0.as_str()) {
            proof {
                assert(bad(said[i as int]));
                list::lemma_first_where(said, bad, i as int);
            }
            return Some(i);
        }
        i += 1;
    }
    proof {
        list::lemma_first_where(said, bad, i as int);
    }
    None
}

/// What one line of `[keys]` asks for.
#[derive(Debug)]
pub enum Asked {
    Complain(String),
    Unbind(keys::Chord),
    Bind(keys::Chord, String, Vec<(String, dispatch::Arg)>),
}

impl View for Asked {
    type V = Change;

    open spec fn view(&self) -> Change {
        match self {
            Asked::Complain(why) => Change::Complain(why@),
            Asked::Unbind(chord) => Change::Unbind(chord@),
            Asked::Bind(chord, tool, args) => Change::Bind(chord@, tool@, keys::given(args@)),
        }
    }
}

/// What one line of `[keys]` asks for.
pub fn asked(written: &str, command: &str, catalog: &Vec<dispatch::Tool>) -> (r: Asked)
    ensures
        r@ == change_for(written@, command@, entries(catalog@)),
{
    let chord = match keys::parse_chord(written) {
        Ok(chord) => chord,
        Err(e) => {
            let mut why = "keys: ".to_owned();
            why.append(e.as_str());
            return Asked::Complain(why);
        },
    };
    if text::trim(command).as_str().is_empty() {
        return Asked::Unbind(chord);
    }
    let words = text::split_words(command);
    assert(words@.len() > 0 ==> text::texts(words@)[0] == words@[0]@);
    let tool = if words.len() > 0 {
        words[0].clone()
    } else {
        String::new()
    };
    let at = match find_tool(catalog, tool.as_str()) {
        Some(at) => at,
        None => {
            let mut why = "keys: ".to_owned();
            why.append(text::show(written).as_str());
            why.append(" names ");
            why.append(text::show(tool.as_str()).as_str());
            why.append(", which is not a command");
            return Asked::Complain(why);
        },
    };
    let props = &catalog[at].props;
    let ghost fields = dispatch::fields_of(*props);
    assert(entries(catalog@)[at as int].fields == fields);
    let (tool, args) = match keys::parse_command(command, props.as_ref()) {
        Ok(both) => both,
        Err(e) => {
            let mut why = "keys: ".to_owned();
            why.append(text::show(written).as_str());
            why.append(": ");
            why.append(e.as_str());
            return Asked::Complain(why);
        },
    };
    match unknown_arg(&args, props) {
        Some(i) => {
            let mut why = "keys: ".to_owned();
            why.append(tool.as_str());
            why.append(" does not take an argument named ");
            why.append(text::show(args[i].0.as_str()).as_str());
            Asked::Complain(why)
        },
        None => Asked::Bind(chord, tool, args),
    }
}


fn no_args() -> (r: Vec<(String, dispatch::Arg)>)
    ensures
        keys::given(r@) == Seq::<(Seq<char>, dispatch::Given)>::empty(),
{
    let r: Vec<(String, dispatch::Arg)> = Vec::new();
    assert(keys::given(r@) =~= Seq::<(Seq<char>, dispatch::Given)>::empty());
    r
}

fn one_arg(name: &str, value: dispatch::Arg) -> (r: Vec<(String, dispatch::Arg)>)
    ensures
        keys::given(r@) == seq![(name@, value@)],
{
    let mut r: Vec<(String, dispatch::Arg)> = Vec::new();
    r.push((name.to_owned(), value));
    assert(keys::given(r@) =~= seq![(name@, value@)]);
    r
}

fn text_arg(name: &str, value: &str) -> (r: Vec<(String, dispatch::Arg)>)
    ensures
        keys::given(r@) == seq![(name@, dispatch::Given::Text(value@))],
{
    one_arg(name, dispatch::Arg::Text(value.to_owned()))
}

fn number_arg(name: &str, value: i64) -> (r: Vec<(String, dispatch::Arg)>)
    ensures
        keys::given(r@) == seq![(name@, dispatch::Given::Integer(value as int))],
{
    one_arg(name, dispatch::Arg::Integer(value))
}

fn flag_arg(name: &str, value: bool) -> (r: Vec<(String, dispatch::Arg)>)
    ensures
        keys::given(r@) == seq![(name@, dispatch::Given::Flag(value))],
{
    one_arg(name, dispatch::Arg::Flag(value))
}

fn two_args(name: &str, value: &str, other: &str, another: &str) -> (r: Vec<
    (String, dispatch::Arg),
>)
    ensures
        keys::given(r@) == seq![
            (name@, dispatch::Given::Text(value@)),
            (other@, dispatch::Given::Text(another@)),
        ],
{
    let mut r = text_arg(name, value);
    let ghost before = r@;
    let second = dispatch::Arg::Text(another.to_owned());
    r.push((other.to_owned(), second));
    assert(keys::given(r@) =~= keys::given(before).push((other@, second@)));
    r
}

/// The built-in bindings: summoning the palette, and windows.
pub open spec fn builtin_a() -> Seq<Row> {
    seq![
        Row {
            ctrl: true,
            alt: false,
            shift: None,
            keys: seq!["k"@, "K"@, "l"@, "L"@],
            tool: "ui_palette"@,
            args: seq![("action"@, dispatch::Given::Text("toggle"@))],
            when: When::Always,
            propagate: false,
        },
        Row {
            ctrl: true,
            alt: false,
            shift: Some(false),
            keys: seq!["p"@, "P"@],
            tool: "ui_palette"@,
            args: seq![("action"@, dispatch::Given::Text("toggle"@))],
            when: When::Always,
            propagate: false,
        },
        Row {
            ctrl: true,
            alt: false,
            shift: Some(false),
            keys: seq!["t"@, "T"@],
            tool: "tab_open"@,
            args: Seq::empty(),
            when: When::Always,
            propagate: false,
        },
        Row {
            ctrl: true,
            alt: false,
            shift: Some(false),
            keys: seq!["n"@, "N"@],
            tool: "window_new"@,
            args: Seq::empty(),
            when: When::Always,
            propagate: false,
        },
        Row {
            ctrl: true,
            alt: false,
            shift: Some(true),
            keys: seq!["w"@, "W"@],
            tool: "window_close"@,
            args: Seq::empty(),
            when: When::Always,
            propagate: false,
        },
        Row {
            ctrl: true,
            alt: false,
            shift: Some(false),
            keys: seq!["w"@, "W"@],
            tool: "tab_close"@,
            args: Seq::empty(),
            when: When::Always,
            propagate: false,
        },
    ]
}

fn push_a(out: &mut Vec<Bound>)
    ensures
        rows(final(out)@) == rows(old(out)@) + builtin_a(),
{
    let ghost before = out@;
    out.push(
        Bound {
            ctrl: true,
            alt: false,
            shift: None,
            keys: keys::four("k", "K", "l", "L"),
            tool: "ui_palette".to_owned(),
            args: text_arg("action", "toggle"),
            when: When::Always,
            propagate: false,
        },
    );
    out.push(
        Bound {
            ctrl: true,
            alt: false,
            shift: Some(false),
            keys: keys::two("p", "P"),
            tool: "ui_palette".to_owned(),
            args: text_arg("action", "toggle"),
            when: When::Always,
            propagate: false,
        },
    );
    out.push(
        Bound {
            ctrl: true,
            alt: false,
            shift: Some(false),
            keys: keys::two("t", "T"),
            tool: "tab_open".to_owned(),
            args: no_args(),
            when: When::Always,
            propagate: false,
        },
    );
    out.push(
        Bound {
            ctrl: true,
            alt: false,
            shift: Some(false),
            keys: keys::two("n", "N"),
            tool: "window_new".to_owned(),
            args: no_args(),
            when: When::Always,
            propagate: false,
        },
    );
    out.push(
        Bound {
            ctrl: true,
            alt: false,
            shift: Some(true),
            keys: keys::two("w", "W"),
            tool: "window_close".to_owned(),
            args: no_args(),
            when: When::Always,
            propagate: false,
        },
    );
    out.push(
        Bound {
            ctrl: true,
            alt: false,
            shift: Some(false),
            keys: keys::two("w", "W"),
            tool: "tab_close".to_owned(),
            args: no_args(),
            when: When::Always,
            propagate: false,
        },
    );
    assert(rows(out@) =~= rows(before) + builtin_a());
}

/// The built-in bindings: reloading, reopening and finding.
pub open spec fn builtin_b() -> Seq<Row> {
    seq![
        Row {
            ctrl: true,
            alt: false,
            shift: None,
            keys: seq!["r"@, "R"@],
            tool: "nav_reload"@,
            args: Seq::empty(),
            when: When::Always,
            propagate: false,
        },
        Row {
            ctrl: false,
            alt: false,
            shift: None,
            keys: seq!["F5"@],
            tool: "nav_reload"@,
            args: Seq::empty(),
            when: When::Always,
            propagate: false,
        },
        Row {
            ctrl: true,
            alt: false,
            shift: Some(true),
            keys: seq!["t"@, "T"@],
            tool: "tab_reopen"@,
            args: Seq::empty(),
            when: When::Always,
            propagate: false,
        },
        Row {
            ctrl: true,
            alt: false,
            shift: None,
            keys: seq!["f"@, "F"@],
            tool: "ui_palette"@,
            args: seq![("action"@, dispatch::Given::Text("show"@)), ("stage"@, dispatch::Given::Text("find_text"@))],
            when: When::Always,
            propagate: false,
        },
        Row {
            ctrl: true,
            alt: false,
            shift: Some(false),
            keys: seq!["g"@, "G"@],
            tool: "find_next"@,
            args: Seq::empty(),
            when: When::Always,
            propagate: false,
        },
        Row {
            ctrl: true,
            alt: false,
            shift: Some(true),
            keys: seq!["g"@, "G"@],
            tool: "find_previous"@,
            args: Seq::empty(),
            when: When::Always,
            propagate: false,
        },
    ]
}

fn push_b(out: &mut Vec<Bound>)
    ensures
        rows(final(out)@) == rows(old(out)@) + builtin_b(),
{
    let ghost before = out@;
    out.push(
        Bound {
            ctrl: true,
            alt: false,
            shift: None,
            keys: keys::two("r", "R"),
            tool: "nav_reload".to_owned(),
            args: no_args(),
            when: When::Always,
            propagate: false,
        },
    );
    out.push(
        Bound {
            ctrl: false,
            alt: false,
            shift: None,
            keys: keys::one("F5"),
            tool: "nav_reload".to_owned(),
            args: no_args(),
            when: When::Always,
            propagate: false,
        },
    );
    out.push(
        Bound {
            ctrl: true,
            alt: false,
            shift: Some(true),
            keys: keys::two("t", "T"),
            tool: "tab_reopen".to_owned(),
            args: no_args(),
            when: When::Always,
            propagate: false,
        },
    );
    out.push(
        Bound {
            ctrl: true,
            alt: false,
            shift: None,
            keys: keys::two("f", "F"),
            tool: "ui_palette".to_owned(),
            args: two_args("action", "show", "stage", "find_text"),
            when: When::Always,
            propagate: false,
        },
    );
    out.push(
        Bound {
            ctrl: true,
            alt: false,
            shift: Some(false),
            keys: keys::two("g", "G"),
            tool: "find_next".to_owned(),
            args: no_args(),
            when: When::Always,
            propagate: false,
        },
    );
    out.push(
        Bound {
            ctrl: true,
            alt: false,
            shift: Some(true),
            keys: keys::two("g", "G"),
            tool: "find_previous".to_owned(),
            args: no_args(),
            when: When::Always,
            propagate: false,
        },
    );
    assert(rows(out@) =~= rows(before) + builtin_b());
}

/// The built-in bindings: zooming and cycling.
pub open spec fn builtin_c() -> Seq<Row> {
    seq![
        Row {
            ctrl: false,
            alt: false,
            shift: None,
            keys: seq!["F3"@],
            tool: "find_next"@,
            args: Seq::empty(),
            when: When::Always,
            propagate: false,
        },
        Row {
            ctrl: true,
            alt: false,
            shift: None,
            keys: seq!["d"@, "D"@],
            tool: "bookmark_add"@,
            args: Seq::empty(),
            when: When::Always,
            propagate: false,
        },
        Row {
            ctrl: true,
            alt: false,
            shift: None,
            keys: seq!["plus"@, "equal"@, "KP_Add"@],
            tool: "page_zoom"@,
            args: seq![("direction"@, dispatch::Given::Text("in"@))],
            when: When::Always,
            propagate: false,
        },
        Row {
            ctrl: true,
            alt: false,
            shift: None,
            keys: seq!["minus"@, "underscore"@, "KP_Subtract"@],
            tool: "page_zoom"@,
            args: seq![("direction"@, dispatch::Given::Text("out"@))],
            when: When::Always,
            propagate: false,
        },
        Row {
            ctrl: true,
            alt: false,
            shift: None,
            keys: seq!["0"@, "KP_0"@],
            tool: "page_zoom"@,
            args: seq![("direction"@, dispatch::Given::Text("reset"@))],
            when: When::Always,
            propagate: false,
        },
        Row {
            ctrl: true,
            alt: false,
            shift: Some(false),
            keys: seq!["Tab"@, "ISO_Left_Tab"@],
            tool: "tab_cycle"@,
            args: seq![("delta"@, dispatch::Given::Integer(1))],
            when: When::Always,
            propagate: false,
        },
    ]
}

fn push_c(out: &mut Vec<Bound>)
    ensures
        rows(final(out)@) == rows(old(out)@) + builtin_c(),
{
    let ghost before = out@;
    out.push(
        Bound {
            ctrl: false,
            alt: false,
            shift: None,
            keys: keys::one("F3"),
            tool: "find_next".to_owned(),
            args: no_args(),
            when: When::Always,
            propagate: false,
        },
    );
    out.push(
        Bound {
            ctrl: true,
            alt: false,
            shift: None,
            keys: keys::two("d", "D"),
            tool: "bookmark_add".to_owned(),
            args: no_args(),
            when: When::Always,
            propagate: false,
        },
    );
    out.push(
        Bound {
            ctrl: true,
            alt: false,
            shift: None,
            keys: keys::three("plus", "equal", "KP_Add"),
            tool: "page_zoom".to_owned(),
            args: text_arg("direction", "in"),
            when: When::Always,
            propagate: false,
        },
    );
    out.push(
        Bound {
            ctrl: true,
            alt: false,
            shift: None,
            keys: keys::three("minus", "underscore", "KP_Subtract"),
            tool: "page_zoom".to_owned(),
            args: text_arg("direction", "out"),
            when: When::Always,
            propagate: false,
        },
    );
    out.push(
        Bound {
            ctrl: true,
            alt: false,
            shift: None,
            keys: keys::two("0", "KP_0"),
            tool: "page_zoom".to_owned(),
            args: text_arg("direction", "reset"),
            when: When::Always,
            propagate: false,
        },
    );
    out.push(
        Bound {
            ctrl: true,
            alt: false,
            shift: Some(false),
            keys: keys::two("Tab", "ISO_Left_Tab"),
            tool: "tab_cycle".to_owned(),
            args: number_arg("delta", 1),
            when: When::Always,
            propagate: false,
        },
    );
    assert(rows(out@) =~= rows(before) + builtin_c());
}

/// The built-in bindings: jumping to a tab.
pub open spec fn builtin_d() -> Seq<Row> {
    seq![
        Row {
            ctrl: true,
            alt: false,
            shift: Some(true),
            keys: seq!["Tab"@, "ISO_Left_Tab"@],
            tool: "tab_cycle"@,
            args: seq![("delta"@, dispatch::Given::Integer(-1))],
            when: When::Always,
            propagate: false,
        },
        Row {
            ctrl: true,
            alt: false,
            shift: Some(false),
            keys: seq!["Page_Down"@, "Next"@, "KP_Page_Down"@, "KP_Next"@],
            tool: "tab_cycle"@,
            args: seq![("delta"@, dispatch::Given::Integer(1))],
            when: When::Always,
            propagate: false,
        },
        Row {
            ctrl: true,
            alt: false,
            shift: Some(false),
            keys: seq!["Page_Up"@, "Prior"@, "KP_Page_Up"@, "KP_Prior"@],
            tool: "tab_cycle"@,
            args: seq![("delta"@, dispatch::Given::Integer(-1))],
            when: When::Always,
            propagate: false,
        },
        Row {
            ctrl: true,
            alt: false,
            shift: Some(false),
            keys: seq!["1"@, "KP_1"@],
            tool: "tab_select"@,
            args: seq![("index"@, dispatch::Given::Integer(1))],
            when: When::Always,
            propagate: false,
        },
        Row {
            ctrl: true,
            alt: false,
            shift: Some(false),
            keys: seq!["2"@, "KP_2"@],
            tool: "tab_select"@,
            args: seq![("index"@, dispatch::Given::Integer(2))],
            when: When::Always,
            propagate: false,
        },
        Row {
            ctrl: true,
            alt: false,
            shift: Some(false),
            keys: seq!["3"@, "KP_3"@],
            tool: "tab_select"@,
            args: seq![("index"@, dispatch::Given::Integer(3))],
            when: When::Always,
            propagate: false,
        },
    ]
}

fn push_d(out: &mut Vec<Bound>)
    ensures
        rows(final(out)@) == rows(old(out)@) + builtin_d(),
{
    let ghost before = out@;
    out.push(
        Bound {
            ctrl: true,
            alt: false,
            shift: Some(true),
            keys: keys::two("Tab", "ISO_Left_Tab"),
            tool: "tab_cycle".to_owned(),
            args: number_arg("delta", -1),
            when: When::Always,
            propagate: false,
        },
    );
    out.push(
        Bound {
            ctrl: true,
            alt: false,
            shift: Some(false),
            keys: keys::four("Page_Down", "Next", "KP_Page_Down", "KP_Next"),
            tool: "tab_cycle".to_owned(),
            args: number_arg("delta", 1),
            when: When::Always,
            propagate: false,
        },
    );
    out.push(
        Bound {
            ctrl: true,
            alt: false,
            shift: Some(false),
            keys: keys::four("Page_Up", "Prior", "KP_Page_Up", "KP_Prior"),
            tool: "tab_cycle".to_owned(),
            args: number_arg("delta", -1),
            when: When::Always,
            propagate: false,
        },
    );
    out.push(
        Bound {
            ctrl: true,
            alt: false,
            shift: Some(false),
            keys: keys::two("1", "KP_1"),
            tool: "tab_select".to_owned(),
            args: number_arg("index", 1),
            when: When::Always,
            propagate: false,
        },
    );
    out.push(
        Bound {
            ctrl: true,
            alt: false,
            shift: Some(false),
            keys: keys::two("2", "KP_2"),
            tool: "tab_select".to_owned(),
            args: number_arg("index", 2),
            when: When::Always,
            propagate: false,
        },
    );
    out.push(
        Bound {
            ctrl: true,
            alt: false,
            shift: Some(false),
            keys: keys::two("3", "KP_3"),
            tool: "tab_select".to_owned(),
            args: number_arg("index", 3),
            when: When::Always,
            propagate: false,
        },
    );
    assert(rows(out@) =~= rows(before) + builtin_d());
}

/// The built-in bindings: the last tab, and going places.
pub open spec fn builtin_e() -> Seq<Row> {
    seq![
        Row {
            ctrl: true,
            alt: false,
            shift: Some(false),
            keys: seq!["4"@, "KP_4"@],
            tool: "tab_select"@,
            args: seq![("index"@, dispatch::Given::Integer(4))],
            when: When::Always,
            propagate: false,
        },
        Row {
            ctrl: true,
            alt: false,
            shift: Some(false),
            keys: seq!["5"@, "KP_5"@],
            tool: "tab_select"@,
            args: seq![("index"@, dispatch::Given::Integer(5))],
            when: When::Always,
            propagate: false,
        },
        Row {
            ctrl: true,
            alt: false,
            shift: Some(false),
            keys: seq!["6"@, "KP_6"@],
            tool: "tab_select"@,
            args: seq![("index"@, dispatch::Given::Integer(6))],
            when: When::Always,
            propagate: false,
        },
        Row {
            ctrl: true,
            alt: false,
            shift: Some(false),
            keys: seq!["7"@, "KP_7"@],
            tool: "tab_select"@,
            args: seq![("index"@, dispatch::Given::Integer(7))],
            when: When::Always,
            propagate: false,
        },
        Row {
            ctrl: true,
            alt: false,
            shift: Some(false),
            keys: seq!["8"@, "KP_8"@],
            tool: "tab_select"@,
            args: seq![("index"@, dispatch::Given::Integer(8))],
            when: When::Always,
            propagate: false,
        },
        Row {
            ctrl: true,
            alt: false,
            shift: Some(false),
            keys: seq!["9"@, "KP_9"@],
            tool: "tab_select"@,
            args: seq![("index"@, dispatch::Given::Integer(-1))],
            when: When::Always,
            propagate: false,
        },
    ]
}

fn push_e(out: &mut Vec<Bound>)
    ensures
        rows(final(out)@) == rows(old(out)@) + builtin_e(),
{
    let ghost before = out@;
    out.push(
        Bound {
            ctrl: true,
            alt: false,
            shift: Some(false),
            keys: keys::two("4", "KP_4"),
            tool: "tab_select".to_owned(),
            args: number_arg("index", 4),
            when: When::Always,
            propagate: false,
        },
    );
    out.push(
        Bound {
            ctrl: true,
            alt: false,
            shift: Some(false),
            keys: keys::two("5", "KP_5"),
            tool: "tab_select".to_owned(),
            args: number_arg("index", 5),
            when: When::Always,
            propagate: false,
        },
    );
    out.push(
        Bound {
            ctrl: true,
            alt: false,
            shift: Some(false),
            keys: keys::two("6", "KP_6"),
            tool: "tab_select".to_owned(),
            args: number_arg("index", 6),
            when: When::Always,
            propagate: false,
        },
    );
    out.push(
        Bound {
            ctrl: true,
            alt: false,
            shift: Some(false),
            keys: keys::two("7", "KP_7"),
            tool: "tab_select".to_owned(),
            args: number_arg("index", 7),
            when: When::Always,
            propagate: false,
        },
    );
    out.push(
        Bound {
            ctrl: true,
            alt: false,
            shift: Some(false),
            keys: keys::two("8", "KP_8"),
            tool: "tab_select".to_owned(),
            args: number_arg("index", 8),
            when: When::Always,
            propagate: false,
        },
    );
    out.push(
        Bound {
            ctrl: true,
            alt: false,
            shift: Some(false),
            keys: keys::two("9", "KP_9"),
            tool: "tab_select".to_owned(),
            args: number_arg("index", -1),
            when: When::Always,
            propagate: false,
        },
    );
    assert(rows(out@) =~= rows(before) + builtin_e());
}

/// The built-in bindings: Escape and the inspector.
pub open spec fn builtin_f() -> Seq<Row> {
    seq![
        Row {
            ctrl: false,
            alt: true,
            shift: None,
            keys: seq!["Left"@],
            tool: "nav_back"@,
            args: Seq::empty(),
            when: When::Always,
            propagate: false,
        },
        Row {
            ctrl: false,
            alt: true,
            shift: None,
            keys: seq!["Right"@],
            tool: "nav_forward"@,
            args: Seq::empty(),
            when: When::Always,
            propagate: false,
        },
        Row {
            ctrl: false,
            alt: true,
            shift: None,
            keys: seq!["Home"@, "KP_Home"@],
            tool: "nav_home"@,
            args: Seq::empty(),
            when: When::Always,
            propagate: false,
        },
        Row {
            ctrl: false,
            alt: false,
            shift: None,
            keys: seq!["F11"@],
            tool: "window_fullscreen"@,
            args: seq![("action"@, dispatch::Given::Text("toggle"@))],
            when: When::Always,
            propagate: false,
        },
        Row {
            ctrl: false,
            alt: false,
            shift: None,
            keys: seq!["Escape"@],
            tool: "ui_palette"@,
            args: seq![("action"@, dispatch::Given::Text("hide"@))],
            when: When::PaletteOpen,
            propagate: false,
        },
        Row {
            ctrl: false,
            alt: false,
            shift: None,
            keys: seq!["Escape"@],
            tool: "nav_stop"@,
            args: Seq::empty(),
            when: When::PaletteClosed,
            propagate: true,
        },
    ]
}

fn push_f(out: &mut Vec<Bound>)
    ensures
        rows(final(out)@) == rows(old(out)@) + builtin_f(),
{
    let ghost before = out@;
    out.push(
        Bound {
            ctrl: false,
            alt: true,
            shift: None,
            keys: keys::one("Left"),
            tool: "nav_back".to_owned(),
            args: no_args(),
            when: When::Always,
            propagate: false,
        },
    );
    out.push(
        Bound {
            ctrl: false,
            alt: true,
            shift: None,
            keys: keys::one("Right"),
            tool: "nav_forward".to_owned(),
            args: no_args(),
            when: When::Always,
            propagate: false,
        },
    );
    out.push(
        Bound {
            ctrl: false,
            alt: true,
            shift: None,
            keys: keys::two("Home", "KP_Home"),
            tool: "nav_home".to_owned(),
            args: no_args(),
            when: When::Always,
            propagate: false,
        },
    );
    out.push(
        Bound {
            ctrl: false,
            alt: false,
            shift: None,
            keys: keys::one("F11"),
            tool: "window_fullscreen".to_owned(),
            args: text_arg("action", "toggle"),
            when: When::Always,
            propagate: false,
        },
    );
    out.push(
        Bound {
            ctrl: false,
            alt: false,
            shift: None,
            keys: keys::one("Escape"),
            tool: "ui_palette".to_owned(),
            args: text_arg("action", "hide"),
            when: When::PaletteOpen,
            propagate: false,
        },
    );
    out.push(
        Bound {
            ctrl: false,
            alt: false,
            shift: None,
            keys: keys::one("Escape"),
            tool: "nav_stop".to_owned(),
            args: no_args(),
            when: When::PaletteClosed,
            propagate: true,
        },
    );
    assert(rows(out@) =~= rows(before) + builtin_f());
}

/// The built-in bindings: the rest.
pub open spec fn builtin_g() -> Seq<Row> {
    seq![
        Row {
            ctrl: false,
            alt: false,
            shift: None,
            keys: seq!["F12"@],
            tool: "page_devtools"@,
            args: seq![("action"@, dispatch::Given::Text("toggle"@))],
            when: When::Always,
            propagate: false,
        },
        Row {
            ctrl: true,
            alt: false,
            shift: Some(true),
            keys: seq!["i"@, "I"@],
            tool: "page_devtools"@,
            args: seq![("action"@, dispatch::Given::Text("toggle"@))],
            when: When::Always,
            propagate: false,
        },
        Row {
            ctrl: true,
            alt: false,
            shift: Some(false),
            keys: seq!["u"@, "U"@],
            tool: "page_source"@,
            args: seq![("open"@, dispatch::Given::Flag(true))],
            when: When::Always,
            propagate: false,
        },
        Row {
            ctrl: true,
            alt: false,
            shift: Some(true),
            keys: seq!["p"@, "P"@],
            tool: "page_print"@,
            args: Seq::empty(),
            when: When::Always,
            propagate: false,
        },
        Row {
            ctrl: true,
            alt: false,
            shift: Some(false),
            keys: seq!["j"@, "J"@],
            tool: "download_open"@,
            args: seq![("index"@, dispatch::Given::Integer(1))],
            when: When::Always,
            propagate: false,
        },
        Row {
            ctrl: true,
            alt: false,
            shift: Some(false),
            keys: seq!["m"@, "M"@],
            tool: "tab_mute"@,
            args: seq![("action"@, dispatch::Given::Text("toggle"@))],
            when: When::Always,
            propagate: false,
        },
    ]
}

fn push_g(out: &mut Vec<Bound>)
    ensures
        rows(final(out)@) == rows(old(out)@) + builtin_g(),
{
    let ghost before = out@;
    out.push(
        Bound {
            ctrl: false,
            alt: false,
            shift: None,
            keys: keys::one("F12"),
            tool: "page_devtools".to_owned(),
            args: text_arg("action", "toggle"),
            when: When::Always,
            propagate: false,
        },
    );
    out.push(
        Bound {
            ctrl: true,
            alt: false,
            shift: Some(true),
            keys: keys::two("i", "I"),
            tool: "page_devtools".to_owned(),
            args: text_arg("action", "toggle"),
            when: When::Always,
            propagate: false,
        },
    );
    out.push(
        Bound {
            ctrl: true,
            alt: false,
            shift: Some(false),
            keys: keys::two("u", "U"),
            tool: "page_source".to_owned(),
            args: flag_arg("open", true),
            when: When::Always,
            propagate: false,
        },
    );
    out.push(
        Bound {
            ctrl: true,
            alt: false,
            shift: Some(true),
            keys: keys::two("p", "P"),
            tool: "page_print".to_owned(),
            args: no_args(),
            when: When::Always,
            propagate: false,
        },
    );
    out.push(
        Bound {
            ctrl: true,
            alt: false,
            shift: Some(false),
            keys: keys::two("j", "J"),
            tool: "download_open".to_owned(),
            args: number_arg("index", 1),
            when: When::Always,
            propagate: false,
        },
    );
    out.push(
        Bound {
            ctrl: true,
            alt: false,
            shift: Some(false),
            keys: keys::two("m", "M"),
            tool: "tab_mute".to_owned(),
            args: text_arg("action", "toggle"),
            when: When::Always,
            propagate: false,
        },
    );
    assert(rows(out@) =~= rows(before) + builtin_g());
}

/// The built-in bindings, in the order they are tried.
pub open spec fn builtin_rows() -> Seq<Row> {
    builtin_a() + builtin_b() + builtin_c() + builtin_d() + builtin_e() + builtin_f() + builtin_g()
}

/// The built-in bindings, in the order they are tried.
pub fn builtin() -> (r: Vec<Bound>)
    ensures
        rows(r@) == builtin_rows(),
{
    let mut out: Vec<Bound> = Vec::new();
    assert(rows(out@) =~= Seq::<Row>::empty());
    push_a(&mut out);
    push_b(&mut out);
    push_c(&mut out);
    push_d(&mut out);
    push_e(&mut out);
    push_f(&mut out);
    push_g(&mut out);
    assert(rows(out@) =~= builtin_rows());
    out
}

fn unbind(all: Vec<Bound>, chord: &keys::Chord) -> (r: Vec<Bound>)
    ensures
        rows(r@) == list::kept(rows(all@), |row: Row| !addressed(row, chord@)),
{
    let press = Ghost(chord@);
    let ghost keep = |row: Row| !addressed(row, press@);
    let ghost was = all@;
    let mut out: Vec<Bound> = Vec::new();
    assert(rows(out@) =~= list::kept(rows(was).take(0), keep));
    for one in it: all
        invariant
            it.seq() == was,
            press@ == chord@,
            keep == (|row: Row| !addressed(row, press@)),
            rows(out@) == list::kept(rows(was).take(it.index() as int), keep),
    {
        let ghost at = it.index() as int;
        assert(rows(was).take(at + 1).drop_last() =~= rows(was).take(at));
        assert(rows(was)[at] == one@);
        let ghost before = out@;
        if !one.addressed_by(chord) {
            out.push(one);
            assert(rows(out@) =~= rows(before).push(one@));
        }
    }
    assert(rows(was).take(was.len() as int) =~= rows(was));
    out
}

fn bind(
    all: Vec<Bound>,
    chord: keys::Chord,
    tool: String,
    args: Vec<(String, dispatch::Arg)>,
) -> (r: Vec<Bound>)
    ensures
        rows(r@) == changed(rows(all@), Change::Bind(chord@, tool@, keys::given(args@))),
{
    let ghost press = chord@;
    let ghost name = tool@;
    let ghost values = keys::given(args@);
    let ghost was = rows(all@);
    let ghost source = all@;
    let ghost new = was.map_values(|row: Row| rebound(row, press, name, values));
    let mut replaced = false;
    let mut out: Vec<Bound> = Vec::new();
    assert(rows(out@) =~= new.take(0));
    for one in it: all
        invariant
            it.seq() == source,
            press == chord@,
            name == tool@,
            values == keys::given(args@),
            was == rows(source),
            new == was.map_values(|row: Row| rebound(row, press, name, values)),
            rows(out@) == new.take(it.index() as int),
            replaced == exists|j: int| 0 <= j < it.index() && addressed(#[trigger] was[j], press),
    {
        let ghost at = it.index() as int;
        assert(was[at] == one@);
        let ghost before = out@;
        let mut one = one;
        if one.addressed_by(&chord) {
            assert(addressed(was[at], press));
            one.tool = tool.clone();
            one.args = copy_args(&args);
            replaced = true;
        }
        assert(one@ == new[at]);
        out.push(one);
        assert(rows(out@) =~= rows(before).push(one@));
        assert(new.take(at + 1) =~= new.take(at).push(new[at]));
    }
    assert(new.take(was.len() as int) =~= new);
    if !replaced {
        proof {
            assert forall|j: int| 0 <= j < was.len() implies new[j] == was[j] by {
                assert(!addressed(was[j], press));
            }
            assert(new =~= was);
        }
        let ghost before = out@;
        let one = Bound {
            ctrl: chord.ctrl,
            alt: chord.alt,
            shift: chord.shift,
            keys: chord.keys,
            tool,
            args,
            when: When::Always,
            propagate: false,
        };
        out.push(one);
        assert(rows(out@) =~= rows(before).push(one@));
    }
    out
}

/// The bindings to install: the table, plus whatever `[keys]` says, and what
/// there is to complain about.
///
/// A chord that addresses an existing binding replaces its command; one that
/// does not is added; an empty command unbinds. Everything that goes wrong, an
/// unparseable chord, a command that does not exist, an argument it will not
/// accept, is complained about and then *skipped*, because a key that runs
/// nothing is better than one that runs something unintended, and both are
/// better than refusing to start.
pub fn bindings(written: &Vec<(String, String)>, catalog: &Vec<dispatch::Tool>) -> (r: (
    Vec<Bound>,
    Vec<String>,
))
    ensures
        (rows(r.0@), text::texts(r.1@)) == merged(lines(written@), entries(catalog@)),
{
    let mut out = builtin();
    let mut said: Vec<String> = Vec::new();
    let mut i: usize = 0;
    assert(text::texts(said@) =~= Seq::<Seq<char>>::empty());
    while i < written.len()
        invariant
            i <= written.len(),
            (rows(out@), text::texts(said@)) == merged(
                lines(written@).take(i as int),
                entries(catalog@),
            ),
        decreases written.len() - i,
    {
        let ghost so_far = lines(written@).take(i + 1);
        assert(so_far.drop_last() =~= lines(written@).take(i as int));
        assert(so_far.last() == (written@[i as int].0@, written@[i as int].1@));
        let ghost before = said@;
        match asked(written[i].0.as_str(), written[i].1.as_str(), catalog) {
            Asked::Complain(why) => {
                said.push(why);
                assert(text::texts(said@) =~= text::texts(before).push(why@));
            },
            Asked::Unbind(chord) => {
                out = unbind(out, &chord);
            },
            Asked::Bind(chord, tool, args) => {
                out = bind(out, chord, tool, args);
            },
        }
        i += 1;
    }
    assert(lines(written@).take(i as int) =~= lines(written@));
    (out, said)
}

// ---------------------------------------------------------------------------
// Laws
// ---------------------------------------------------------------------------

/// Rebinding a chord that is bound changes what it runs and nothing else: there
/// are as many bindings as before, each with the keys it had, applying when it
/// did, and seen by the page or not as before. Bindings it does not address stay
/// as they were.
pub proof fn law_rebinding_changes_the_command(
    all: Seq<Row>,
    chord: keys::Press,
    tool: Seq<char>,
    args: Seq<(Seq<char>, dispatch::Given)>,
)
    requires
        any_addressed(all, chord),
    ensures
        ({
            let after = changed(all, Change::Bind(chord, tool, args));
            &&& after.len() == all.len()
            &&& forall|i: int|
                0 <= i < all.len() ==> {
                    let row = #[trigger] after[i];
                    &&& row.ctrl == all[i].ctrl && row.alt == all[i].alt && row.shift
                        == all[i].shift && row.keys == all[i].keys
                    &&& row.when == all[i].when && row.propagate == all[i].propagate
                    &&& addressed(all[i], chord) ==> row.tool == tool && row.args == args
                    &&& !addressed(all[i], chord) ==> row == all[i]
                }
        }),
{
}

/// A chord that nothing holds is added behind the bindings there are.
pub proof fn law_new_chord_is_added(
    all: Seq<Row>,
    chord: keys::Press,
    tool: Seq<char>,
    args: Seq<(Seq<char>, dispatch::Given)>,
)
    requires
        !any_addressed(all, chord),
        chord.keys.len() > 0,
    ensures
        ({
            let after = changed(all, Change::Bind(chord, tool, args));
            &&& after.len() == all.len() + 1
            &&& after.take(all.len() as int) == all
            &&& after.last().tool == tool && after.last().args == args
            &&& addressed(after.last(), chord)
        }),
{
    let after = changed(all, Change::Bind(chord, tool, args));
    assert(after.take(all.len() as int) =~= all);
    assert(chord.keys.contains(after.last().keys[0]));
}

/// An unbound chord runs nothing, and every binding it does not address is still
/// there.
pub proof fn law_unbound_is_gone(all: Seq<Row>, chord: keys::Press)
    ensures
        !any_addressed(changed(all, Change::Unbind(chord)), chord),
        forall|i: int|
            0 <= i < all.len() && !addressed(#[trigger] all[i], chord) ==> changed(
                all,
                Change::Unbind(chord),
            ).contains(all[i]),
{
    let keep = |row: Row| !addressed(row, chord);
    list::lemma_kept(all, keep);
    let after = changed(all, Change::Unbind(chord));
    assert forall|i: int| 0 <= i < after.len() implies !addressed(#[trigger] after[i], chord) by {
        assert(keep(after[i]));
    }
}

/// A line that makes no sense loses that one binding and nothing else: the table
/// is what it would be without it, and there is one complaint more.
pub proof fn law_bad_line_is_skipped(
    written: Seq<(Seq<char>, Seq<char>)>,
    line: (Seq<char>, Seq<char>),
    catalog: Seq<Entry>,
)
    requires
        change_for(line.0, line.1, catalog) is Complain,
    ensures
        merged(written.push(line), catalog).0 == merged(written, catalog).0,
        merged(written.push(line), catalog).1.len() == merged(written, catalog).1.len() + 1,
{
    assert(written.push(line).drop_last() =~= written);
}

/// A command that does not exist is never bound.
pub proof fn law_only_commands_are_bound(
    written: Seq<char>,
    command: Seq<char>,
    catalog: Seq<Entry>,
)
    ensures
        change_for(written, command, catalog) matches Change::Bind(_, tool, args) ==> exists|
            i: int,
        |
            0 <= i < catalog.len() && (#[trigger] catalog[i]).name == tool && forall|k: int|
                0 <= k < args.len() ==> takes(catalog[i].fields, (#[trigger] args[k]).0),
{
    if let Change::Bind(_, tool, args) = change_for(written, command, catalog) {
        let words = text::words(command);
        let name = if words.len() > 0 {
            words[0]
        } else {
            Seq::empty()
        };
        let want = |e: Entry| e.name == name;
        list::lemma_first_where_is_first(catalog, want);
        let i = entry_called(catalog, name).unwrap();
        let fields = catalog[i].fields;
        let bad = |a: (Seq<char>, dispatch::Given)| !takes(fields, a.0);
        list::lemma_first_where_is_first(args, bad);
        assert forall|k: int| 0 <= k < args.len() implies takes(fields, (#[trigger] args[k]).0) by {
            assert(!bad(args[k]));
        }
        assert(catalog[i].name == tool);
    }
}

/// A number held between two bounds lies between them, and is the number itself where that
/// does.
pub proof fn law_held_between(n: int, low: int, high: int)
    requires
        low <= high,
    ensures
        low <= clamped(n, low, high) <= high,
        low <= n <= high ==> clamped(n, low, high) == n,
        n < low ==> clamped(n, low, high) == low,
        n > high ==> clamped(n, low, high) == high,
        smaller(low, high) == low,
        smaller(high, low) == low,
{
}

} // verus!
