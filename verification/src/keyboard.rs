//! What the keyboard does out of the box, key by key.
//!
//! The table says which chord runs which command; this says what pressing one
//! comes to, once every row that might claim it has been asked in turn.

use vstd::prelude::*;

use crate::dispatch;
use crate::keys;
use crate::layout;
use crate::list;

verus! {

/// What a keystroke runs on a keyboard, with what arguments, and whether the page
/// sees the key as well.
pub open spec fn runs(
    all: Seq<layout::Row>,
    ctrl: bool,
    alt: bool,
    shift: bool,
    name: Seq<char>,
    palette_open: bool,
) -> Option<(Seq<char>, Seq<(Seq<char>, dispatch::Given)>, bool)> {
    match layout::struck(all, ctrl, alt, shift, name, palette_open) {
        Some(i) => Some((all[i].tool, all[i].args, all[i].propagate)),
        None => None,
    }
}

/// A command run without arguments, of which the page sees nothing.
pub open spec fn plain(tool: Seq<char>) -> Option<
    (Seq<char>, Seq<(Seq<char>, dispatch::Given)>, bool),
> {
    Some((tool, Seq::empty(), false))
}

/// A command run with one argument, of which the page sees nothing.
pub open spec fn with_one(tool: Seq<char>, name: Seq<char>, value: dispatch::Given) -> Option<
    (Seq<char>, Seq<(Seq<char>, dispatch::Given)>, bool),
> {
    Some((tool, seq![(name, value)], false))
}

/// A number that tells the names of keys apart: how long they are, and their first
/// and last characters.
spec fn mark(name: Seq<char>) -> int {
    name.len() * 65536 + name[0] as int * 256 + name.last() as int
}

/// Which row of the table a keystroke can belong to, by the mark of its key.
spec fn seat(ctrl: bool, alt: bool, shift: bool, mark: int, palette_open: bool) -> int {
    if ctrl && !alt && (mark == 93035 || mark == 84811 || mark == 93292 || mark == 85068) {
        0
    } else if ctrl && !alt && !shift && (mark == 94320 || mark == 86096) {
        1
    } else if ctrl && !alt && !shift && (mark == 95348 || mark == 87124) {
        2
    } else if ctrl && !alt && !shift && (mark == 93806 || mark == 85582) {
        3
    } else if ctrl && !alt && shift && (mark == 96119 || mark == 87895) {
        4
    } else if ctrl && !alt && !shift && (mark == 96119 || mark == 87895) {
        5
    } else if ctrl && !alt && (mark == 94834 || mark == 86610) {
        6
    } else if !ctrl && !alt && mark == 149045 {
        7
    } else if ctrl && !alt && shift && (mark == 95348 || mark == 87124) {
        8
    } else if ctrl && !alt && (mark == 91750 || mark == 83526) {
        9
    } else if ctrl && !alt && !shift && (mark == 92007 || mark == 83783) {
        10
    } else if ctrl && !alt && shift && (mark == 92007 || mark == 83783) {
        11
    } else if !ctrl && !alt && mark == 149043 {
        12
    } else if ctrl && !alt && (mark == 91236 || mark == 83012) {
        13
    } else if ctrl && !alt && (mark == 290931 || mark == 353644 || mark == 412516) {
        14
    } else if ctrl && !alt && (mark == 355699 || mark == 685413 || mark == 740212) {
        15
    } else if ctrl && !alt && (mark == 77872 || mark == 281392) {
        16
    } else if ctrl && !alt && !shift && (mark == 218210 || mark == 805218) {
        17
    } else if ctrl && !alt && shift && (mark == 218210 || mark == 805218) {
        18
    } else if ctrl && !alt && !shift
        && (mark == 610414 || mark == 282228 || mark == 805742 || mark == 478068) {
        19
    } else if ctrl && !alt && !shift
        && (mark == 479344 || mark == 348274 || mark == 674672 || mark == 543602) {
        20
    } else if ctrl && !alt && !shift && (mark == 78129 || mark == 281393) {
        21
    } else if ctrl && !alt && !shift && (mark == 78386 || mark == 281394) {
        22
    } else if ctrl && !alt && !shift && (mark == 78643 || mark == 281395) {
        23
    } else if ctrl && !alt && !shift && (mark == 78900 || mark == 281396) {
        24
    } else if ctrl && !alt && !shift && (mark == 79157 || mark == 281397) {
        25
    } else if ctrl && !alt && !shift && (mark == 79414 || mark == 281398) {
        26
    } else if ctrl && !alt && !shift && (mark == 79671 || mark == 281399) {
        27
    } else if ctrl && !alt && !shift && (mark == 79928 || mark == 281400) {
        28
    } else if ctrl && !alt && !shift && (mark == 80185 || mark == 281401) {
        29
    } else if !ctrl && alt && mark == 281716 {
        30
    } else if !ctrl && alt && mark == 348788 {
        31
    } else if !ctrl && alt && (mark == 280677 || mark == 478053) {
        32
    } else if !ctrl && !alt && mark == 214577 {
        33
    } else if !ctrl && !alt && palette_open && mark == 410981 {
        34
    } else if !ctrl && !alt && !palette_open && mark == 410981 {
        35
    } else if !ctrl && !alt && mark == 214578 {
        36
    } else if ctrl && !alt && shift && (mark == 92521 || mark == 84297) {
        37
    } else if ctrl && !alt && !shift && (mark == 95605 || mark == 87381) {
        38
    } else if ctrl && !alt && shift && (mark == 94320 || mark == 86096) {
        39
    } else if ctrl && !alt && !shift && (mark == 92778 || mark == 84554) {
        40
    } else if ctrl && !alt && !shift && (mark == 93549 || mark == 85325) {
        41
    } else {
        -1
    }
}

proof fn lemma_seat_a(
    i: int,
    ctrl: bool,
    alt: bool,
    shift: bool,
    name: Seq<char>,
    palette_open: bool,
)
    requires
        0 <= i < 6,
        layout::answers(layout::builtin_a()[i], ctrl, alt, shift, name),
        layout::builtin_a()[i].when.holds(palette_open),
    ensures
        seat(ctrl, alt, shift, mark(name), palette_open) == 0 + i,
        !ctrl && !alt ==> own_key(name),
        alt ==> !ctrl && travel_key(name),
{
    reveal_strlit("k");
    reveal_strlit("K");
    reveal_strlit("l");
    reveal_strlit("L");
    reveal_strlit("p");
    reveal_strlit("P");
    reveal_strlit("t");
    reveal_strlit("T");
    reveal_strlit("n");
    reveal_strlit("N");
    reveal_strlit("w");
    reveal_strlit("W");
    assert(mark("k"@) == 93035);
    assert(mark("K"@) == 84811);
    assert(mark("l"@) == 93292);
    assert(mark("L"@) == 85068);
    assert(mark("p"@) == 94320);
    assert(mark("P"@) == 86096);
    assert(mark("t"@) == 95348);
    assert(mark("T"@) == 87124);
    assert(mark("n"@) == 93806);
    assert(mark("N"@) == 85582);
    assert(mark("w"@) == 96119);
    assert(mark("W"@) == 87895);
    let row = layout::builtin_a()[i];
    let k = choose|k: int| 0 <= k < row.keys.len() && row.keys[k] == name;
    assert(row.keys[k] == name);
    if i == 0 {
        assert(row.keys.len() == 4);
        assert(name == "k"@ || name == "K"@ || name == "l"@ || name == "L"@);
    } else if i == 1 {
        assert(row.keys.len() == 2);
        assert(name == "p"@ || name == "P"@);
    } else if i == 2 {
        assert(row.keys.len() == 2);
        assert(name == "t"@ || name == "T"@);
    } else if i == 3 {
        assert(row.keys.len() == 2);
        assert(name == "n"@ || name == "N"@);
    } else if i == 4 {
        assert(row.keys.len() == 2);
        assert(name == "w"@ || name == "W"@);
    } else if i == 5 {
        assert(row.keys.len() == 2);
        assert(name == "w"@ || name == "W"@);
    }
}

proof fn lemma_seat_b(
    i: int,
    ctrl: bool,
    alt: bool,
    shift: bool,
    name: Seq<char>,
    palette_open: bool,
)
    requires
        0 <= i < 6,
        layout::answers(layout::builtin_b()[i], ctrl, alt, shift, name),
        layout::builtin_b()[i].when.holds(palette_open),
    ensures
        seat(ctrl, alt, shift, mark(name), palette_open) == 6 + i,
        !ctrl && !alt ==> own_key(name),
        alt ==> !ctrl && travel_key(name),
{
    reveal_strlit("r");
    reveal_strlit("R");
    reveal_strlit("F5");
    reveal_strlit("t");
    reveal_strlit("T");
    reveal_strlit("f");
    reveal_strlit("F");
    reveal_strlit("g");
    reveal_strlit("G");
    assert(mark("r"@) == 94834);
    assert(mark("R"@) == 86610);
    assert(mark("F5"@) == 149045);
    assert(mark("t"@) == 95348);
    assert(mark("T"@) == 87124);
    assert(mark("f"@) == 91750);
    assert(mark("F"@) == 83526);
    assert(mark("g"@) == 92007);
    assert(mark("G"@) == 83783);
    let row = layout::builtin_b()[i];
    let k = choose|k: int| 0 <= k < row.keys.len() && row.keys[k] == name;
    assert(row.keys[k] == name);
    if i == 0 {
        assert(row.keys.len() == 2);
        assert(name == "r"@ || name == "R"@);
    } else if i == 1 {
        assert(row.keys.len() == 1);
        assert(name == "F5"@);
    } else if i == 2 {
        assert(row.keys.len() == 2);
        assert(name == "t"@ || name == "T"@);
    } else if i == 3 {
        assert(row.keys.len() == 2);
        assert(name == "f"@ || name == "F"@);
    } else if i == 4 {
        assert(row.keys.len() == 2);
        assert(name == "g"@ || name == "G"@);
    } else if i == 5 {
        assert(row.keys.len() == 2);
        assert(name == "g"@ || name == "G"@);
    }
}

proof fn lemma_seat_c(
    i: int,
    ctrl: bool,
    alt: bool,
    shift: bool,
    name: Seq<char>,
    palette_open: bool,
)
    requires
        0 <= i < 6,
        layout::answers(layout::builtin_c()[i], ctrl, alt, shift, name),
        layout::builtin_c()[i].when.holds(palette_open),
    ensures
        seat(ctrl, alt, shift, mark(name), palette_open) == 12 + i,
        !ctrl && !alt ==> own_key(name),
        alt ==> !ctrl && travel_key(name),
{
    reveal_strlit("F3");
    reveal_strlit("d");
    reveal_strlit("D");
    reveal_strlit("plus");
    reveal_strlit("equal");
    reveal_strlit("KP_Add");
    reveal_strlit("minus");
    reveal_strlit("underscore");
    reveal_strlit("KP_Subtract");
    reveal_strlit("0");
    reveal_strlit("KP_0");
    reveal_strlit("Tab");
    reveal_strlit("ISO_Left_Tab");
    assert(mark("F3"@) == 149043);
    assert(mark("d"@) == 91236);
    assert(mark("D"@) == 83012);
    assert(mark("plus"@) == 290931);
    assert(mark("equal"@) == 353644);
    assert(mark("KP_Add"@) == 412516);
    assert(mark("minus"@) == 355699);
    assert(mark("underscore"@) == 685413);
    assert(mark("KP_Subtract"@) == 740212);
    assert(mark("0"@) == 77872);
    assert(mark("KP_0"@) == 281392);
    assert(mark("Tab"@) == 218210);
    assert(mark("ISO_Left_Tab"@) == 805218);
    let row = layout::builtin_c()[i];
    let k = choose|k: int| 0 <= k < row.keys.len() && row.keys[k] == name;
    assert(row.keys[k] == name);
    if i == 0 {
        assert(row.keys.len() == 1);
        assert(name == "F3"@);
    } else if i == 1 {
        assert(row.keys.len() == 2);
        assert(name == "d"@ || name == "D"@);
    } else if i == 2 {
        assert(row.keys.len() == 3);
        assert(name == "plus"@ || name == "equal"@ || name == "KP_Add"@);
    } else if i == 3 {
        assert(row.keys.len() == 3);
        assert(name == "minus"@ || name == "underscore"@ || name == "KP_Subtract"@);
    } else if i == 4 {
        assert(row.keys.len() == 2);
        assert(name == "0"@ || name == "KP_0"@);
    } else if i == 5 {
        assert(row.keys.len() == 2);
        assert(name == "Tab"@ || name == "ISO_Left_Tab"@);
    }
}

proof fn lemma_seat_d(
    i: int,
    ctrl: bool,
    alt: bool,
    shift: bool,
    name: Seq<char>,
    palette_open: bool,
)
    requires
        0 <= i < 6,
        layout::answers(layout::builtin_d()[i], ctrl, alt, shift, name),
        layout::builtin_d()[i].when.holds(palette_open),
    ensures
        seat(ctrl, alt, shift, mark(name), palette_open) == 18 + i,
        !ctrl && !alt ==> own_key(name),
        alt ==> !ctrl && travel_key(name),
{
    reveal_strlit("Tab");
    reveal_strlit("ISO_Left_Tab");
    reveal_strlit("Page_Down");
    reveal_strlit("Next");
    reveal_strlit("KP_Page_Down");
    reveal_strlit("KP_Next");
    reveal_strlit("Page_Up");
    reveal_strlit("Prior");
    reveal_strlit("KP_Page_Up");
    reveal_strlit("KP_Prior");
    reveal_strlit("1");
    reveal_strlit("KP_1");
    reveal_strlit("2");
    reveal_strlit("KP_2");
    reveal_strlit("3");
    reveal_strlit("KP_3");
    assert(mark("Tab"@) == 218210);
    assert(mark("ISO_Left_Tab"@) == 805218);
    assert(mark("Page_Down"@) == 610414);
    assert(mark("Next"@) == 282228);
    assert(mark("KP_Page_Down"@) == 805742);
    assert(mark("KP_Next"@) == 478068);
    assert(mark("Page_Up"@) == 479344);
    assert(mark("Prior"@) == 348274);
    assert(mark("KP_Page_Up"@) == 674672);
    assert(mark("KP_Prior"@) == 543602);
    assert(mark("1"@) == 78129);
    assert(mark("KP_1"@) == 281393);
    assert(mark("2"@) == 78386);
    assert(mark("KP_2"@) == 281394);
    assert(mark("3"@) == 78643);
    assert(mark("KP_3"@) == 281395);
    let row = layout::builtin_d()[i];
    let k = choose|k: int| 0 <= k < row.keys.len() && row.keys[k] == name;
    assert(row.keys[k] == name);
    if i == 0 {
        assert(row.keys.len() == 2);
        assert(name == "Tab"@ || name == "ISO_Left_Tab"@);
    } else if i == 1 {
        assert(row.keys.len() == 4);
        assert(name == "Page_Down"@ || name == "Next"@ || name == "KP_Page_Down"@ || name == "KP_Next"@);
    } else if i == 2 {
        assert(row.keys.len() == 4);
        assert(name == "Page_Up"@ || name == "Prior"@ || name == "KP_Page_Up"@ || name == "KP_Prior"@);
    } else if i == 3 {
        assert(row.keys.len() == 2);
        assert(name == "1"@ || name == "KP_1"@);
    } else if i == 4 {
        assert(row.keys.len() == 2);
        assert(name == "2"@ || name == "KP_2"@);
    } else if i == 5 {
        assert(row.keys.len() == 2);
        assert(name == "3"@ || name == "KP_3"@);
    }
}

proof fn lemma_seat_e(
    i: int,
    ctrl: bool,
    alt: bool,
    shift: bool,
    name: Seq<char>,
    palette_open: bool,
)
    requires
        0 <= i < 6,
        layout::answers(layout::builtin_e()[i], ctrl, alt, shift, name),
        layout::builtin_e()[i].when.holds(palette_open),
    ensures
        seat(ctrl, alt, shift, mark(name), palette_open) == 24 + i,
        !ctrl && !alt ==> own_key(name),
        alt ==> !ctrl && travel_key(name),
{
    reveal_strlit("4");
    reveal_strlit("KP_4");
    reveal_strlit("5");
    reveal_strlit("KP_5");
    reveal_strlit("6");
    reveal_strlit("KP_6");
    reveal_strlit("7");
    reveal_strlit("KP_7");
    reveal_strlit("8");
    reveal_strlit("KP_8");
    reveal_strlit("9");
    reveal_strlit("KP_9");
    assert(mark("4"@) == 78900);
    assert(mark("KP_4"@) == 281396);
    assert(mark("5"@) == 79157);
    assert(mark("KP_5"@) == 281397);
    assert(mark("6"@) == 79414);
    assert(mark("KP_6"@) == 281398);
    assert(mark("7"@) == 79671);
    assert(mark("KP_7"@) == 281399);
    assert(mark("8"@) == 79928);
    assert(mark("KP_8"@) == 281400);
    assert(mark("9"@) == 80185);
    assert(mark("KP_9"@) == 281401);
    let row = layout::builtin_e()[i];
    let k = choose|k: int| 0 <= k < row.keys.len() && row.keys[k] == name;
    assert(row.keys[k] == name);
    if i == 0 {
        assert(row.keys.len() == 2);
        assert(name == "4"@ || name == "KP_4"@);
    } else if i == 1 {
        assert(row.keys.len() == 2);
        assert(name == "5"@ || name == "KP_5"@);
    } else if i == 2 {
        assert(row.keys.len() == 2);
        assert(name == "6"@ || name == "KP_6"@);
    } else if i == 3 {
        assert(row.keys.len() == 2);
        assert(name == "7"@ || name == "KP_7"@);
    } else if i == 4 {
        assert(row.keys.len() == 2);
        assert(name == "8"@ || name == "KP_8"@);
    } else if i == 5 {
        assert(row.keys.len() == 2);
        assert(name == "9"@ || name == "KP_9"@);
    }
}

proof fn lemma_seat_f(
    i: int,
    ctrl: bool,
    alt: bool,
    shift: bool,
    name: Seq<char>,
    palette_open: bool,
)
    requires
        0 <= i < 6,
        layout::answers(layout::builtin_f()[i], ctrl, alt, shift, name),
        layout::builtin_f()[i].when.holds(palette_open),
    ensures
        seat(ctrl, alt, shift, mark(name), palette_open) == 30 + i,
        !ctrl && !alt ==> own_key(name),
        alt ==> !ctrl && travel_key(name),
{
    reveal_strlit("Left");
    reveal_strlit("Right");
    reveal_strlit("Home");
    reveal_strlit("KP_Home");
    reveal_strlit("F11");
    reveal_strlit("Escape");
    assert(mark("Left"@) == 281716);
    assert(mark("Right"@) == 348788);
    assert(mark("Home"@) == 280677);
    assert(mark("KP_Home"@) == 478053);
    assert(mark("F11"@) == 214577);
    assert(mark("Escape"@) == 410981);
    let row = layout::builtin_f()[i];
    let k = choose|k: int| 0 <= k < row.keys.len() && row.keys[k] == name;
    assert(row.keys[k] == name);
    if i == 0 {
        assert(row.keys.len() == 1);
        assert(name == "Left"@);
    } else if i == 1 {
        assert(row.keys.len() == 1);
        assert(name == "Right"@);
    } else if i == 2 {
        assert(row.keys.len() == 2);
        assert(name == "Home"@ || name == "KP_Home"@);
    } else if i == 3 {
        assert(row.keys.len() == 1);
        assert(name == "F11"@);
    } else if i == 4 {
        assert(row.keys.len() == 1);
        assert(name == "Escape"@);
    } else if i == 5 {
        assert(row.keys.len() == 1);
        assert(name == "Escape"@);
    }
}

proof fn lemma_seat_g(
    i: int,
    ctrl: bool,
    alt: bool,
    shift: bool,
    name: Seq<char>,
    palette_open: bool,
)
    requires
        0 <= i < 6,
        layout::answers(layout::builtin_g()[i], ctrl, alt, shift, name),
        layout::builtin_g()[i].when.holds(palette_open),
    ensures
        seat(ctrl, alt, shift, mark(name), palette_open) == 36 + i,
        !ctrl && !alt ==> own_key(name),
        alt ==> !ctrl && travel_key(name),
{
    reveal_strlit("F12");
    reveal_strlit("i");
    reveal_strlit("I");
    reveal_strlit("u");
    reveal_strlit("U");
    reveal_strlit("p");
    reveal_strlit("P");
    reveal_strlit("j");
    reveal_strlit("J");
    reveal_strlit("m");
    reveal_strlit("M");
    assert(mark("F12"@) == 214578);
    assert(mark("i"@) == 92521);
    assert(mark("I"@) == 84297);
    assert(mark("u"@) == 95605);
    assert(mark("U"@) == 87381);
    assert(mark("p"@) == 94320);
    assert(mark("P"@) == 86096);
    assert(mark("j"@) == 92778);
    assert(mark("J"@) == 84554);
    assert(mark("m"@) == 93549);
    assert(mark("M"@) == 85325);
    let row = layout::builtin_g()[i];
    let k = choose|k: int| 0 <= k < row.keys.len() && row.keys[k] == name;
    assert(row.keys[k] == name);
    if i == 0 {
        assert(row.keys.len() == 1);
        assert(name == "F12"@);
    } else if i == 1 {
        assert(row.keys.len() == 2);
        assert(name == "i"@ || name == "I"@);
    } else if i == 2 {
        assert(row.keys.len() == 2);
        assert(name == "u"@ || name == "U"@);
    } else if i == 3 {
        assert(row.keys.len() == 2);
        assert(name == "p"@ || name == "P"@);
    } else if i == 4 {
        assert(row.keys.len() == 2);
        assert(name == "j"@ || name == "J"@);
    } else if i == 5 {
        assert(row.keys.len() == 2);
        assert(name == "m"@ || name == "M"@);
    }
}

/// The keys that the browser takes with nothing held down.
pub open spec fn own_key(name: Seq<char>) -> bool {
    name == "F3"@ || name == "F5"@ || name == "F11"@ || name == "F12"@ || name == "Escape"@
}

/// The keys that the browser takes with Alt held down.
pub open spec fn travel_key(name: Seq<char>) -> bool {
    name == "Left"@ || name == "Right"@ || name == "Home"@ || name == "KP_Home"@
}

proof fn lemma_table()
    ensures
        layout::builtin_rows().len() == 42,
        forall|i: int|
            0 <= i < 6 ==> #[trigger] layout::builtin_rows()[i] == layout::builtin_a()[i],
        forall|i: int|
            6 <= i < 12 ==> #[trigger] layout::builtin_rows()[i] == layout::builtin_b()[i - 6],
        forall|i: int|
            12 <= i < 18 ==> #[trigger] layout::builtin_rows()[i] == layout::builtin_c()[i - 12],
        forall|i: int|
            18 <= i < 24 ==> #[trigger] layout::builtin_rows()[i] == layout::builtin_d()[i - 18],
        forall|i: int|
            24 <= i < 30 ==> #[trigger] layout::builtin_rows()[i] == layout::builtin_e()[i - 24],
        forall|i: int|
            30 <= i < 36 ==> #[trigger] layout::builtin_rows()[i] == layout::builtin_f()[i - 30],
        forall|i: int|
            36 <= i < 42 ==> #[trigger] layout::builtin_rows()[i] == layout::builtin_g()[i - 36],
{
}

proof fn lemma_seat(
    i: int,
    ctrl: bool,
    alt: bool,
    shift: bool,
    name: Seq<char>,
    palette_open: bool,
)
    requires
        0 <= i < layout::builtin_rows().len(),
        layout::answers(layout::builtin_rows()[i], ctrl, alt, shift, name),
        layout::builtin_rows()[i].when.holds(palette_open),
    ensures
        seat(ctrl, alt, shift, mark(name), palette_open) == i,
        !ctrl && !alt ==> own_key(name),
        alt ==> !ctrl && travel_key(name),
{
    lemma_table();
    if i < 6 {
        lemma_seat_a(i, ctrl, alt, shift, name, palette_open);
    } else if i < 12 {
        lemma_seat_b(i - 6, ctrl, alt, shift, name, palette_open);
    } else if i < 18 {
        lemma_seat_c(i - 12, ctrl, alt, shift, name, palette_open);
    } else if i < 24 {
        lemma_seat_d(i - 18, ctrl, alt, shift, name, palette_open);
    } else if i < 30 {
        lemma_seat_e(i - 24, ctrl, alt, shift, name, palette_open);
    } else if i < 36 {
        lemma_seat_f(i - 30, ctrl, alt, shift, name, palette_open);
    } else {
        lemma_seat_g(i - 36, ctrl, alt, shift, name, palette_open);
    }
}

/// The key at `k` of row `i` runs what the row says, whatever stands before it.
proof fn lemma_key(
    i: int,
    k: int,
    ctrl: bool,
    alt: bool,
    shift: bool,
    name: Seq<char>,
    palette_open: bool,
)
    requires
        0 <= i < layout::builtin_rows().len(),
        0 <= k < layout::builtin_rows()[i].keys.len(),
        layout::builtin_rows()[i].keys[k] == name,
        layout::builtin_rows()[i].ctrl == ctrl,
        layout::builtin_rows()[i].alt == alt,
        layout::builtin_rows()[i].shift is None || layout::builtin_rows()[i].shift == Some(shift),
        layout::builtin_rows()[i].when.holds(palette_open),
    ensures
        runs(layout::builtin_rows(), ctrl, alt, shift, name, palette_open) == Some(
            (
                layout::builtin_rows()[i].tool,
                layout::builtin_rows()[i].args,
                layout::builtin_rows()[i].propagate,
            ),
        ),
{
    let all = layout::builtin_rows();
    let want = |row: layout::Row|
        layout::answers(row, ctrl, alt, shift, name) && row.when.holds(palette_open);
    assert(all[i].keys.contains(name));
    lemma_seat(i, ctrl, alt, shift, name, palette_open);
    assert forall|j: int| 0 <= j < i implies !want(#[trigger] all[j]) by {
        if want(all[j]) {
            lemma_seat(j, ctrl, alt, shift, name, palette_open);
        }
    }
    list::lemma_first_where(all, want, i);
}

// ---------------------------------------------------------------------------
// Laws
// ---------------------------------------------------------------------------

/// No keystroke is claimed by two rows of the table.
pub proof fn law_one_row_to_a_keystroke(
    i: int,
    j: int,
    ctrl: bool,
    alt: bool,
    shift: bool,
    name: Seq<char>,
    palette_open: bool,
)
    requires
        0 <= i < layout::builtin_rows().len(),
        0 <= j < layout::builtin_rows().len(),
        layout::answers(layout::builtin_rows()[i], ctrl, alt, shift, name),
        layout::builtin_rows()[i].when.holds(palette_open),
        layout::answers(layout::builtin_rows()[j], ctrl, alt, shift, name),
        layout::builtin_rows()[j].when.holds(palette_open),
    ensures
        i == j,
{
    lemma_seat(i, ctrl, alt, shift, name, palette_open);
    lemma_seat(j, ctrl, alt, shift, name, palette_open);
}

/// A key with nothing held down belongs to the page, but for five. With Alt held
/// down four are the browser's, and with Alt and Ctrl none is.
pub proof fn law_other_keys_belong_to_the_page(
    ctrl: bool,
    alt: bool,
    shift: bool,
    name: Seq<char>,
    palette_open: bool,
)
    ensures
        !ctrl && !alt && !own_key(name) ==> runs(
            layout::builtin_rows(),
            ctrl,
            alt,
            shift,
            name,
            palette_open,
        ) is None,
        alt && (ctrl || !travel_key(name)) ==> runs(
            layout::builtin_rows(),
            ctrl,
            alt,
            shift,
            name,
            palette_open,
        ) is None,
{
    let want = |row: layout::Row|
        layout::answers(row, ctrl, alt, shift, name) && row.when.holds(palette_open);
    list::lemma_first_where_is_first(layout::builtin_rows(), want);
    match layout::struck(layout::builtin_rows(), ctrl, alt, shift, name, palette_open) {
        Some(i) => {
            lemma_seat(i, ctrl, alt, shift, name, palette_open);
        },
        None => {},
    }
}

/// Ctrl-K, Ctrl-L and Ctrl-P bring the palette up or put it away, and Ctrl-F brings it
/// up asking what to find.
pub proof fn law_keys_for_the_palette(shift: bool, palette_open: bool)
    ensures
        ({
            let all = layout::builtin_rows();
            &&& runs(all, true, false, shift, "k"@, palette_open)
                == with_one("ui_palette"@, "action"@, dispatch::Given::Text("toggle"@))
            &&& runs(all, true, false, shift, "K"@, palette_open)
                == with_one("ui_palette"@, "action"@, dispatch::Given::Text("toggle"@))
            &&& runs(all, true, false, shift, "l"@, palette_open)
                == with_one("ui_palette"@, "action"@, dispatch::Given::Text("toggle"@))
            &&& runs(all, true, false, shift, "L"@, palette_open)
                == with_one("ui_palette"@, "action"@, dispatch::Given::Text("toggle"@))
            &&& runs(all, true, false, false, "p"@, palette_open)
                == with_one("ui_palette"@, "action"@, dispatch::Given::Text("toggle"@))
            &&& runs(all, true, false, false, "P"@, palette_open)
                == with_one("ui_palette"@, "action"@, dispatch::Given::Text("toggle"@))
            &&& runs(all, true, false, shift, "f"@, palette_open)
                == Some(("ui_palette"@, seq![("action"@, dispatch::Given::Text("show"@)), ("stage"@, dispatch::Given::Text("find_text"@))], false))
            &&& runs(all, true, false, shift, "F"@, palette_open)
                == Some(("ui_palette"@, seq![("action"@, dispatch::Given::Text("show"@)), ("stage"@, dispatch::Given::Text("find_text"@))], false))
        }),
{
    lemma_table();
    lemma_key(0, 0, true, false, shift, "k"@, palette_open);
    lemma_key(0, 1, true, false, shift, "K"@, palette_open);
    lemma_key(0, 2, true, false, shift, "l"@, palette_open);
    lemma_key(0, 3, true, false, shift, "L"@, palette_open);
    lemma_key(1, 0, true, false, false, "p"@, palette_open);
    lemma_key(1, 1, true, false, false, "P"@, palette_open);
    lemma_key(9, 0, true, false, shift, "f"@, palette_open);
    lemma_key(9, 1, true, false, shift, "F"@, palette_open);
}

/// Ctrl-T opens a tab, Ctrl-W closes one, Ctrl-Shift-T brings the last one back, and
/// Ctrl-M silences it.
pub proof fn law_keys_for_tabs(shift: bool, palette_open: bool)
    ensures
        ({
            let all = layout::builtin_rows();
            &&& runs(all, true, false, false, "t"@, palette_open) == plain("tab_open"@)
            &&& runs(all, true, false, false, "T"@, palette_open) == plain("tab_open"@)
            &&& runs(all, true, false, false, "w"@, palette_open) == plain("tab_close"@)
            &&& runs(all, true, false, false, "W"@, palette_open) == plain("tab_close"@)
            &&& runs(all, true, false, true, "t"@, palette_open) == plain("tab_reopen"@)
            &&& runs(all, true, false, true, "T"@, palette_open) == plain("tab_reopen"@)
            &&& runs(all, true, false, false, "m"@, palette_open)
                == with_one("tab_mute"@, "action"@, dispatch::Given::Text("toggle"@))
            &&& runs(all, true, false, false, "M"@, palette_open)
                == with_one("tab_mute"@, "action"@, dispatch::Given::Text("toggle"@))
        }),
{
    lemma_table();
    lemma_key(2, 0, true, false, false, "t"@, palette_open);
    lemma_key(2, 1, true, false, false, "T"@, palette_open);
    lemma_key(5, 0, true, false, false, "w"@, palette_open);
    lemma_key(5, 1, true, false, false, "W"@, palette_open);
    lemma_key(8, 0, true, false, true, "t"@, palette_open);
    lemma_key(8, 1, true, false, true, "T"@, palette_open);
    lemma_key(41, 0, true, false, false, "m"@, palette_open);
    lemma_key(41, 1, true, false, false, "M"@, palette_open);
}

/// Ctrl-N opens a window, Ctrl-Shift-W closes it, and F11 fills the screen with it.
pub proof fn law_keys_for_windows(shift: bool, palette_open: bool)
    ensures
        ({
            let all = layout::builtin_rows();
            &&& runs(all, true, false, false, "n"@, palette_open) == plain("window_new"@)
            &&& runs(all, true, false, false, "N"@, palette_open) == plain("window_new"@)
            &&& runs(all, true, false, true, "w"@, palette_open) == plain("window_close"@)
            &&& runs(all, true, false, true, "W"@, palette_open) == plain("window_close"@)
            &&& runs(all, false, false, shift, "F11"@, palette_open)
                == with_one("window_fullscreen"@, "action"@, dispatch::Given::Text("toggle"@))
        }),
{
    lemma_table();
    lemma_key(3, 0, true, false, false, "n"@, palette_open);
    lemma_key(3, 1, true, false, false, "N"@, palette_open);
    lemma_key(4, 0, true, false, true, "w"@, palette_open);
    lemma_key(4, 1, true, false, true, "W"@, palette_open);
    lemma_key(33, 0, false, false, shift, "F11"@, palette_open);
}

/// Ctrl-Tab and Ctrl-Page-Down go to the next tab, with Shift or Page-Up to the one
/// before.
pub proof fn law_keys_for_going_round_tabs(shift: bool, palette_open: bool)
    ensures
        ({
            let all = layout::builtin_rows();
            &&& runs(all, true, false, false, "Tab"@, palette_open)
                == with_one("tab_cycle"@, "delta"@, dispatch::Given::Integer(1))
            &&& runs(all, true, false, false, "ISO_Left_Tab"@, palette_open)
                == with_one("tab_cycle"@, "delta"@, dispatch::Given::Integer(1))
            &&& runs(all, true, false, true, "Tab"@, palette_open)
                == with_one("tab_cycle"@, "delta"@, dispatch::Given::Integer(-1))
            &&& runs(all, true, false, true, "ISO_Left_Tab"@, palette_open)
                == with_one("tab_cycle"@, "delta"@, dispatch::Given::Integer(-1))
            &&& runs(all, true, false, false, "Page_Down"@, palette_open)
                == with_one("tab_cycle"@, "delta"@, dispatch::Given::Integer(1))
            &&& runs(all, true, false, false, "Next"@, palette_open)
                == with_one("tab_cycle"@, "delta"@, dispatch::Given::Integer(1))
            &&& runs(all, true, false, false, "KP_Page_Down"@, palette_open)
                == with_one("tab_cycle"@, "delta"@, dispatch::Given::Integer(1))
            &&& runs(all, true, false, false, "KP_Next"@, palette_open)
                == with_one("tab_cycle"@, "delta"@, dispatch::Given::Integer(1))
            &&& runs(all, true, false, false, "Page_Up"@, palette_open)
                == with_one("tab_cycle"@, "delta"@, dispatch::Given::Integer(-1))
            &&& runs(all, true, false, false, "Prior"@, palette_open)
                == with_one("tab_cycle"@, "delta"@, dispatch::Given::Integer(-1))
            &&& runs(all, true, false, false, "KP_Page_Up"@, palette_open)
                == with_one("tab_cycle"@, "delta"@, dispatch::Given::Integer(-1))
            &&& runs(all, true, false, false, "KP_Prior"@, palette_open)
                == with_one("tab_cycle"@, "delta"@, dispatch::Given::Integer(-1))
        }),
{
    lemma_table();
    lemma_key(17, 0, true, false, false, "Tab"@, palette_open);
    lemma_key(17, 1, true, false, false, "ISO_Left_Tab"@, palette_open);
    lemma_key(18, 0, true, false, true, "Tab"@, palette_open);
    lemma_key(18, 1, true, false, true, "ISO_Left_Tab"@, palette_open);
    lemma_key(19, 0, true, false, false, "Page_Down"@, palette_open);
    lemma_key(19, 1, true, false, false, "Next"@, palette_open);
    lemma_key(19, 2, true, false, false, "KP_Page_Down"@, palette_open);
    lemma_key(19, 3, true, false, false, "KP_Next"@, palette_open);
    lemma_key(20, 0, true, false, false, "Page_Up"@, palette_open);
    lemma_key(20, 1, true, false, false, "Prior"@, palette_open);
    lemma_key(20, 2, true, false, false, "KP_Page_Up"@, palette_open);
    lemma_key(20, 3, true, false, false, "KP_Prior"@, palette_open);
}

/// Ctrl with a digit goes to that tab, counted from the left.
pub proof fn law_keys_for_the_first_tabs(shift: bool, palette_open: bool)
    ensures
        ({
            let all = layout::builtin_rows();
            &&& runs(all, true, false, false, "1"@, palette_open)
                == with_one("tab_select"@, "index"@, dispatch::Given::Integer(1))
            &&& runs(all, true, false, false, "KP_1"@, palette_open)
                == with_one("tab_select"@, "index"@, dispatch::Given::Integer(1))
            &&& runs(all, true, false, false, "2"@, palette_open)
                == with_one("tab_select"@, "index"@, dispatch::Given::Integer(2))
            &&& runs(all, true, false, false, "KP_2"@, palette_open)
                == with_one("tab_select"@, "index"@, dispatch::Given::Integer(2))
            &&& runs(all, true, false, false, "3"@, palette_open)
                == with_one("tab_select"@, "index"@, dispatch::Given::Integer(3))
            &&& runs(all, true, false, false, "KP_3"@, palette_open)
                == with_one("tab_select"@, "index"@, dispatch::Given::Integer(3))
            &&& runs(all, true, false, false, "4"@, palette_open)
                == with_one("tab_select"@, "index"@, dispatch::Given::Integer(4))
            &&& runs(all, true, false, false, "KP_4"@, palette_open)
                == with_one("tab_select"@, "index"@, dispatch::Given::Integer(4))
        }),
{
    lemma_table();
    lemma_key(21, 0, true, false, false, "1"@, palette_open);
    lemma_key(21, 1, true, false, false, "KP_1"@, palette_open);
    lemma_key(22, 0, true, false, false, "2"@, palette_open);
    lemma_key(22, 1, true, false, false, "KP_2"@, palette_open);
    lemma_key(23, 0, true, false, false, "3"@, palette_open);
    lemma_key(23, 1, true, false, false, "KP_3"@, palette_open);
    lemma_key(24, 0, true, false, false, "4"@, palette_open);
    lemma_key(24, 1, true, false, false, "KP_4"@, palette_open);
}

/// So it does up to eight; with nine it goes to the last tab, however many there are.
pub proof fn law_keys_for_the_last_tabs(shift: bool, palette_open: bool)
    ensures
        ({
            let all = layout::builtin_rows();
            &&& runs(all, true, false, false, "5"@, palette_open)
                == with_one("tab_select"@, "index"@, dispatch::Given::Integer(5))
            &&& runs(all, true, false, false, "KP_5"@, palette_open)
                == with_one("tab_select"@, "index"@, dispatch::Given::Integer(5))
            &&& runs(all, true, false, false, "6"@, palette_open)
                == with_one("tab_select"@, "index"@, dispatch::Given::Integer(6))
            &&& runs(all, true, false, false, "KP_6"@, palette_open)
                == with_one("tab_select"@, "index"@, dispatch::Given::Integer(6))
            &&& runs(all, true, false, false, "7"@, palette_open)
                == with_one("tab_select"@, "index"@, dispatch::Given::Integer(7))
            &&& runs(all, true, false, false, "KP_7"@, palette_open)
                == with_one("tab_select"@, "index"@, dispatch::Given::Integer(7))
            &&& runs(all, true, false, false, "8"@, palette_open)
                == with_one("tab_select"@, "index"@, dispatch::Given::Integer(8))
            &&& runs(all, true, false, false, "KP_8"@, palette_open)
                == with_one("tab_select"@, "index"@, dispatch::Given::Integer(8))
            &&& runs(all, true, false, false, "9"@, palette_open)
                == with_one("tab_select"@, "index"@, dispatch::Given::Integer(-1))
            &&& runs(all, true, false, false, "KP_9"@, palette_open)
                == with_one("tab_select"@, "index"@, dispatch::Given::Integer(-1))
        }),
{
    lemma_table();
    lemma_key(25, 0, true, false, false, "5"@, palette_open);
    lemma_key(25, 1, true, false, false, "KP_5"@, palette_open);
    lemma_key(26, 0, true, false, false, "6"@, palette_open);
    lemma_key(26, 1, true, false, false, "KP_6"@, palette_open);
    lemma_key(27, 0, true, false, false, "7"@, palette_open);
    lemma_key(27, 1, true, false, false, "KP_7"@, palette_open);
    lemma_key(28, 0, true, false, false, "8"@, palette_open);
    lemma_key(28, 1, true, false, false, "KP_8"@, palette_open);
    lemma_key(29, 0, true, false, false, "9"@, palette_open);
    lemma_key(29, 1, true, false, false, "KP_9"@, palette_open);
}

/// Ctrl-G and F3 go to the next match, Ctrl-Shift-G to the one before.
pub proof fn law_keys_for_finding(shift: bool, palette_open: bool)
    ensures
        ({
            let all = layout::builtin_rows();
            &&& runs(all, true, false, false, "g"@, palette_open) == plain("find_next"@)
            &&& runs(all, true, false, false, "G"@, palette_open) == plain("find_next"@)
            &&& runs(all, true, false, true, "g"@, palette_open) == plain("find_previous"@)
            &&& runs(all, true, false, true, "G"@, palette_open) == plain("find_previous"@)
            &&& runs(all, false, false, shift, "F3"@, palette_open) == plain("find_next"@)
        }),
{
    lemma_table();
    lemma_key(10, 0, true, false, false, "g"@, palette_open);
    lemma_key(10, 1, true, false, false, "G"@, palette_open);
    lemma_key(11, 0, true, false, true, "g"@, palette_open);
    lemma_key(11, 1, true, false, true, "G"@, palette_open);
    lemma_key(12, 0, false, false, shift, "F3"@, palette_open);
}

/// Ctrl with plus, minus or nought makes the page larger, smaller, or its own size.
pub proof fn law_keys_for_zoom(shift: bool, palette_open: bool)
    ensures
        ({
            let all = layout::builtin_rows();
            &&& runs(all, true, false, shift, "plus"@, palette_open)
                == with_one("page_zoom"@, "direction"@, dispatch::Given::Text("in"@))
            &&& runs(all, true, false, shift, "equal"@, palette_open)
                == with_one("page_zoom"@, "direction"@, dispatch::Given::Text("in"@))
            &&& runs(all, true, false, shift, "KP_Add"@, palette_open)
                == with_one("page_zoom"@, "direction"@, dispatch::Given::Text("in"@))
            &&& runs(all, true, false, shift, "minus"@, palette_open)
                == with_one("page_zoom"@, "direction"@, dispatch::Given::Text("out"@))
            &&& runs(all, true, false, shift, "underscore"@, palette_open)
                == with_one("page_zoom"@, "direction"@, dispatch::Given::Text("out"@))
            &&& runs(all, true, false, shift, "KP_Subtract"@, palette_open)
                == with_one("page_zoom"@, "direction"@, dispatch::Given::Text("out"@))
            &&& runs(all, true, false, shift, "0"@, palette_open)
                == with_one("page_zoom"@, "direction"@, dispatch::Given::Text("reset"@))
            &&& runs(all, true, false, shift, "KP_0"@, palette_open)
                == with_one("page_zoom"@, "direction"@, dispatch::Given::Text("reset"@))
        }),
{
    lemma_table();
    lemma_key(14, 0, true, false, shift, "plus"@, palette_open);
    lemma_key(14, 1, true, false, shift, "equal"@, palette_open);
    lemma_key(14, 2, true, false, shift, "KP_Add"@, palette_open);
    lemma_key(15, 0, true, false, shift, "minus"@, palette_open);
    lemma_key(15, 1, true, false, shift, "underscore"@, palette_open);
    lemma_key(15, 2, true, false, shift, "KP_Subtract"@, palette_open);
    lemma_key(16, 0, true, false, shift, "0"@, palette_open);
    lemma_key(16, 1, true, false, shift, "KP_0"@, palette_open);
}

/// Alt with the arrows goes back and forward, Alt-Home home, and Ctrl-R and F5 load
/// the page again.
pub proof fn law_keys_for_going_places(shift: bool, palette_open: bool)
    ensures
        ({
            let all = layout::builtin_rows();
            &&& runs(all, false, true, shift, "Left"@, palette_open) == plain("nav_back"@)
            &&& runs(all, false, true, shift, "Right"@, palette_open) == plain("nav_forward"@)
            &&& runs(all, false, true, shift, "Home"@, palette_open) == plain("nav_home"@)
            &&& runs(all, false, true, shift, "KP_Home"@, palette_open) == plain("nav_home"@)
            &&& runs(all, true, false, shift, "r"@, palette_open) == plain("nav_reload"@)
            &&& runs(all, true, false, shift, "R"@, palette_open) == plain("nav_reload"@)
            &&& runs(all, false, false, shift, "F5"@, palette_open) == plain("nav_reload"@)
        }),
{
    lemma_table();
    lemma_key(30, 0, false, true, shift, "Left"@, palette_open);
    lemma_key(31, 0, false, true, shift, "Right"@, palette_open);
    lemma_key(32, 0, false, true, shift, "Home"@, palette_open);
    lemma_key(32, 1, false, true, shift, "KP_Home"@, palette_open);
    lemma_key(6, 0, true, false, shift, "r"@, palette_open);
    lemma_key(6, 1, true, false, shift, "R"@, palette_open);
    lemma_key(7, 0, false, false, shift, "F5"@, palette_open);
}

/// Escape puts the palette away when it is up. When it is not, Escape stops the load,
/// and the page sees the key too.
pub proof fn law_keys_for_escape(shift: bool, palette_open: bool)
    ensures
        ({
            let all = layout::builtin_rows();
            &&& runs(all, false, false, shift, "Escape"@, true)
                == with_one("ui_palette"@, "action"@, dispatch::Given::Text("hide"@))
            &&& runs(all, false, false, shift, "Escape"@, false)
                == Some(("nav_stop"@, Seq::<(Seq<char>, dispatch::Given)>::empty(), true))
        }),
{
    lemma_table();
    lemma_key(34, 0, false, false, shift, "Escape"@, true);
    lemma_key(35, 0, false, false, shift, "Escape"@, false);
}

/// Ctrl-D bookmarks the page, Ctrl-Shift-P prints it, Ctrl-U shows its source, F12 and
/// Ctrl-Shift-I its inspector, and Ctrl-J opens what was downloaded last.
pub proof fn law_keys_for_the_page(shift: bool, palette_open: bool)
    ensures
        ({
            let all = layout::builtin_rows();
            &&& runs(all, true, false, shift, "d"@, palette_open) == plain("bookmark_add"@)
            &&& runs(all, true, false, shift, "D"@, palette_open) == plain("bookmark_add"@)
            &&& runs(all, false, false, shift, "F12"@, palette_open)
                == with_one("page_devtools"@, "action"@, dispatch::Given::Text("toggle"@))
            &&& runs(all, true, false, true, "i"@, palette_open)
                == with_one("page_devtools"@, "action"@, dispatch::Given::Text("toggle"@))
            &&& runs(all, true, false, true, "I"@, palette_open)
                == with_one("page_devtools"@, "action"@, dispatch::Given::Text("toggle"@))
            &&& runs(all, true, false, false, "u"@, palette_open)
                == with_one("page_source"@, "open"@, dispatch::Given::Flag(true))
            &&& runs(all, true, false, false, "U"@, palette_open)
                == with_one("page_source"@, "open"@, dispatch::Given::Flag(true))
            &&& runs(all, true, false, true, "p"@, palette_open) == plain("page_print"@)
            &&& runs(all, true, false, true, "P"@, palette_open) == plain("page_print"@)
            &&& runs(all, true, false, false, "j"@, palette_open)
                == with_one("download_open"@, "index"@, dispatch::Given::Integer(1))
            &&& runs(all, true, false, false, "J"@, palette_open)
                == with_one("download_open"@, "index"@, dispatch::Given::Integer(1))
        }),
{
    lemma_table();
    lemma_key(13, 0, true, false, shift, "d"@, palette_open);
    lemma_key(13, 1, true, false, shift, "D"@, palette_open);
    lemma_key(36, 0, false, false, shift, "F12"@, palette_open);
    lemma_key(37, 0, true, false, true, "i"@, palette_open);
    lemma_key(37, 1, true, false, true, "I"@, palette_open);
    lemma_key(38, 0, true, false, false, "u"@, palette_open);
    lemma_key(38, 1, true, false, false, "U"@, palette_open);
    lemma_key(39, 0, true, false, true, "p"@, palette_open);
    lemma_key(39, 1, true, false, true, "P"@, palette_open);
    lemma_key(40, 0, true, false, false, "j"@, palette_open);
    lemma_key(40, 1, true, false, false, "J"@, palette_open);
}

/// Whether a keystroke is one a chord names.
pub open spec fn strikes(
    chord: keys::Press,
    ctrl: bool,
    alt: bool,
    shift: bool,
    name: Seq<char>,
) -> bool {
    &&& chord.ctrl == ctrl
    &&& chord.alt == alt
    &&& chord.shift == Some(shift)
    &&& chord.keys.contains(name)
}

proof fn lemma_answering_is_addressed(
    row: layout::Row,
    chord: keys::Press,
    ctrl: bool,
    alt: bool,
    shift: bool,
    name: Seq<char>,
)
    requires
        strikes(chord, ctrl, alt, shift, name),
        layout::answers(row, ctrl, alt, shift, name),
    ensures
        layout::addressed(row, chord),
{
    let k = choose|k: int| 0 <= k < row.keys.len() && row.keys[k] == name;
    assert(chord.keys.contains(row.keys[k]));
}

/// A chord written in the configuration runs the command written behind it, whether the
/// keystroke ran something before or the chord is new, and a chord unbound runs nothing.
pub proof fn law_written_chord_runs_its_command(
    all: Seq<layout::Row>,
    chord: keys::Press,
    tool: Seq<char>,
    args: Seq<(Seq<char>, dispatch::Given)>,
    shift: bool,
    name: Seq<char>,
    palette_open: bool,
)
    requires
        strikes(chord, chord.ctrl, chord.alt, shift, name),
    ensures
        ({
            let bound = layout::changed(all, layout::Change::Bind(chord, tool, args));
            let gone = layout::changed(all, layout::Change::Unbind(chord));
            let before = runs(all, chord.ctrl, chord.alt, shift, name, palette_open);
            let after = runs(bound, chord.ctrl, chord.alt, shift, name, palette_open);
            &&& before is Some || !layout::any_addressed(all, chord) ==> {
                &&& after is Some
                &&& (after->0).0 == tool
                &&& (after->0).1 == args
            }
            &&& runs(gone, chord.ctrl, chord.alt, shift, name, palette_open) is None
        }),
{
    let want = |row: layout::Row|
        layout::answers(row, chord.ctrl, chord.alt, shift, name) && row.when.holds(palette_open);
    let bound = layout::changed(all, layout::Change::Bind(chord, tool, args));
    let gone = layout::changed(all, layout::Change::Unbind(chord));
    list::lemma_first_where_is_first(all, want);
    if layout::any_addressed(all, chord) {
        if let Some(i) = list::first_where(all, want) {
            assert forall|j: int| 0 <= j < i implies !want(#[trigger] bound[j]) by {
                assert(!want(all[j]));
            }
            lemma_answering_is_addressed(all[i], chord, chord.ctrl, chord.alt, shift, name);
            assert(want(bound[i]));
            list::lemma_first_where(bound, want, i);
        }
    } else {
        let end = all.len() as int;
        assert forall|j: int| 0 <= j < end implies !want(#[trigger] bound[j]) by {
            assert(bound[j] == all[j]);
            if want(all[j]) {
                lemma_answering_is_addressed(all[j], chord, chord.ctrl, chord.alt, shift, name);
            }
        }
        assert(want(bound[end]));
        list::lemma_first_where(bound, want, end);
    }
    let keep = |row: layout::Row| !layout::addressed(row, chord);
    list::lemma_kept(all, keep);
    assert forall|j: int| 0 <= j < gone.len() implies !want(#[trigger] gone[j]) by {
        assert(keep(gone[j]));
        if want(gone[j]) {
            lemma_answering_is_addressed(gone[j], chord, chord.ctrl, chord.alt, shift, name);
        }
    }
    list::lemma_first_where(gone, want, gone.len() as int);
}

/// A chord written in the configuration changes no other keystroke: one that no row it
/// addresses answers to, and that it does not name itself, runs what it ran before.
pub proof fn law_other_keystrokes_stay(
    all: Seq<layout::Row>,
    chord: keys::Press,
    tool: Seq<char>,
    args: Seq<(Seq<char>, dispatch::Given)>,
    ctrl: bool,
    alt: bool,
    shift: bool,
    name: Seq<char>,
    palette_open: bool,
)
    requires
        chord.shift is Some,
        !strikes(chord, ctrl, alt, shift, name),
        forall|i: int|
            0 <= i < all.len() && layout::addressed(#[trigger] all[i], chord) ==> !layout::answers(
                all[i],
                ctrl,
                alt,
                shift,
                name,
            ),
    ensures
        ({
            let bound = layout::changed(all, layout::Change::Bind(chord, tool, args));
            let gone = layout::changed(all, layout::Change::Unbind(chord));
            let before = runs(all, ctrl, alt, shift, name, palette_open);
            &&& runs(bound, ctrl, alt, shift, name, palette_open) == before
            &&& runs(gone, ctrl, alt, shift, name, palette_open) == before
        }),
{
    let want = |row: layout::Row|
        layout::answers(row, ctrl, alt, shift, name) && row.when.holds(palette_open);
    let bound = layout::changed(all, layout::Change::Bind(chord, tool, args));
    let gone = layout::changed(all, layout::Change::Unbind(chord));
    list::lemma_first_where_is_first(all, want);
    let n = all.len() as int;
    if layout::any_addressed(all, chord) {
        assert forall|j: int| 0 <= j < n implies (#[trigger] want(bound[j]) <==> want(all[j])) by {}
        match list::first_where(all, want) {
            Some(i) => {
                assert forall|j: int| 0 <= j < i implies !want(#[trigger] bound[j]) by {
                    assert(!want(all[j]));
                }
                assert(want(bound[i]));
                list::lemma_first_where(bound, want, i);
            },
            None => {
                assert forall|j: int| 0 <= j < n implies !want(#[trigger] bound[j]) by {
                    assert(!want(all[j]));
                }
                list::lemma_first_where(bound, want, n);
            },
        }
    } else {
        assert(!want(bound[n]));
        match list::first_where(all, want) {
            Some(i) => {
                assert forall|j: int| 0 <= j < i implies !want(#[trigger] bound[j]) by {
                    assert(bound[j] == all[j]);
                }
                assert(bound[i] == all[i]);
                list::lemma_first_where(bound, want, i);
            },
            None => {
                assert forall|j: int| 0 <= j < n + 1 implies !want(#[trigger] bound[j]) by {
                    if j < n {
                        assert(bound[j] == all[j]);
                    }
                }
                list::lemma_first_where(bound, want, n + 1);
            },
        }
    }
    let keep = |row: layout::Row| !layout::addressed(row, chord);
    lemma_kept_stays(all, keep, want);
}

proof fn lemma_kept_stays(
    all: Seq<layout::Row>,
    keep: spec_fn(layout::Row) -> bool,
    want: spec_fn(layout::Row) -> bool,
)
    requires
        forall|i: int| 0 <= i < all.len() && want(#[trigger] all[i]) ==> keep(all[i]),
    ensures
        match (list::first_where(all, want), list::first_where(list::kept(all, keep), want)) {
            (Some(i), Some(k)) => all[i] == list::kept(all, keep)[k],
            (None, None) => true,
            _ => false,
        },
{
    let both = |row: layout::Row| want(row) && keep(row);
    let left = list::kept(all, keep);
    list::lemma_kept_first(all, keep, both);
    list::lemma_kept(all, keep);
    list::lemma_first_where_is_first(all, both);
    list::lemma_first_where_is_first(left, both);
    match list::first_where(all, both) {
        Some(i) => {
            assert forall|j: int| 0 <= j < i implies !want(#[trigger] all[j]) by {
                assert(!both(all[j]));
            }
            list::lemma_first_where(all, want, i);
            let k = list::first_where(left, both)->0;
            assert forall|j: int| 0 <= j < k implies !want(#[trigger] left[j]) by {
                assert(!both(left[j]));
                assert(keep(left[j]));
            }
            list::lemma_first_where(left, want, k);
        },
        None => {
            assert forall|j: int| 0 <= j < all.len() implies !want(#[trigger] all[j]) by {
                assert(!both(all[j]));
            }
            list::lemma_first_where(all, want, all.len() as int);
            assert forall|j: int| 0 <= j < left.len() implies !want(#[trigger] left[j]) by {
                assert(!both(left[j]));
                assert(keep(left[j]));
            }
            list::lemma_first_where(left, want, left.len() as int);
        },
    }
}

} // verus!
