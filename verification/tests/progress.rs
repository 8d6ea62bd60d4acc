use oma_browse::progress::{await_paint, call, painted, Wait, PAINT_GRACE};

#[test]
fn a_call_is_guarded_and_carries_both_facts() {
    // The guard is what keeps a reload race out of the console.
    assert_eq!(call(Some(5_000)), "window.__omaLoad&&__omaLoad(0.5000,true)");
    assert!(call(None).ends_with("false)"), "finishing has to say so");
    assert!(call(None).starts_with("window.__omaLoad&&"), "unguarded");
}

#[test]
fn a_fraction_outside_the_range_is_brought_back_into_it() {
    // The engine is well behaved here, but the value crosses a thread and ends up in a
    // `scaleX`, where a number above one would overhang the window.
    assert_eq!(call(Some(14_000)), "window.__omaLoad&&__omaLoad(1.0000,true)");
    assert_eq!(call(Some(-2_000)), "window.__omaLoad&&__omaLoad(0.0000,true)");
}

#[test]
fn the_bar_waits_for_something_to_look_at() {
    assert!(painted("true"));
    assert!(painted("\"true\""));
    assert!(!painted("false"));
    assert_eq!(await_paint(false, None, 0), Wait::Done);
    assert_eq!(await_paint(true, Some("false"), 0), Wait::Again);
    assert_eq!(await_paint(true, Some("true"), 0), Wait::Done);
    assert_eq!(await_paint(true, None, PAINT_GRACE), Wait::Done);
}
