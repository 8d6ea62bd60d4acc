use oma_browse::paths::{resolve, shellexpand, with_caller_cwd, Scope};

const HOME: Option<&str> = Some("/home/me");

#[test]
fn an_absolute_path_is_left_alone() {
    assert_eq!(resolve("/tmp/a.png", &Scope::nobody(), HOME).unwrap(), "/tmp/a.png");
    // And does not pick up a caller's directory it does not need.
    with_caller_cwd("/home/someone", |scope: &Scope| {
        assert_eq!(resolve("/tmp/a.png", scope, HOME).unwrap(), "/tmp/a.png");
    });
}

#[test]
fn a_relative_path_lands_where_the_caller_was_standing() {
    with_caller_cwd("/home/someone/work", |scope: &Scope| {
        assert_eq!(resolve("shot.png", scope, HOME).unwrap(), "/home/someone/work/shot.png");
        assert_eq!(
            resolve("./out/shot.png", scope, HOME).unwrap(),
            "/home/someone/work/./out/shot.png"
        );
    });
}

#[test]
fn a_relative_path_with_nobody_asking_is_refused() {
    // What this exists for: writing to the browser's own working directory and
    // reporting success.
    let e = resolve("shot.png", &Scope::nobody(), HOME).unwrap_err();
    assert!(e.contains("relative path"), "{e}");
}

#[test]
fn the_scope_does_not_outlive_the_command() {
    with_caller_cwd("/home/someone", |scope: &Scope| assert!(scope.caller_cwd().is_some()));
    assert!(Scope::nobody().caller_cwd().is_none());

    // Nested, because one blocking thread runs one command after another and the second
    // must not inherit the first's directory.
    with_caller_cwd("/a", |outer: &Scope| {
        with_caller_cwd("/b", |inner: &Scope| assert_eq!(inner.caller_cwd(), Some("/b")));
        assert_eq!(outer.caller_cwd(), Some("/a"));
    });
}

#[test]
fn a_caller_without_a_directory_is_not_one() {
    // An empty or relative `cwd` on the wire is a client that did not send one; joining
    // onto it would be worse than saying so.
    for bad in ["", "relative/dir"] {
        with_caller_cwd(bad, |scope: &Scope| assert!(resolve("shot.png", scope, HOME).is_err()));
    }
}

#[test]
fn a_tilde_is_the_only_expansion() {
    assert_eq!(shellexpand("~/x", HOME), "/home/me/x");
    assert_eq!(shellexpand("$HOME/x", HOME), "$HOME/x");
    assert_eq!(shellexpand("/tmp/~/x", HOME), "/tmp/~/x");
    assert_eq!(shellexpand("~/x", None), "~/x");
}
