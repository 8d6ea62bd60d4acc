//! `share`: hand the current page to the rest of the desktop.

use vstd::prelude::*;

use crate::commands;
use crate::commands::{Here, Refusal};
use crate::text;

verus! {

/// A page that was handed over.
#[derive(Debug)]
pub struct Shared {
    pub url: String,
    /// What the page was handed to, for the record.
    pub via: String,
}

/// A helper to run, and what to say once it has.
#[derive(Debug)]
pub struct Handoff {
    pub program: &'static str,
    pub args: Vec<String>,
    /// What a failure of the helper is reported as.
    pub code: &'static str,
    pub shared: Shared,
}

/// Why running a desktop helper came to nothing, if it did: its status where it
/// failed, and what went wrong where it could not be run at all.
pub open spec fn mishap(program: Seq<char>, ran: Result<Option<String>, String>) -> Option<Seq<char>> {
    match ran {
        Ok(None) => None,
        Ok(Some(status)) => Some(program + " exited with "@ + status@),
        Err(e) => Some("could not run "@ + program + ": "@ + e@),
    }
}

/// What came of running a desktop helper: nothing to say where it succeeded, its
/// status where it did not, and why where it could not be run.
pub fn handoff(program: &str, ran: Result<Option<String>, String>) -> (r: Result<(), String>)
    ensures
        match mishap(program@, ran) {
            None => r is Ok,
            Some(message) => r matches Err(why) && why@ == message,
        },
{
    match ran {
        Ok(None) => Ok(()),
        Ok(Some(status)) => {
            let mut why = program.to_owned();
            why.append(" exited with ");
            why.append(status.as_str());
            Err(why)
        },
        Err(e) => {
            let mut why = "could not run ".to_owned();
            why.append(program);
            why.append(": ");
            why.append(e.as_str());
            Err(why)
        },
    }
}

/// What handing a page over comes to, once its helper was run: the page, or a
/// refusal under the command's own code.
pub fn handed(to: Handoff, ran: Result<Option<String>, String>) -> (r: Result<Shared, Refusal>)
    ensures
        match mishap(to.program@, ran) {
            None => r == Ok::<Shared, Refusal>(to.shared),
            Some(message) => r matches Err(refusal) && commands::refuses(
                refusal,
                to.code@,
                message,
            ),
        },
{
    match handoff(to.program, ran) {
        Ok(_) => Ok(to.shared),
        Err(message) => Err(Refusal { code: to.code, message }),
    }
}

/// `share copy`: put the page's address on the clipboard.
pub fn copy(here: Option<&Here>) -> (r: Result<Handoff, Refusal>)
    ensures
        match commands::here_url(here) {
            Some(url) => r matches Ok(to) && to.program@ == "wl-copy"@ && text::texts(to.args@)
                == seq![url] && to.code@ == "clipboard"@ && to.shared.url@ == url
                && to.shared.via@ == "wl-copy"@,
            None => r matches Err(refusal) && commands::refuses(
                refusal,
                "usage"@,
                "there is no page"@,
            ),
        },
{
    let url = match commands::url_of(here) {
        Some(url) => url,
        None => return Err(commands::refuse("usage", "there is no page")),
    };
    let mut args: Vec<String> = Vec::new();
    args.push(url.clone());
    assert(text::texts(args@) =~= seq![url@]);
    Ok(
        Handoff {
            program: "wl-copy",
            args,
            code: "clipboard",
            shared: Shared { url, via: "wl-copy".to_owned() },
        },
    )
}

/// The page to install: the one asked for, or the one being looked at.
pub open spec fn installed(url: Option<Seq<char>>, here: Option<Seq<char>>) -> Option<Seq<char>> {
    commands::nonempty(commands::first(url, here))
}

/// The name it is installed under: the one asked for, or the page's own, and
/// where that is empty the address.
pub open spec fn app_title(
    title: Option<Seq<char>>,
    here: Option<Seq<char>>,
    url: Seq<char>,
) -> Seq<char> {
    match commands::nonempty(commands::first(title, here)) {
        Some(title) => title,
        None => url,
    }
}

/// The icon it is installed with: the host's own name, without its last label.
pub open spec fn app_icon(url: Seq<char>) -> Seq<char> {
    let steps = text::pieces(url, '/');
    if steps.len() > 2 {
        let labels = text::pieces(steps[2], '.');
        if labels.len() > 1 {
            labels[labels.len() - 2]
        } else {
            "web"@
        }
    } else {
        "web"@
    }
}

fn icon_of(url: &str) -> (r: String)
    ensures
        r@ == app_icon(url@),
{
    let steps = text::split(url, '/');
    assert(text::texts(steps@).len() == steps@.len());
    if steps.len() > 2 {
        assert(text::texts(steps@)[2] == steps@[2]@);
        let labels = text::split(steps[2].as_str(), '.');
        assert(text::texts(labels@).len() == labels@.len());
        if labels.len() > 1 {
            assert(text::texts(labels@)[labels@.len() - 2] == labels@[labels@.len() - 2]@);
            return labels[labels.len() - 2].clone();
        }
    }
    "web".to_owned()
}

/// `share webapp`: install a page as an application of its own.
///
/// The last argument is what the launcher runs: without it the launcher opens
/// another browser. It is the absolute path of this program, because a launcher
/// is run by whatever has no idea what this shell's path was.
pub fn webapp(
    url: Option<String>,
    title: Option<String>,
    here: Option<&Here>,
    exe: Option<&str>,
) -> (r: Result<Handoff, Refusal>)
    ensures
        match installed(text::maybe_owned(url), commands::here_url(here)) {
            Some(at) => r matches Ok(to) && to.program@ == "omarchy"@ && text::texts(to.args@)
                == seq![
                "webapp"@,
                "install"@,
                app_title(text::maybe_owned(title), commands::here_title(here), at),
                at,
                app_icon(at),
                (match exe {
                    Some(exe) => exe@,
                    None => "oma-browse"@,
                }) + " --app "@ + at,
            ] && to.code@ == "omarchy"@ && to.shared.url@ == at && to.shared.via@
                == "omarchy webapp"@,
            None => r matches Err(refusal) && commands::refuses(
                refusal,
                "usage"@,
                "there is no page"@,
            ),
        },
{
    let url = match commands::unless_empty(commands::either(url, commands::url_of(here))) {
        Some(url) => url,
        None => return Err(commands::refuse("usage", "there is no page")),
    };
    let title = match commands::unless_empty(commands::either(title, commands::title_of(here))) {
        Some(title) => title,
        None => url.clone(),
    };
    let mut exec = match exe {
        Some(exe) => exe.to_owned(),
        None => "oma-browse".to_owned(),
    };
    exec.append(" --app ");
    exec.append(url.as_str());
    let ghost said = seq!["webapp"@, "install"@, title@, url@, app_icon(url@), exec@];
    let mut args: Vec<String> = Vec::new();
    args.push("webapp".to_owned());
    args.push("install".to_owned());
    args.push(title);
    args.push(url.clone());
    args.push(icon_of(url.as_str()));
    args.push(exec);
    assert(text::texts(args@) =~= said);
    Ok(
        Handoff {
            program: "omarchy",
            args,
            code: "omarchy",
            shared: Shared { url, via: "omarchy webapp".to_owned() },
        },
    )
}

/// What a terminal is to run: put the address on the clipboard, show it, and hold
/// a shell open.
pub open spec fn shell_line(url: Seq<char>) -> Seq<char> {
    "printf %s "@ + text::shown(url) + " | wl-copy; echo "@ + text::shown(url)
        + "; exec $SHELL"@
}

/// `share terminal`: open a terminal with the page's address on the clipboard.
pub fn terminal(here: Option<&Here>) -> (r: Result<Handoff, Refusal>)
    ensures
        match commands::here_url(here) {
            Some(url) => r matches Ok(to) && to.program@ == "ghostty"@ && text::texts(to.args@)
                == seq!["-e"@, "bash"@, "-lc"@, shell_line(url)] && to.code@ == "terminal"@
                && to.shared.url@ == url && to.shared.via@ == "ghostty"@,
            None => r matches Err(refusal) && commands::refuses(
                refusal,
                "usage"@,
                "there is no page"@,
            ),
        },
{
    let url = match commands::url_of(here) {
        Some(url) => url,
        None => return Err(commands::refuse("usage", "there is no page")),
    };
    let shown = text::show(url.as_str());
    let mut line = "printf %s ".to_owned();
    line.append(shown.as_str());
    line.append(" | wl-copy; echo ");
    line.append(shown.as_str());
    line.append("; exec $SHELL");
    let ghost said = line@;
    let mut args: Vec<String> = Vec::new();
    args.push("-e".to_owned());
    args.push("bash".to_owned());
    args.push("-lc".to_owned());
    args.push(line);
    assert(text::texts(args@) =~= seq!["-e"@, "bash"@, "-lc"@, said]);
    Ok(
        Handoff {
            program: "ghostty",
            args,
            code: "terminal",
            shared: Shared { url, via: "ghostty".to_owned() },
        },
    )
}

// ---------------------------------------------------------------------------
// Laws
// ---------------------------------------------------------------------------

/// An app takes its icon from the name of its host: the label in front of the last,
/// however many stand before it.
pub proof fn law_icon_is_the_hosts_name(
    scheme: Seq<char>,
    labels: Seq<Seq<char>>,
    rest: Seq<char>,
)
    requires
        labels.len() > 1,
        forall|i: int|
            0 <= i < labels.len() ==> !(#[trigger] labels[i]).contains('.') && !labels[i].contains(
                '/',
            ),
        !scheme.contains('/'),
        !rest.contains('/'),
    ensures
        app_icon(
            scheme + seq!['/', '/'] + text::joined(labels, seq!['.']) + seq!['/'] + rest,
        ) == labels[labels.len() - 2],
{
    let host = text::joined(labels, seq!['.']);
    let none = Seq::<char>::empty();
    let steps = seq![scheme, none, host, rest];
    lemma_joined_is_plain(labels);
    assert forall|i: int| 0 <= i < steps.len() implies !(#[trigger] steps[i]).contains('/') by {}
    let slash = seq!['/'];
    assert(steps.drop_last() =~= seq![scheme, none, host]);
    assert(seq![scheme, none, host].drop_last() =~= seq![scheme, none]);
    assert(seq![scheme, none].drop_last() =~= seq![scheme]);
    assert(text::joined(seq![scheme], slash) == scheme);
    assert(text::joined(seq![scheme, none], slash) == scheme + slash + none);
    assert(text::joined(seq![scheme, none, host], slash) == scheme + slash + none + slash + host);
    assert(text::joined(steps, slash) == scheme + slash + none + slash + host + slash + rest);
    let url = scheme + seq!['/', '/'] + host + slash + rest;
    assert(url =~= text::joined(steps, slash));
    text::lemma_pieces_of_joined(steps, '/');
    text::lemma_pieces_of_joined(labels, '.');
}

proof fn lemma_joined_is_plain(labels: Seq<Seq<char>>)
    requires
        forall|i: int| 0 <= i < labels.len() ==> !(#[trigger] labels[i]).contains('/'),
    ensures
        !text::joined(labels, seq!['.']).contains('/'),
    decreases labels.len(),
{
    let whole = text::joined(labels, seq!['.']);
    if labels.len() == 1 {
        assert(!labels[0].contains('/'));
    } else if labels.len() > 1 {
        let front = labels.drop_last();
        assert forall|i: int| 0 <= i < front.len() implies !(#[trigger] front[i]).contains('/') by {
            assert(front[i] == labels[i]);
        }
        lemma_joined_is_plain(front);
        let before = text::joined(front, seq!['.']);
        let last = labels[labels.len() - 1];
        if whole.contains('/') {
            let k = choose|k: int| 0 <= k < whole.len() && whole[k] == '/';
            if k < before.len() {
                assert(before[k] == '/');
            } else if k > before.len() {
                assert(last[k - before.len() - 1] == '/');
            }
        }
    }
}

/// A program that ran well leaves nothing to tell. One that did not is named in what is told,
/// and so is what went wrong.
pub proof fn law_mishap_names_the_program(program: Seq<char>, ran: Result<Option<String>, String>)
    ensures
        mishap(program, ran) is None <==> ran matches Ok(None),
        ran matches Ok(Some(status)) ==> program.is_prefix_of(mishap(program, ran)->0)
            && status@.is_suffix_of(mishap(program, ran)->0),
        ran matches Err(e) ==> e@.is_suffix_of(mishap(program, ran)->0) && text::says(
            mishap(program, ran)->0,
            program,
        ),
{
    match ran {
        Err(e) => {
            let head = "could not run "@;
            let told = head + program + ": "@ + e@;
            assert(told.subrange(head.len() as int, head.len() as int + program.len()) =~= program);
            assert(text::stands_at(told, program, head.len() as int));
        },
        _ => {},
    }
}

/// The title that was asked for is used before the one of the page, and the address where
/// neither says anything.
pub proof fn law_title_asked_for_wins(asked: Seq<char>, here: Option<Seq<char>>, url: Seq<char>)
    requires
        asked.len() > 0,
    ensures
        app_title(Some(asked), here, url) == asked,
        app_title(None, Some(asked), url) == asked,
        app_title(None, None, url) == url,
        app_title(None, Some(Seq::empty()), url) == url,
        installed(Some(asked), here) == Some(asked),
        installed(None, Some(asked)) == Some(asked),
        installed(None, None) is None,
{
}

} // verus!
