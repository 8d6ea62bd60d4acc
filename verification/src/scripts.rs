//! Your own JavaScript and CSS, on the sites you choose.
//!
//! A `.js` or a `.css` file in the scripts directory, with a header saying where
//! it applies:
//!
//! ```text
//! // ==UserScript==
//! // @name     Wider articles
//! // @match    https://example.com/*
//! // @exclude  https://example.com/admin/*
//! // @run-at   document-end
//! // ==/UserScript==
//! ```
//!
//! A pattern is `scheme://host/path`, and the engine wants all three. It has no
//! concept of a port. A pattern it cannot use is reported against its file,
//! because it does not fail loudly; it fails by never running. A file with no
//! `@match` is not injected anywhere: a script that silently does nothing is a
//! much better accident than one that silently runs everywhere.

use vstd::prelude::*;

use crate::list;
use crate::pathname;
use crate::profile;
use crate::text;

verus! {

/// How much of a file is its header: a `@match` further down is somebody's
/// string constant.
pub const HEADER_LINES: usize = 40;

/// One file in the scripts directory.
#[derive(Debug, Clone)]
pub struct Script {
    /// `@name`, or the file name when it has none.
    pub name: String,
    /// The file it came from.
    pub path: String,
    /// `js` or `css`.
    pub kind: String,
    /// The URL patterns it runs on.
    pub matches: Vec<String>,
    /// The URL patterns it is kept off.
    pub excludes: Vec<String>,
    /// `document-start` or `document-end`. Always `document-start` for CSS,
    /// which is not injected at a time so much as applied.
    pub run_at: String,
    /// Why this file is not being injected, or empty when it is.
    pub problem: String,
}

/// What a header says.
pub struct Header {
    pub name: Seq<char>,
    pub matches: Seq<Seq<char>>,
    pub excludes: Seq<Seq<char>>,
    pub run_at: Seq<char>,
}

impl Script {
    /// What this one's header says.
    pub open spec fn header(self) -> Header {
        Header {
            name: self.name@,
            matches: text::texts(self.matches@),
            excludes: text::texts(self.excludes@),
            run_at: self.run_at@,
        }
    }

    /// Whether this one will actually be injected.
    pub fn live(&self) -> (r: bool)
        ensures
            r == (self.problem@.len() == 0),
    {
        self.problem.as_str().is_empty()
    }
}

/// The user's configuration directory, given what `XDG_CONFIG_HOME` and `HOME`
/// say.
pub open spec fn config_home(config: Option<Seq<char>>, home: Option<Seq<char>>) -> Seq<char> {
    match config {
        Some(dir) => if pathname::absolute(dir) {
            dir
        } else {
            home_config(home)
        },
        None => home_config(home),
    }
}

pub open spec fn home_config(home: Option<Seq<char>>) -> Seq<char> {
    match home {
        Some(home) => pathname::under(home, ".config"@),
        None => "."@,
    }
}

/// Where userscripts live: beside the config file, because that is what they
/// are. Per profile: a script written for one is not automatically wanted in the
/// other.
pub fn dir(config: Option<&str>, home: Option<&str>, profile: Option<&str>) -> (r: String)
    ensures
        r@ == pathname::under(
            profile::profile_home(
                pathname::under(config_home(text::maybe(config), text::maybe(home)), "oma-browse"@),
                text::maybe(profile),
            ),
            "scripts"@,
        ),
{
    let fallback = match home {
        Some(home) => pathname::join(home, ".config"),
        None => ".".to_owned(),
    };
    let base = match config {
        Some(dir) => if pathname::is_absolute(dir) {
            dir.to_owned()
        } else {
            fallback
        },
        None => fallback,
    };
    let base = pathname::join(base.as_str(), "oma-browse");
    pathname::join(profile::within(base.as_str(), profile).as_str(), "scripts")
}

// ---------------------------------------------------------------------------
// The files
// ---------------------------------------------------------------------------

/// Whether a file is a script or a stylesheet, going by its name.
pub open spec fn is_script(name: Seq<char>) -> bool {
    match pathname::extension_of(name) {
        Some(ext) => text::lowered(ext) == "js"@ || text::lowered(ext) == "css"@,
        None => false,
    }
}

/// The order names are taken in.
pub open spec fn by_name() -> spec_fn(Seq<char>, Seq<char>) -> bool {
    |a: Seq<char>, b: Seq<char>| text::precedes(a, b)
}

/// The scripts among the names in a directory, in the order they are applied in.
pub open spec fn picked(names: Seq<Seq<char>>) -> Seq<Seq<char>> {
    list::arranged(list::kept(names, |name: Seq<char>| is_script(name)), by_name())
}

fn scripted(name: &str) -> (r: bool)
    ensures
        r == is_script(name@),
{
    match pathname::extension(name) {
        Some(ext) => {
            let ext = text::to_lower(ext.as_str());
            text::same(ext.as_str(), "js") || text::same(ext.as_str(), "css")
        },
        None => false,
    }
}

/// The files to read, given what a directory holds: by name, so the order two
/// scripts are applied in is the order they are listed in and does not change
/// between runs.
pub fn load(dir: &str, names: &[String]) -> (r: Vec<String>)
    ensures
        text::texts(r@) == picked(text::texts(names@)).map_values(
            |name: Seq<char>| pathname::under(dir@, name),
        ),
{
    let ghost all = text::texts(names@);
    let ghost keep = |name: Seq<char>| is_script(name);
    let mut sorted: Vec<String> = Vec::new();
    let mut i: usize = 0;
    assert(all.take(0) =~= Seq::empty());
    assert(text::texts(sorted@) =~= Seq::empty());
    while i < names.len()
        invariant
            i <= names.len(),
            all == text::texts(names@),
            keep == (|name: Seq<char>| is_script(name)),
            text::texts(sorted@) == list::arranged(
                list::kept(all.take(i as int), keep),
                by_name(),
            ),
        decreases names.len() - i,
    {
        let ghost front = list::kept(all.take(i as int), keep);
        let ghost name = names@[i as int]@;
        assert(all.take(i + 1).drop_last() =~= all.take(i as int));
        assert(all[i as int] == name);
        if scripted(names[i].as_str()) {
            let mut at: usize = 0;
            while at < sorted.len() && !text::before(names[i].as_str(), sorted[at].as_str())
                invariant
                    at <= sorted.len(),
                    i < names.len(),
                    name == names@[i as int]@,
                    forall|j: int|
                        0 <= j < at ==> !text::precedes(name, #[trigger] text::texts(sorted@)[j]),
                decreases sorted.len() - at,
            {
                assert(text::texts(sorted@)[at as int] == sorted@[at as int]@);
                at += 1;
            }
            let ghost before = sorted@;
            proof {
                assert(front.push(name).drop_last() =~= front);
                if at < before.len() {
                    assert(text::texts(before)[at as int] == before[at as int]@);
                }
                list::lemma_placed(text::texts(before), name, by_name(), at as int);
            }
            sorted.insert(at, names[i].clone());
            assert(text::texts(sorted@) =~= text::texts(before).insert(at as int, name));
        }
        i += 1;
    }
    assert(all.take(i as int) =~= all);
    let mut out: Vec<String> = Vec::new();
    let mut k: usize = 0;
    while k < sorted.len()
        invariant
            k <= sorted.len(),
            text::texts(out@) =~= text::texts(sorted@).take(k as int).map_values(
                |name: Seq<char>| pathname::under(dir@, name),
            ),
        decreases sorted.len() - k,
    {
        let ghost before = out@;
        out.push(pathname::join(dir, sorted[k].as_str()));
        assert(text::texts(sorted@)[k as int] == sorted@[k as int]@);
        assert(text::texts(out@) =~= text::texts(before).push(
            pathname::under(dir@, sorted@[k as int]@),
        ));
        k += 1;
    }
    assert(text::texts(sorted@).take(k as int) =~= text::texts(sorted@));
    out
}

// ---------------------------------------------------------------------------
// Patterns
// ---------------------------------------------------------------------------

/// A pattern in the one spelling of "everywhere" that the engine takes.
pub open spec fn normal(pattern: Seq<char>) -> Seq<char> {
    let bare = text::trimmed(pattern);
    if bare == "*"@ || bare == "<all_urls>"@ {
        "*://*/*"@
    } else {
        bare
    }
}

/// The spellings everybody writes for "everywhere", in the one the engine takes.
/// A person who wrote either meant something unambiguous, so they are rewritten
/// rather than refused.
pub fn normalise(pattern: &str) -> (r: String)
    ensures
        r@ == normal(pattern@),
{
    let bare = text::trim(pattern);
    if text::same(bare.as_str(), "*") || text::same(bare.as_str(), "<all_urls>") {
        "*://*/*".to_owned()
    } else {
        bare
    }
}

/// Why the engine will not match on a pattern, if it will not.
pub open spec fn troubled(pattern: Seq<char>) -> Option<Seq<char>> {
    match text::cut_text(pattern, "://"@) {
        None => Some(
            "names no scheme, and WebKit matches on one; put `*://` in front of the host"@,
        ),
        Some((_, rest)) => match text::cut_first(rest, '/') {
            None => Some("names no path, and WebKit matches on one too; end it with `/*`"@),
            Some((host, _)) => if host.contains(':') {
                Some(
                    "names a port, which WebKit's matcher has no concept of, so it matches nothing; drop the port and it applies to every port on that host"@,
                )
            } else {
                None
            },
        },
    }
}

/// Why the engine will not match on this pattern, if it will not.
///
/// Every case here is one the engine accepts and then silently never matches,
/// which is the worst way for it to fail.
pub fn trouble(pattern: &str) -> (r: Option<&'static str>)
    ensures
        troubled(pattern@) == match r {
            Some(why) => Some(why@),
            None => None,
        },
{
    match text::split_text(pattern, "://") {
        None => Some("names no scheme, and WebKit matches on one; put `*://` in front of the host"),
        Some((_, rest)) => match text::split_once(rest.as_str(), '/') {
            None => Some("names no path, and WebKit matches on one too; end it with `/*`"),
            Some((host, _)) => {
                let chars = text::chars_of(host.as_str());
                if text::holds(&chars, ':') {
                    Some(
                        "names a port, which WebKit's matcher has no concept of, so it matches nothing; drop the port and it applies to every port on that host",
                    )
                } else {
                    None
                }
            },
        },
    }
}

// ---------------------------------------------------------------------------
// The header
// ---------------------------------------------------------------------------

/// A line without the comment around it: `//`, or `/*` and `*/`, or the star
/// that a line of a block comment begins with.
pub open spec fn uncommented(line: Seq<char>) -> Seq<char> {
    let line = text::trimmed(line);
    let inner = if text::has_prefix(line, "//"@) {
        line
    } else {
        text::trimmed(text::without_suffixes(text::without_prefixes(line, "/*"@), "*/"@))
    };
    text::trimmed(
        text::trim_start_by(text::without_prefixes(inner, "//"@), |c: char| "*"@.contains(c)),
    )
}

/// The key and the value a line of a header gives.
pub open spec fn field_of(line: Seq<char>) -> Option<(Seq<char>, Seq<char>)> {
    match text::without_prefix(uncommented(line), "@"@) {
        Some(rest) => match list::first_where(rest, |c: char| text::is_space(c)) {
            Some(i) => if text::trimmed(rest.skip(i + 1)).len() > 0 {
                Some((text::lowered(rest.take(i)), text::trimmed(rest.skip(i + 1))))
            } else {
                None
            },
            None => None,
        },
        None => None,
    }
}

/// A header with one more line of it read.
pub open spec fn with_field(header: Header, key: Seq<char>, value: Seq<char>) -> Header {
    if key == "name"@ {
        Header { name: value, ..header }
    } else if key == "match"@ || key == "include"@ {
        Header { matches: header.matches.push(value), ..header }
    } else if key == "exclude"@ || key == "exclude-match"@ {
        Header { excludes: header.excludes.push(value), ..header }
    } else if key == "run-at"@ {
        Header {
            run_at: if value == "document-start"@ || value == "document_start"@ {
                "document-start"@
            } else {
                "document-end"@
            },
            ..header
        }
    } else {
        header
    }
}

/// What a header says once these lines are read, if it said `header` before.
pub open spec fn with_lines(lines: Seq<Seq<char>>, header: Header) -> Header
    decreases lines.len(),
{
    if lines.len() == 0 {
        header
    } else {
        let before = with_lines(lines.drop_last(), header);
        match field_of(lines.last()) {
            Some((key, value)) => with_field(before, key, value),
            None => before,
        }
    }
}

/// What a file's header says, over what was taken for granted.
pub open spec fn header_of(source: Seq<char>, header: Header) -> Header {
    with_lines(list::at_most(text::lines(source), HEADER_LINES as nat), header)
}

fn bare_line(line: &str) -> (r: String)
    ensures
        r@ == uncommented(line@),
{
    let line = text::trim(line);
    let line = if text::starts_with(line.as_str(), "//") {
        line
    } else {
        let line = text::trim_prefixes(line.as_str(), "/*");
        let line = text::trim_suffixes(line.as_str(), "*/");
        text::trim(line.as_str())
    };
    let line = text::trim_prefixes(line.as_str(), "//");
    let line = text::trim_start_of(line.as_str(), "*");
    text::trim(line.as_str())
}

fn read_field(line: &str) -> (r: Option<(String, String)>)
    ensures
        match r {
            Some((key, value)) => field_of(line@) == Some((key@, value@)),
            None => field_of(line@) is None,
        },
{
    let line = bare_line(line);
    let rest = match text::strip_prefix(line.as_str(), "@") {
        Some(rest) => text::chars_of(rest.as_str()),
        None => return None,
    };
    let ghost want = |c: char| text::is_space(c);
    let mut i: usize = 0;
    while i < rest.len() && !text::space(rest[i])
        invariant
            i <= rest.len(),
            want == (|c: char| text::is_space(c)),
            forall|j: int| 0 <= j < i ==> !want(#[trigger] rest@[j]),
        decreases rest.len() - i,
    {
        i += 1;
    }
    proof {
        list::lemma_first_where(rest@, want, i as int);
    }
    if i >= rest.len() {
        return None;
    }
    let key = text::slice_of(&rest, 0, i);
    let value = text::slice_of(&rest, i + 1, rest.len());
    assert(key@ =~= rest@.take(i as int));
    assert(value@ =~= rest@.skip(i + 1));
    let value = text::trim(value.as_str());
    if value.as_str().is_empty() {
        return None;
    }
    Some((text::to_lower(key.as_str()), value))
}

fn apply_field(script: &mut Script, key: &str, value: String)
    ensures
        final(script).header() == with_field(old(script).header(), key@, value@),
        final(script).path == old(script).path,
        final(script).kind == old(script).kind,
        final(script).problem == old(script).problem,
{
    let ghost said = value@;
    if text::same(key, "name") {
        script.name = value;
    } else if text::same(key, "match") || text::same(key, "include") {
        let ghost before = script.matches@;
        script.matches.push(value);
        assert(text::texts(script.matches@) =~= text::texts(before).push(said));
    } else if text::same(key, "exclude") || text::same(key, "exclude-match") {
        let ghost before = script.excludes@;
        script.excludes.push(value);
        assert(text::texts(script.excludes@) =~= text::texts(before).push(said));
    } else if text::same(key, "run-at") {
        script.run_at = if text::same(value.as_str(), "document-start") || text::same(
            value.as_str(),
            "document_start",
        ) {
            "document-start".to_owned()
        } else {
            "document-end".to_owned()
        };
    }
}

/// Pull `@name`, `@match`, `@exclude` and `@run-at` out of a file's header.
///
/// Forgiving about the wrapper and strict about the keys: a `.js` file writes
/// `// @match`, a `.css` file writes the same line inside a block comment, and
/// the fences around a header are optional. Only the top of the file is read.
pub fn parse_header(source: &str, script: &mut Script)
    ensures
        final(script).header() == header_of(source@, old(script).header()),
        final(script).path == old(script).path,
        final(script).kind == old(script).kind,
        final(script).problem == old(script).problem,
{
    let lines = text::split_lines(source);
    let ghost all = text::texts(lines@);
    let ghost top = list::at_most(all, HEADER_LINES as nat);
    let ghost began = *script;
    let mut i: usize = 0;
    assert(top.take(0) =~= Seq::empty());
    while i < lines.len() && i < HEADER_LINES
        invariant
            i <= lines.len(),
            i <= HEADER_LINES,
            all == text::texts(lines@),
            top == list::at_most(all, HEADER_LINES as nat),
            i <= top.len(),
            script.header() == with_lines(top.take(i as int), began.header()),
            script.path == began.path,
            script.kind == began.kind,
            script.problem == began.problem,
        decreases lines.len() - i,
    {
        assert(i < top.len());
        assert(top.take(i + 1).drop_last() =~= top.take(i as int));
        assert(top[i as int] == all[i as int]);
        assert(all[i as int] == lines@[i as int]@);
        if let Some((key, value)) = read_field(lines[i].as_str()) {
            apply_field(script, key.as_str(), value);
        }
        i += 1;
    }
    assert(top.take(i as int) =~= top);
}

// ---------------------------------------------------------------------------
// One file
// ---------------------------------------------------------------------------

/// What kind of file a path leads to.
pub open spec fn kind_of(path: Seq<char>) -> Seq<char> {
    match pathname::extension_of(path) {
        Some(ext) => if text::lowered(ext) == "css"@ {
            "css"@
        } else {
            "js"@
        },
        None => "js"@,
    }
}

/// What is taken for granted of a file before its header is read.
pub open spec fn blank(path: Seq<char>) -> Header {
    Header {
        name: match pathname::name_of(path) {
            Some(name) => name,
            None => Seq::empty(),
        },
        matches: Seq::empty(),
        excludes: Seq::empty(),
        run_at: "document-end"@,
    }
}

/// The first of the patterns the engine would ignore, and why, if there is one.
pub open spec fn first_trouble(patterns: Seq<Seq<char>>) -> Seq<char> {
    match list::first_where(patterns, |p: Seq<char>| troubled(p) is Some) {
        Some(i) => "`"@ + patterns[i] + "` "@ + troubled(patterns[i])->0,
        None => Seq::empty(),
    }
}

/// What a file comes to: what its header says in the end, and why it is not
/// injected, if it is not.
pub open spec fn reading(path: Seq<char>, source: Option<Seq<char>>) -> (Header, Seq<char>) {
    match source {
        None => (blank(path), "could not be read"@),
        Some(source) => {
            let read = header_of(source, blank(path));
            let timed = Header {
                run_at: if kind_of(path) == "css"@ {
                    "document-start"@
                } else {
                    read.run_at
                },
                ..read
            };
            if read.matches.len() == 0 {
                (timed, "no @match, so it is not injected anywhere; add one to the header"@)
            } else {
                let matches = read.matches.map_values(|p: Seq<char>| normal(p));
                let excludes = read.excludes.map_values(|p: Seq<char>| normal(p));
                (Header { matches, excludes, ..timed }, first_trouble(matches))
            }
        },
    }
}

fn normalise_all(patterns: &Vec<String>) -> (r: Vec<String>)
    ensures
        text::texts(r@) == text::texts(patterns@).map_values(|p: Seq<char>| normal(p)),
{
    let mut out: Vec<String> = Vec::new();
    let mut i: usize = 0;
    while i < patterns.len()
        invariant
            i <= patterns.len(),
            text::texts(out@) =~= text::texts(patterns@).take(i as int).map_values(
                |p: Seq<char>| normal(p),
            ),
        decreases patterns.len() - i,
    {
        let ghost before = out@;
        out.push(normalise(patterns[i].as_str()));
        assert(text::texts(patterns@)[i as int] == patterns@[i as int]@);
        assert(text::texts(out@) =~= text::texts(before).push(normal(patterns@[i as int]@)));
        i += 1;
    }
    assert(text::texts(patterns@).take(i as int) =~= text::texts(patterns@));
    out
}

fn find_trouble(patterns: &Vec<String>) -> (r: String)
    ensures
        r@ == first_trouble(text::texts(patterns@)),
{
    let ghost all = text::texts(patterns@);
    let ghost want = |p: Seq<char>| troubled(p) is Some;
    let mut i: usize = 0;
    while i < patterns.len()
        invariant
            i <= patterns.len(),
            all == text::texts(patterns@),
            want == (|p: Seq<char>| troubled(p) is Some),
            forall|j: int| 0 <= j < i ==> !want(#[trigger] all[j]),
        decreases patterns.len() - i,
    {
        assert(all[i as int] == patterns@[i as int]@);
        if let Some(why) = trouble(patterns[i].as_str()) {
            proof {
                list::lemma_first_where(all, want, i as int);
            }
            let mut out = "`".to_owned();
            out.append(patterns[i].as_str());
            out.append("` ");
            out.append(why);
            return out;
        }
        i += 1;
    }
    proof {
        list::lemma_first_where(all, want, i as int);
    }
    String::new()
}

/// Read one file, given what it holds, if that could be read at all.
///
/// A file that is not injected comes back too, carrying its problem, so that a
/// list of them can say why a file is not doing anything.
pub fn read_one(path: &str, source: Option<&str>) -> (r: Script)
    ensures
        r.path@ == path@,
        r.kind@ == kind_of(path@),
        (r.header(), r.problem@) == reading(path@, text::maybe(source)),
{
    let kind = match pathname::extension(path) {
        Some(ext) => if text::same(text::to_lower(ext.as_str()).as_str(), "css") {
            "css"
        } else {
            "js"
        },
        None => "js",
    };
    let name = match pathname::file_name(path) {
        Some(name) => name,
        None => String::new(),
    };
    let mut script = Script {
        name,
        path: path.to_owned(),
        kind: kind.to_owned(),
        matches: Vec::new(),
        excludes: Vec::new(),
        run_at: "document-end".to_owned(),
        problem: String::new(),
    };
    assert(text::texts(script.matches@) =~= Seq::empty());
    assert(text::texts(script.excludes@) =~= Seq::empty());
    assert(script.header() == blank(path@));
    let source = match source {
        Some(source) => source,
        None => {
            script.problem = "could not be read".to_owned();
            return script;
        },
    };
    parse_header(source, &mut script);
    if text::same(kind, "css") {
        script.run_at = "document-start".to_owned();
    }
    assert(text::texts(script.matches@).len() == script.matches@.len());
    if script.matches.len() == 0 {
        script.problem = "no @match, so it is not injected anywhere; add one to the header".to_owned();
        return script;
    }
    script.matches = normalise_all(&script.matches);
    script.excludes = normalise_all(&script.excludes);
    script.problem = find_trouble(&script.matches);
    script
}

/// How a file is handed to the engine.
#[derive(Debug, Clone, Copy, PartialEq, Eq, Structural)]
pub enum Injection {
    /// A stylesheet of the user's, which overrules the site's own.
    Style,
    /// A script that runs before the document is there.
    AtStart,
    /// A script that runs once it is.
    AtEnd,
}

/// How a live script is handed to the engine, and nothing for one that is not.
pub fn injection(script: &Script) -> (r: Option<Injection>)
    ensures
        r == if script.problem@.len() > 0 {
            None
        } else if script.kind@ == "css"@ {
            Some(Injection::Style)
        } else if script.run_at@ == "document-start"@ {
            Some(Injection::AtStart)
        } else {
            Some(Injection::AtEnd)
        },
{
    if !script.live() {
        None
    } else if text::same(script.kind.as_str(), "css") {
        Some(Injection::Style)
    } else if text::same(script.run_at.as_str(), "document-start") {
        Some(Injection::AtStart)
    } else {
        Some(Injection::AtEnd)
    }
}

// ---------------------------------------------------------------------------
// Laws
// ---------------------------------------------------------------------------

/// A script that is injected names where, and every pattern it names is one the
/// engine matches on.
pub proof fn law_live_script_is_matched(path: Seq<char>, source: Option<Seq<char>>)
    requires
        reading(path, source).1.len() == 0,
    ensures
        reading(path, source).0.matches.len() > 0,
        forall|i: int|
            0 <= i < reading(path, source).0.matches.len() ==> troubled(
                #[trigger] reading(path, source).0.matches[i],
            ) is None,
{
    reveal_strlit("could not be read");
    reveal_strlit("no @match, so it is not injected anywhere; add one to the header");
    reveal_strlit("`");
    let matches = reading(path, source).0.matches;
    let want = |p: Seq<char>| troubled(p) is Some;
    list::lemma_first_where_is_first(matches, want);
    assert forall|i: int| 0 <= i < matches.len() implies troubled(#[trigger] matches[i]) is None by {
        assert(first_trouble(matches).len() == 0);
        assert(!want(matches[i]));
    }
}

/// A file that names nowhere runs nowhere.
pub proof fn law_no_match_is_inert(path: Seq<char>, source: Seq<char>)
    requires
        header_of(source, blank(path)).matches.len() == 0,
    ensures
        reading(path, Some(source)).1.len() > 0,
{
    reveal_strlit("no @match, so it is not injected anywhere; add one to the header");
}

/// What a header says reaches the script unchanged: as many patterns to run on and
/// to keep off as it names, in the order it names them, each in its normal
/// spelling, and the name it gives.
pub proof fn law_header_is_taken_whole(path: Seq<char>, source: Seq<char>)
    requires
        header_of(source, blank(path)).matches.len() > 0,
    ensures
        ({
            let said = header_of(source, blank(path));
            let script = reading(path, Some(source)).0;
            &&& script.matches.len() == said.matches.len()
            &&& forall|i: int|
                0 <= i < said.matches.len() ==> #[trigger] script.matches[i] == normal(
                    said.matches[i],
                )
            &&& script.excludes.len() == said.excludes.len()
            &&& forall|i: int|
                0 <= i < said.excludes.len() ==> #[trigger] script.excludes[i] == normal(
                    said.excludes[i],
                )
            &&& script.name == said.name
            &&& kind_of(path) == "js"@ ==> script.run_at == said.run_at
        }),
{
    reveal_strlit("js");
    reveal_strlit("css");
    assert("js"@.len() != "css"@.len());
}

/// A text with nothing to trim: something, with no white space at either end.
pub open spec fn is_bare(s: Seq<char>) -> bool {
    s.len() > 0 && !text::is_space(s[0]) && !text::is_space(s.last())
}

/// A pattern is handed on as it is written, but for the two spellings of
/// "everywhere".
pub proof fn law_pattern_is_kept_as_written(pattern: Seq<char>)
    requires
        is_bare(pattern),
    ensures
        pattern != "*"@ && pattern != "<all_urls>"@ ==> normal(pattern) == pattern,
        pattern == "*"@ || pattern == "<all_urls>"@ ==> normal(pattern) == "*://*/*"@,
{
}

/// A line of a header written as a comment, the way a script writes it.
pub open spec fn header_line(key: Seq<char>, value: Seq<char>) -> Seq<char> {
    "// @"@ + key + " "@ + value
}

proof fn lemma_header_line(key: Seq<char>, value: Seq<char>)
    requires
        forall|i: int| 0 <= i < key.len() ==> !text::is_space(#[trigger] key[i]),
        is_bare(value),
    ensures
        field_of(header_line(key, value)) == Some((text::lowered(key), value)),
{
    reveal_strlit("// @");
    reveal_strlit(" ");
    reveal_strlit("//");
    reveal_strlit("*");
    reveal_strlit("@");
    let space = |c: char| text::is_space(c);
    let line = header_line(key, value);
    assert(line[0] == '/' && line.last() == value.last());
    assert(text::trimmed(line) == line);
    assert(line.subrange(0, 2) =~= "//"@);
    let rest = line.skip(2);
    assert(rest[0] == ' ');
    assert(!text::has_prefix(rest, "//"@)) by {
        if text::has_prefix(rest, "//"@) {
            assert(rest.subrange(0, 2)[0] == ' ');
        }
    }
    assert(text::without_prefixes(rest, "//"@) == rest);
    assert(text::without_prefixes(line, "//"@) == rest);
    let star = |c: char| "*"@.contains(c);
    assert(!star(' '));
    assert(text::trim_start_by(rest, star) == rest);
    let field = "@"@ + key + " "@ + value;
    assert(rest.skip(1) =~= field);
    text::lemma_trim_start(rest, space, 1);
    assert(field.last() == value.last());
    assert(text::trimmed(rest) == field);
    assert(uncommented(line) == field);
    assert(field.subrange(0, 1) =~= "@"@);
    let said = field.skip(1);
    assert(said =~= key + " "@ + value);
    let at = key.len() as int;
    assert forall|j: int| 0 <= j < at implies !space(#[trigger] said[j]) by {
        assert(said[j] == key[j]);
    }
    assert(space(said[at]));
    list::lemma_first_where(said, space, at);
    assert(said.take(at) =~= key);
    assert(said.skip(at + 1) =~= value);
    assert(text::trimmed(value) == value);
}

/// What the lines of a header add to a list, one for each line with one of two
/// keys.
pub open spec fn values_of(lines: Seq<Seq<char>>, key: Seq<char>, other: Seq<char>) -> Seq<
    Seq<char>,
> {
    list::collected(
        lines,
        |line: Seq<char>|
            match field_of(line) {
                Some((k, v)) => if k == key || k == other {
                    Some(v)
                } else {
                    None
                },
                None => None,
            },
    )
}

/// One line of a header adds to at most one of the lists.
proof fn lemma_field_adds(header: Header, key: Seq<char>, value: Seq<char>)
    ensures
        with_field(header, key, value).matches == if key == "match"@ || key == "include"@ {
            header.matches.push(value)
        } else {
            header.matches
        },
        with_field(header, key, value).excludes == if key == "exclude"@ || key
            == "exclude-match"@ {
            header.excludes.push(value)
        } else {
            header.excludes
        },
{
    reveal_strlit("name");
    reveal_strlit("match");
    reveal_strlit("include");
    reveal_strlit("exclude");
    reveal_strlit("exclude-match");
    reveal_strlit("run-at");
    assert("include"@[0] == 'i' && "exclude"@[0] == 'e');
    assert("name"@.len() == 4 && "match"@.len() == 5 && "run-at"@.len() == 6);
    assert("include"@.len() == 7 && "exclude"@.len() == 7 && "exclude-match"@.len() == 13);
}

proof fn lemma_values_join(lines: Seq<Seq<char>>, header: Header)
    ensures
        with_lines(lines, header).matches == header.matches + values_of(
            lines,
            "match"@,
            "include"@,
        ),
        with_lines(lines, header).excludes == header.excludes + values_of(
            lines,
            "exclude"@,
            "exclude-match"@,
        ),
    decreases lines.len(),
{
    let matches = values_of(lines, "match"@, "include"@);
    let excludes = values_of(lines, "exclude"@, "exclude-match"@);
    if lines.len() == 0 {
        assert(header.matches + matches =~= header.matches);
        assert(header.excludes + excludes =~= header.excludes);
    } else {
        let front = lines.drop_last();
        let before = with_lines(front, header);
        lemma_values_join(front, header);
        match field_of(lines.last()) {
            Some((key, value)) => {
                lemma_field_adds(before, key, value);
                if key == "match"@ || key == "include"@ {
                    assert(matches == values_of(front, "match"@, "include"@).push(value));
                } else {
                    assert(matches == values_of(front, "match"@, "include"@));
                }
                if key == "exclude"@ || key == "exclude-match"@ {
                    assert(excludes == values_of(front, "exclude"@, "exclude-match"@).push(value));
                } else {
                    assert(excludes == values_of(front, "exclude"@, "exclude-match"@));
                }
                assert(with_lines(lines, header).matches =~= header.matches + matches);
                assert(with_lines(lines, header).excludes =~= header.excludes + excludes);
            },
            None => {
                assert(matches == values_of(front, "match"@, "include"@));
                assert(excludes == values_of(front, "exclude"@, "exclude-match"@));
            },
        }
    }
}

proof fn lemma_value_is_among(
    lines: Seq<Seq<char>>,
    key: Seq<char>,
    other: Seq<char>,
    at: int,
    value: Seq<char>,
)
    requires
        0 <= at < lines.len(),
        field_of(lines[at]) == Some((key, value)) || field_of(lines[at]) == Some((other, value)),
    ensures
        values_of(lines, key, other).contains(value),
    decreases lines.len(),
{
    let all = values_of(lines, key, other);
    let front = lines.drop_last();
    let before = values_of(front, key, other);
    if at == lines.len() - 1 {
        assert(all.last() == value);
        assert(all[all.len() - 1] == value);
    } else {
        assert(front[at] == lines[at]);
        lemma_value_is_among(front, key, other, at, value);
        let k = choose|k: int| 0 <= k < before.len() && before[k] == value;
        assert(all[k] == value);
    }
}

/// Every `@match` and `@include` line at the top of a file adds one pattern to run
/// on, every `@exclude` and `@exclude-match` line one to keep off, and no other
/// line touches either.
pub proof fn law_each_line_adds_its_pattern(source: Seq<char>, header: Header)
    ensures
        ({
            let top = list::at_most(text::lines(source), 40);
            let said = header_of(source, header);
            &&& said.matches == header.matches + values_of(top, "match"@, "include"@)
            &&& said.excludes == header.excludes + values_of(
                top,
                "exclude"@,
                "exclude-match"@,
            )
        }),
{
    lemma_values_join(list::at_most(text::lines(source), HEADER_LINES as nat), header);
}

/// A script that runs anywhere is kept off every site that a line at its top
/// excludes, and run on every site that a line at its top matches.
pub proof fn law_sites_named_are_honoured(
    path: Seq<char>,
    source: Seq<char>,
    at: int,
    pattern: Seq<char>,
)
    requires
        0 <= at < 40,
        at < text::lines(source).len(),
        is_bare(pattern),
    ensures
        text::lines(source)[at] == header_line("match"@, pattern) || text::lines(source)[at]
            == header_line("include"@, pattern) ==> reading(
            path,
            Some(source),
        ).0.matches.contains(normal(pattern)),
        text::lines(source)[at] == header_line("exclude"@, pattern) || text::lines(source)[at]
            == header_line("exclude-match"@, pattern) ==> header_of(
            source,
            blank(path),
        ).matches.len() == 0 || reading(path, Some(source)).0.excludes.contains(normal(pattern)),
{
    reveal_strlit("match");
    reveal_strlit("include");
    reveal_strlit("exclude");
    reveal_strlit("exclude-match");
    assert(text::lowered("match"@) =~= "match"@);
    assert(text::lowered("include"@) =~= "include"@);
    assert(text::lowered("exclude"@) =~= "exclude"@);
    assert(text::lowered("exclude-match"@) =~= "exclude-match"@);
    lemma_header_line("match"@, pattern);
    lemma_header_line("include"@, pattern);
    lemma_header_line("exclude"@, pattern);
    lemma_header_line("exclude-match"@, pattern);
    let top = list::at_most(text::lines(source), 40);
    let line = text::lines(source)[at];
    assert(top[at] == line);
    lemma_values_join(top, blank(path));
    let said = header_of(source, blank(path));
    if line == header_line("match"@, pattern) || line == header_line("include"@, pattern) {
        lemma_value_is_among(top, "match"@, "include"@, at, pattern);
        let all = values_of(top, "match"@, "include"@);
        assert(said.matches =~= all);
        let k = choose|k: int| 0 <= k < all.len() && all[k] == pattern;
        law_header_is_taken_whole(path, source);
        assert(reading(path, Some(source)).0.matches[k] == normal(pattern));
    }
    if line == header_line("exclude"@, pattern) || line == header_line(
        "exclude-match"@,
        pattern,
    ) {
        lemma_value_is_among(top, "exclude"@, "exclude-match"@, at, pattern);
        let all = values_of(top, "exclude"@, "exclude-match"@);
        assert(said.excludes =~= all);
        let k = choose|k: int| 0 <= k < all.len() && all[k] == pattern;
        if said.matches.len() > 0 {
            law_header_is_taken_whole(path, source);
            assert(reading(path, Some(source)).0.excludes[k] == normal(pattern));
        }
    }
}

/// What stands below the top of a file is no header.
pub proof fn law_only_the_top_is_a_header(a: Seq<char>, b: Seq<char>, header: Header)
    requires
        list::at_most(text::lines(a), HEADER_LINES as nat) == list::at_most(
            text::lines(b),
            HEADER_LINES as nat,
        ),
    ensures
        header_of(a, header) == header_of(b, header),
{
}

/// A stylesheet is applied from the start, whatever its header says.
pub proof fn law_style_is_applied_from_the_start(path: Seq<char>, source: Seq<char>)
    requires
        kind_of(path) == "css"@,
    ensures
        reading(path, Some(source)).0.run_at == "document-start"@,
{
}

/// The scripts are taken in the order of their names, and none is lost.
pub proof fn law_scripts_in_order(names: Seq<Seq<char>>)
    ensures
        forall|i: int, j: int|
            0 <= i < j < picked(names).len() ==> !text::precedes(
                #[trigger] picked(names)[j],
                #[trigger] picked(names)[i],
            ),
        picked(names).to_multiset() == list::kept(
            names,
            |name: Seq<char>| is_script(name),
        ).to_multiset(),
{
    let first = by_name();
    let all = list::kept(names, |name: Seq<char>| is_script(name));
    assert forall|a: Seq<char>, b: Seq<char>| #[trigger] first(a, b) implies !first(b, a) by {
        text::lemma_precedes_one_way(a, b);
    }
    assert forall|a: Seq<char>, b: Seq<char>, c: Seq<char>|
        !(#[trigger] first(a, b)) && !(#[trigger] first(b, c)) implies !first(a, c) by {
        text::lemma_precedes_chain(a, b, c);
    }
    list::law_arranged_in_order(all, first);
    list::law_arranged_keeps_all(all, first);
    assert forall|i: int, j: int| 0 <= i < j < picked(names).len() implies !text::precedes(
        #[trigger] picked(names)[j],
        #[trigger] picked(names)[i],
    ) by {
        assert(!first(picked(names)[j], picked(names)[i]));
    }
}

/// When a script runs is at the start where its header says so, in either spelling, and
/// at the end whatever else it says. What it is called is what its header says, and a
/// line the header has no use for changes nothing.
pub proof fn law_header_says_when_and_what(header: Header, key: Seq<char>, value: Seq<char>)
    ensures
        ({
            let timed = with_field(header, "run-at"@, value);
            &&& timed.run_at == if value == "document-start"@ || value == "document_start"@ {
                "document-start"@
            } else {
                "document-end"@
            }
            &&& timed.name == header.name
        }),
        with_field(header, "name"@, value).name == value,
        with_field(header, "name"@, value).run_at == header.run_at,
        key != "name"@ && key != "match"@ && key != "include"@ && key != "exclude"@ && key
            != "exclude-match"@ && key != "run-at"@ ==> with_field(header, key, value) == header,
{
    reveal_strlit("name");
    reveal_strlit("match");
    reveal_strlit("include");
    reveal_strlit("exclude");
    reveal_strlit("exclude-match");
    reveal_strlit("run-at");
    assert("name"@.len() == 4 && "match"@.len() == 5 && "run-at"@.len() == 6);
    assert("include"@.len() == 7 && "exclude"@.len() == 7 && "exclude-match"@.len() == 13);
}

/// A pattern with a scheme, a host and a path is one the engine matches on, wherever
/// else a colon stands; with a port on the host, or without one of the three, it is
/// complained of.
pub proof fn law_pattern_needs_three_parts(
    scheme: Seq<char>,
    host: Seq<char>,
    port: Seq<char>,
    path: Seq<char>,
)
    requires
        !scheme.contains(':'),
        !host.contains(':') && !host.contains('/'),
        !port.contains('/'),
    ensures
        troubled(scheme + "://"@ + host + "/"@ + path) is None,
        troubled(scheme + "://"@ + host + ":"@ + port + "/"@ + path) is Some,
        troubled(scheme + "://"@ + host) is Some,
        troubled(scheme) is Some,
{
    reveal_strlit("://");
    reveal_strlit("/");
    reveal_strlit(":");
    lemma_after_scheme(scheme, host + "/"@ + path);
    assert(scheme + "://"@ + (host + "/"@ + path) =~= scheme + "://"@ + host + "/"@ + path);
    lemma_host_ends(host, path);
    assert(host + "/"@ + path =~= host + seq!['/'] + path);
    let ported = host + ":"@ + port;
    lemma_after_scheme(scheme, ported + "/"@ + path);
    assert(scheme + "://"@ + (ported + "/"@ + path) =~= scheme + "://"@ + host + ":"@ + port + "/"@
        + path);
    assert(ported[host.len() as int] == ':');
    assert(!ported.contains('/')) by {
        if ported.contains('/') {
            let k = choose|k: int| 0 <= k < ported.len() && ported[k] == '/';
            if k < host.len() {
                assert(host[k] == '/');
            } else if k > host.len() {
                assert(port[k - host.len() - 1] == '/');
            }
        }
    }
    lemma_host_ends(ported, path);
    assert(ported + "/"@ + path =~= ported + seq!['/'] + path);
    lemma_after_scheme(scheme, host);
    assert forall|j: int| 0 <= j < host.len() implies host[j] != '/' by {
        assert(host.contains(host[j]));
    }
    text::lemma_first_of(host, '/', host.len() as int);
    assert forall|j: int| 0 <= j < scheme.len() implies !text::stands_at(scheme, "://"@, j) by {
        if text::stands_at(scheme, "://"@, j) {
            assert(scheme.subrange(j, j + 3)[0] == scheme[j]);
            assert(scheme.contains(scheme[j]));
        }
    }
    text::lemma_first_match(scheme, "://"@, scheme.len() as int);
}

proof fn lemma_after_scheme(scheme: Seq<char>, rest: Seq<char>)
    requires
        !scheme.contains(':'),
    ensures
        text::cut_text(scheme + "://"@ + rest, "://"@) == Some((scheme, rest)),
{
    reveal_strlit("://");
    let whole = scheme + "://"@ + rest;
    let at = scheme.len() as int;
    assert forall|j: int| 0 <= j < at implies !text::stands_at(whole, "://"@, j) by {
        if text::stands_at(whole, "://"@, j) {
            assert(whole.subrange(j, j + 3)[0] == whole[j]);
            assert(whole[j] == scheme[j]);
            assert(scheme.contains(scheme[j]));
        }
    }
    assert(whole.subrange(at, at + 3) =~= "://"@);
    assert(text::stands_at(whole, "://"@, at));
    text::lemma_first_match(whole, "://"@, at);
    assert(whole.take(at) =~= scheme);
    assert(whole.skip(at + 3) =~= rest);
}

proof fn lemma_host_ends(host: Seq<char>, path: Seq<char>)
    requires
        !host.contains('/'),
    ensures
        text::cut_first(host + seq!['/'] + path, '/') == Some((host, path)),
{
    let whole = host + seq!['/'] + path;
    let at = host.len() as int;
    assert forall|j: int| 0 <= j < at implies whole[j] != '/' by {
        assert(whole[j] == host[j]);
        assert(host.contains(host[j]));
    }
    text::lemma_first_of(whole, '/', at);
    assert(whole.take(at) =~= host);
    assert(whole.skip(at + 1) =~= path);
}

/// A file is a style when its name ends in css, in capitals or not, and a script otherwise.
pub proof fn law_style_is_known_by_its_ending(dir: Seq<char>, stem: Seq<char>, ext: Seq<char>)
    requires
        pathname::is_name(stem + seq!['.'] + ext),
        stem.len() > 0,
        !ext.contains('.'),
    ensures
        text::lowered(ext) == "css"@ <==> kind_of(pathname::under(dir, stem + seq!['.'] + ext))
            == "css"@,
        text::lowered(ext) != "css"@ <==> kind_of(pathname::under(dir, stem + seq!['.'] + ext))
            == "js"@,
        pathname::is_name(ext) ==> kind_of(pathname::under(dir, ext)) == "js"@,
{
    pathname::law_extension_follows_the_dot(dir, stem, ext);
    reveal_strlit("css");
    reveal_strlit("js");
    assert("css"@.len() == 3);
    assert("js"@.len() == 2);
}

/// A file is taken up when its name ends in js or in css, in capitals or not, and no other is.
pub proof fn law_ending_makes_a_script(dir: Seq<char>, stem: Seq<char>, ext: Seq<char>)
    requires
        pathname::is_name(stem + seq!['.'] + ext),
        stem.len() > 0,
        !ext.contains('.'),
    ensures
        is_script(pathname::under(dir, stem + seq!['.'] + ext)) <==> text::lowered(ext) == "js"@
            || text::lowered(ext) == "css"@,
        pathname::is_name(ext) ==> !is_script(pathname::under(dir, ext)),
        pathname::is_name(seq!['.'] + ext) ==> !is_script(pathname::under(dir, seq!['.'] + ext)),
{
    pathname::law_extension_follows_the_dot(dir, stem, ext);
}

} // verus!
