//! The config file: the settings the browser has, where the file lives, and how
//! a file the browser has since outgrown is salvaged.
//!
//! Everything is optional and everything has a default, so a missing file is not
//! a problem and neither is a file with one line in it. A file that does not
//! read *is* a problem, but not a fatal one: the browser says so and runs on its
//! defaults rather than refusing to start over a stray comma.

use vstd::prelude::*;

use crate::history as visits;
use crate::layout;
use crate::list;
use crate::pathname;
use crate::profile;
use crate::text;

verus! {

/// Where the browser goes when it is not told otherwise.
pub const DEFAULT_HOME: &'static str = "https://omarchy.org";

/// The search engine a non-URL lands on. `{query}` is the URL-encoded input;
/// without it the query is appended.
pub const DEFAULT_SEARCH: &'static str = "https://duckduckgo.com/?q={query}";

// ---------------------------------------------------------------------------
// The sections
// ---------------------------------------------------------------------------

/// Content blocking.
///
/// No list is shipped: a browser that decides for you what the web may not send
/// you is a browser with an opinion you did not ask for.
#[derive(Debug, Clone, PartialEq)]
pub struct Content {
    /// Block, using the rule lists below. Off with no lists is the same thing as
    /// off, so this exists to turn blocking off again without deleting the paths
    /// you spent an afternoon collecting.
    pub block: bool,
    /// Rule lists, as paths to Safari-format JSON on disk. `~` is expanded.
    pub rules: Vec<String>,
}

impl Default for Content {
    fn default() -> (r: Self)
        ensures
            !r.block,
            r.rules@.len() == 0,
    {
        Content { block: false, rules: Vec::new() }
    }
}

#[derive(Debug, Clone, PartialEq)]
pub struct Strip {
    /// The floating row of favicons at the top of the window.
    pub enabled: bool,
    /// Its height in pixels, which is also the top inset given to every page;
    /// turning the strip off gives that inset back.
    pub height: i32,
    /// Show the active tab's title in the middle of the strip.
    pub title: bool,
    /// How long to wait before redrawing after the tab model changes.
    pub debounce_ms: u64,
    /// Draw a line along the bottom of the strip while a page is loading.
    pub progress: bool,
}

impl Default for Strip {
    fn default() -> (r: Self)
        ensures
            r == (Strip {
                enabled: true,
                height: layout::STRIP_HEIGHT,
                title: true,
                debounce_ms: 80,
                progress: true,
            }),
    {
        Strip {
            enabled: true,
            height: layout::STRIP_HEIGHT,
            title: true,
            debounce_ms: 80,
            progress: true,
        }
    }
}

/// The card the palette is drawn on, but for the share of the window's width it
/// takes.
#[derive(Debug, Clone, PartialEq)]
pub struct Palette {
    pub card: layout::Palette,
    /// How many results a search shows.
    pub rows: usize,
    /// How many recently visited pages the idle menu lists.
    pub history_rows: usize,
    /// How many downloaded files it lists there.
    pub download_rows: usize,
}

impl Default for Palette {
    fn default() -> (r: Self)
        ensures
            r == (Palette {
                card: layout::Palette {
                    min_width: 420,
                    max_width: 900,
                    side_margin: 24,
                    height: 420,
                    min_height: 200,
                    top_margin: 72,
                    bottom_margin: 72,
                },
                rows: 24,
                history_rows: 8,
                download_rows: 5,
            }),
    {
        Palette {
            card: layout::Palette {
                min_width: 420,
                max_width: 900,
                side_margin: 24,
                height: 420,
                min_height: 200,
                top_margin: 72,
                bottom_margin: 72,
            },
            rows: 24,
            history_rows: 8,
            download_rows: 5,
        }
    }
}

/// The engine itself.
#[derive(Debug, Clone, PartialEq)]
pub struct Engine {
    pub javascript: bool,
    /// Right-click, Inspect Element.
    pub devtools: bool,
    /// Empty means the engine's own.
    pub user_agent: String,
    /// Let media start without a click.
    pub autoplay: bool,
    pub webrtc: bool,
    pub webgl: bool,
    pub smooth_scrolling: bool,
    /// The default font size a page gets, in pixels.
    pub font_size: u32,
    /// `always`, `never`, or `no-third-party`.
    pub cookies: String,
    /// Hosts whose certificate is accepted whatever is wrong with it.
    ///
    /// For development, where a self-signed certificate is the point. Empty by
    /// default, and it should stay empty for anything you did not issue the
    /// certificate for yourself.
    pub trust: Vec<String>,
    /// Send every request through this proxy. Empty is the system's own setting.
    pub proxy: String,
    /// Underline misspelt words in text boxes.
    pub spellcheck: bool,
    /// Languages to spell-check against. Empty follows `$LANG`.
    pub spellcheck_languages: Vec<String>,
}

impl Default for Engine {
    /// The engine's own defaults, restated, so that turning one off in the file
    /// is a change from what the browser was already doing. Spell-checking is
    /// the one departure.
    fn default() -> (r: Self)
        ensures
            r.javascript && !r.devtools && r.autoplay && r.webrtc && r.webgl && r.smooth_scrolling,
            r.user_agent@ == Seq::<char>::empty(),
            r.font_size == 16,
            r.cookies@ == "no-third-party"@,
            r.trust@.len() == 0,
            r.proxy@ == Seq::<char>::empty(),
            !r.spellcheck,
            r.spellcheck_languages@.len() == 0,
    {
        Engine {
            javascript: true,
            devtools: false,
            user_agent: String::new(),
            autoplay: true,
            webrtc: true,
            webgl: true,
            smooth_scrolling: true,
            font_size: 16,
            cookies: "no-third-party".to_owned(),
            trust: Vec::new(),
            proxy: String::new(),
            spellcheck: false,
            spellcheck_languages: Vec::new(),
        }
    }
}

#[derive(Debug, Clone, PartialEq)]
pub struct Control {
    /// Where this window's control socket goes. Empty is
    /// `$XDG_RUNTIME_DIR/oma-browse`.
    pub socket: String,
    /// Also answer commands on this loopback port. `0` is off, and off is the
    /// default: a port is reachable by every process and every account on the
    /// machine, where the socket is reachable by you.
    pub remote_port: u16,
}

impl Default for Control {
    fn default() -> (r: Self)
        ensures
            r.socket@ == Seq::<char>::empty(),
            r.remote_port == 0,
    {
        Control { socket: String::new(), remote_port: 0 }
    }
}

#[derive(Debug, Clone, PartialEq)]
pub struct Startup {
    /// Start every window incognito, as though `--incognito` were always passed.
    pub incognito: bool,
    /// Reopen the tabs that were open when the browser last closed. Off by
    /// default: a browser that reopens eleven tabs because you asked it to open
    /// one is a browser you stop launching from a keybind.
    pub restore: bool,
}

impl Default for Startup {
    fn default() -> (r: Self)
        ensures
            !r.incognito && !r.restore,
    {
        Startup { incognito: false, restore: false }
    }
}

#[derive(Debug, Clone, PartialEq)]
pub struct History {
    /// Remember where the browser has been.
    pub enabled: bool,
    /// Beyond this the oldest entries are dropped.
    pub limit: usize,
}

impl Default for History {
    fn default() -> (r: Self)
        ensures
            r.enabled,
            r.limit == visits::CAP,
    {
        History { enabled: true, limit: visits::CAP }
    }
}

#[derive(Debug, Clone, PartialEq)]
pub struct Downloads {
    /// Where files land. Empty follows the desktop's own directory. `~` is
    /// expanded.
    pub dir: String,
    /// Say so, on the desktop, when a download finishes.
    pub notify: bool,
}

impl Default for Downloads {
    fn default() -> (r: Self)
        ensures
            r.dir@ == Seq::<char>::empty(),
            r.notify,
    {
        Downloads { dir: String::new(), notify: true }
    }
}

#[derive(Debug, Clone, PartialEq)]
pub struct Screenshot {
    /// Where `page screenshot` writes when told nowhere.
    pub dir: String,
    /// Capture the whole scrollable document rather than the viewport.
    pub full: bool,
    /// Keep the page's transparency instead of compositing onto white.
    pub transparent: bool,
}

impl Default for Screenshot {
    fn default() -> (r: Self)
        ensures
            r.dir@ == Seq::<char>::empty(),
            !r.full && !r.transparent,
    {
        Screenshot { dir: String::new(), full: false, transparent: false }
    }
}

// ---------------------------------------------------------------------------
// Where the file lives, and what it says of home
// ---------------------------------------------------------------------------

/// Where the config file lives.
pub open spec fn config_file(
    explicit: Option<Seq<char>>,
    config: Option<Seq<char>>,
    home: Option<Seq<char>>,
    profile: Option<Seq<char>>,
) -> Seq<char> {
    match explicit {
        Some(path) => path,
        None => {
            let base = match (config, home) {
                (Some(dir), _) => dir,
                (None, Some(dir)) => pathname::under(dir, ".config"@),
                (None, None) => "."@,
            };
            let dir = pathname::under(base, "oma-browse"@);
            match profile {
                Some(name) => pathname::under(
                    pathname::under(dir, "profiles"@),
                    profile::safe_name(name) + ".toml"@,
                ),
                None => pathname::under(dir, "config.toml"@),
            }
        },
    }
}

/// Where the file lives, given what `OMA_BROWSE_CONFIG`, `XDG_CONFIG_HOME` and
/// `HOME` are set to. The first wins, for a second profile or a test that must
/// not read the real one.
pub fn path(
    explicit: Option<&str>,
    config: Option<&str>,
    home: Option<&str>,
    profile: Option<&str>,
) -> (r: String)
    ensures
        r@ == config_file(
            match explicit {
                Some(path) => Some(path@),
                None => None,
            },
            match config {
                Some(dir) => Some(dir@),
                None => None,
            },
            match home {
                Some(dir) => Some(dir@),
                None => None,
            },
            match profile {
                Some(name) => Some(name@),
                None => None,
            },
        ),
{
    if let Some(path) = explicit {
        return path.to_owned();
    }
    let base = match (config, home) {
        (Some(dir), _) => dir.to_owned(),
        (None, Some(dir)) => pathname::join(dir, ".config"),
        (None, None) => ".".to_owned(),
    };
    let dir = pathname::join(base.as_str(), "oma-browse");
    match profile {
        Some(name) => {
            let mut file = profile::sanitize(name);
            file.append(".toml");
            pathname::join(pathname::join(dir.as_str(), "profiles").as_str(), file.as_str())
        },
        None => pathname::join(dir.as_str(), "config.toml"),
    }
}

/// Where a search engine finds a query, already encoded for an address:
/// `{query}` stands for it, and without that it is appended.
pub fn search_url(search: &str, query: &str) -> (r: String)
    ensures
        r@ == if text::first_match(search@, "{query}"@) is Some {
            text::replaced(search@, "{query}"@, query@)
        } else {
            search@ + query@
        },
{
    proof {
        reveal_strlit("{query}");
    }
    if text::split_text(search, "{query}").is_some() {
        text::replace(search, "{query}", query)
    } else {
        let mut out = search.to_owned();
        out.append(query);
        out
    }
}

/// The page to open at startup: what the configured home resolves to, or the
/// start page where none is configured.
pub fn home_url(home: &str, resolved: &str, fallback: &str) -> (r: String)
    ensures
        r@ == if text::trimmed(home@).len() == 0 {
            fallback@
        } else {
            resolved@
        },
{
    if text::trim(home).as_str().is_empty() {
        fallback.to_owned()
    } else {
        resolved.to_owned()
    }
}

/// Why a template is not written, if it is not: a file is only overwritten when
/// that is asked for.
pub fn template_refused(path: &str, there: bool, force: bool) -> (r: Option<String>)
    ensures
        match r {
            Some(why) => there && !force && why@ == path@
                + " already exists; pass --force to overwrite it"@,
            None => !there || force,
        },
{
    if there && !force {
        let mut why = path.to_owned();
        why.append(" already exists; pass --force to overwrite it");
        Some(why)
    } else {
        None
    }
}

// ---------------------------------------------------------------------------
// What is said of a file that was not read as it stands
// ---------------------------------------------------------------------------

/// What is said of a file that was partly read.
pub fn salvaged_problem(path: &str, notes: &[String]) -> (r: String)
    ensures
        r@ == path@ + ": "@ + text::joined(text::texts(notes@), "; "@),
{
    let mut out = path.to_owned();
    out.append(": ");
    out.append(text::join(notes, "; ").as_str());
    out
}

/// What is said of a file nothing could be recovered from. It says what that
/// costs, because "using defaults" is otherwise indistinguishable from having no
/// config file at all.
pub fn ignored_problem(path: &str, complaint: &str) -> (r: String)
    ensures
        r@ == path@ + ": "@ + summary(complaint@)
            + " -- every setting in the file was ignored and the browser is running on defaults"@,
{
    let mut out = path.to_owned();
    out.append(": ");
    out.append(summarize(complaint).as_str());
    out.append(
        " -- every setting in the file was ignored and the browser is running on defaults",
    );
    out
}

/// The lines of a text that are not blank.
pub open spec fn spoken(message: Seq<char>) -> Seq<Seq<char>> {
    list::kept(text::lines(message), |l: Seq<char>| text::trimmed(l).len() > 0)
}

/// The first and the last line of a complaint that are not blank.
pub open spec fn summary(message: Seq<char>) -> Seq<char> {
    let lines = spoken(message);
    if lines.len() == 0 {
        message
    } else if lines.len() == 1 || lines.last() == lines[0] {
        lines[0]
    } else {
        lines[0] + ": "@ + text::trimmed(lines.last())
    }
}

/// A complaint about TOML is a location, a source excerpt, and then the
/// complaint itself on the last line. The excerpt is the part nobody needs in a
/// log line; the other two are exactly what tells you which key to go and fix.
pub fn summarize(message: &str) -> (r: String)
    ensures
        r@ == summary(message@),
{
    let all = text::split_lines(message);
    let ghost keep = |l: Seq<char>| text::trimmed(l).len() > 0;
    let mut lines: Vec<String> = Vec::new();
    let mut i: usize = 0;
    assert(text::texts(lines@) =~= list::kept(text::texts(all@).take(0), keep));
    while i < all.len()
        invariant
            i <= all.len(),
            keep == (|l: Seq<char>| text::trimmed(l).len() > 0),
            text::texts(lines@) == list::kept(text::texts(all@).take(i as int), keep),
        decreases all.len() - i,
    {
        assert(text::texts(all@).take(i + 1).drop_last() =~= text::texts(all@).take(i as int));
        assert(text::texts(all@)[i as int] == all@[i as int]@);
        let ghost before = lines@;
        if !text::trim(all[i].as_str()).as_str().is_empty() {
            lines.push(all[i].clone());
            assert(text::texts(lines@) =~= text::texts(before).push(all@[i as int]@));
        }
        i += 1;
    }
    assert(text::texts(all@).take(i as int) =~= text::texts(all@));
    if lines.len() == 0 {
        return message.to_owned();
    }
    let first = lines[0].clone();
    let last = lines[lines.len() - 1].clone();
    assert(text::texts(lines@)[0] == first@);
    assert(text::texts(lines@).last() == last@);
    if lines.len() == 1 || last == first {
        return first;
    }
    let mut out = first;
    out.append(": ");
    out.append(text::trim(last.as_str()).as_str());
    out
}

// ---------------------------------------------------------------------------
// Salvaging a file the browser has since outgrown
// ---------------------------------------------------------------------------

/// A config file as a tree of keys. What stands at a leaf is the value as TOML
/// writes it.
#[derive(Debug)]
pub enum Tree {
    Leaf(String),
    Table(Vec<(String, Tree)>),
}

/// A tree as values.
pub enum Shape {
    Leaf(Seq<char>),
    Table(Seq<(Seq<char>, Shape)>),
}

/// A tree as values.
pub open spec fn shape(t: Tree) -> Shape
    decreases t,
{
    match t {
        Tree::Leaf(s) => Shape::Leaf(s@),
        Tree::Table(v) => Shape::Table(shapes(v@)),
    }
}

/// The entries of a table as values.
pub open spec fn shapes(s: Seq<(String, Tree)>) -> Seq<(Seq<char>, Shape)>
    decreases s,
{
    if s.len() == 0 {
        Seq::empty()
    } else {
        shapes(s.drop_last()).push((s.last().0@, shape(s.last().1)))
    }
}

/// Reading a table entry by entry.
proof fn lemma_shapes(s: Seq<(String, Tree)>)
    ensures
        shapes(s).len() == s.len(),
        forall|i: int|
            0 <= i < s.len() ==> #[trigger] shapes(s)[i] == (s[i].0@, shape(s[i].1)),
    decreases s.len(),
{
    if s.len() > 0 {
        lemma_shapes(s.drop_last());
    }
}

/// Where a key stands in a table.
pub open spec fn key_at(entries: Seq<(Seq<char>, Shape)>, key: Seq<char>) -> Option<int> {
    list::first_where(entries, |e: (Seq<char>, Shape)| e.0 == key)
}

/// A table with one entry more, in the order of the keys.
pub open spec fn with_entry(
    entries: Seq<(Seq<char>, Shape)>,
    key: Seq<char>,
    value: Shape,
) -> Seq<(Seq<char>, Shape)>
    decreases entries.len(),
{
    if entries.len() == 0 {
        seq![(key, value)]
    } else if text::precedes(key, entries[0].0) {
        seq![(key, value)] + entries
    } else {
        seq![entries[0]] + with_entry(entries.drop_first(), key, value)
    }
}

/// A tree without what stood at a path, and what stood there.
pub open spec fn taken(tree: Shape, path: Seq<Seq<char>>) -> (Shape, Option<Shape>)
    decreases path.len(),
{
    match tree {
        Shape::Leaf(_) => (tree, None),
        Shape::Table(entries) => if path.len() == 0 {
            (tree, None)
        } else {
            match key_at(entries, path[0]) {
                Some(i) => if path.len() == 1 {
                    (Shape::Table(entries.remove(i)), Some(entries[i].1))
                } else {
                    let (child, got) = taken(entries[i].1, path.skip(1));
                    (Shape::Table(entries.update(i, (entries[i].0, child))), got)
                },
                None => (tree, None),
            }
        },
    }
}

/// A table with the entries of another that it does not have already, and
/// whether it had none of them.
pub open spec fn filled(
    entries: Seq<(Seq<char>, Shape)>,
    old: Seq<(Seq<char>, Shape)>,
) -> (Seq<(Seq<char>, Shape)>, bool)
    decreases old.len(),
{
    if old.len() == 0 {
        (entries, true)
    } else {
        let (so_far, clean) = filled(entries, old.drop_last());
        match key_at(so_far, old.last().0) {
            Some(_) => (so_far, false),
            None => (with_entry(so_far, old.last().0, old.last().1), clean),
        }
    }
}

/// A tree with a value put at a path, and whether nothing of it was refused.
/// Tables are made on the way. Two tables are merged; anything else that is
/// there already stays, because a file that sets both spellings means the new
/// one.
pub open spec fn merged(tree: Shape, path: Seq<Seq<char>>, incoming: Shape) -> (Shape, bool)
    decreases path.len(),
{
    match tree {
        Shape::Leaf(_) => (tree, false),
        Shape::Table(entries) => if path.len() == 0 {
            (tree, false)
        } else if path.len() > 1 {
            match key_at(entries, path[0]) {
                Some(i) => {
                    let (child, ok) = merged(entries[i].1, path.skip(1), incoming);
                    (Shape::Table(entries.update(i, (entries[i].0, child))), ok)
                },
                None => {
                    let (child, ok) = merged(
                        Shape::Table(Seq::empty()),
                        path.skip(1),
                        incoming,
                    );
                    (Shape::Table(with_entry(entries, path[0], child)), ok)
                },
            }
        } else {
            match key_at(entries, path[0]) {
                Some(i) => match (entries[i].1, incoming) {
                    (Shape::Table(existing), Shape::Table(old)) => {
                        let (all, clean) = filled(existing, old);
                        (Shape::Table(entries.update(i, (entries[i].0, Shape::Table(all)))), clean)
                    },
                    _ => (tree, false),
                },
                None => (Shape::Table(with_entry(entries, path[0], incoming)), true),
            }
        },
    }
}

fn find_key(entries: &Vec<(String, Tree)>, key: &str) -> (r: Option<usize>)
    ensures
        match r {
            Some(i) => i < entries@.len() && entries@[i as int].0@ == key@ && key_at(
                shapes(entries@),
                key@,
            ) == Some(i as int),
            None => key_at(shapes(entries@), key@) is None,
        },
{
    let ghost want = |e: (Seq<char>, Shape)| e.0 == key@;
    let ghost all = shapes(entries@);
    proof {
        lemma_shapes(entries@);
    }
    let mut i: usize = 0;
    while i < entries.len()
        invariant
            i <= entries.len(),
            all == shapes(entries@),
            all.len() == entries@.len(),
            forall|j: int|
                0 <= j < entries@.len() ==> #[trigger] all[j] == (
                    entries@[j].0@,
                    shape(entries@[j].1),
                ),
            want == (|e: (Seq<char>, Shape)| e.0 == key@),
            forall|j: int| 0 <= j < i ==> !want(#[trigger] all[j]),
        decreases entries.len() - i,
    {
        if text::same(entries[i].0.as_str(), key) {
            assert(want(all[i as int]));
            proof {
                list::lemma_first_where(all, want, i as int);
            }
            return Some(i);
        }
        assert(!want(all[i as int]));
        i += 1;
    }
    proof {
        list::lemma_first_where(all, want, i as int);
    }
    None
}

fn insert_key(entries: &mut Vec<(String, Tree)>, key: &str, value: Tree)
    ensures
        shapes(final(entries)@) == with_entry(shapes(old(entries)@), key@, shape(value)),
{
    let ghost all = shapes(entries@);
    let ghost item = shape(value);
    proof {
        lemma_shapes(entries@);
        assert(all.skip(0) =~= all);
        assert(all.take(0) + with_entry(all, key@, item) =~= with_entry(all, key@, item));
    }
    let mut i: usize = 0;
    while i < entries.len() && !text::before(key, entries[i].0.as_str())
        invariant
            i <= entries.len(),
            entries@ == old(entries)@,
            all == shapes(entries@),
            all.len() == entries@.len(),
            forall|j: int|
                0 <= j < entries@.len() ==> #[trigger] all[j] == (
                    entries@[j].0@,
                    shape(entries@[j].1),
                ),
            all.take(i as int) + with_entry(all.skip(i as int), key@, item) == with_entry(
                all,
                key@,
                item,
            ),
        decreases entries.len() - i,
    {
        let ghost rest = all.skip(i as int);
        assert(rest[0] == all[i as int]);
        assert(rest.drop_first() =~= all.skip(i + 1));
        assert(all.take(i as int) + (seq![rest[0]] + with_entry(all.skip(i + 1), key@, item))
            =~= all.take(i + 1) + with_entry(all.skip(i + 1), key@, item));
        i += 1;
    }
    let ghost rest = all.skip(i as int);
    let ghost before = entries@;
    entries.insert(i, (key.to_owned(), value));
    proof {
        lemma_shapes(entries@);
        if rest.len() > 0 {
            assert(rest[0] == all[i as int]);
        } else {
            assert(seq![(key@, item)] + rest =~= seq![(key@, item)]);
        }
        assert forall|j: int| 0 <= j < entries@.len() implies #[trigger] shapes(entries@)[j] == (
        all.take(i as int) + (seq![(key@, item)] + rest))[j] by {
            if j < i {
                assert(entries@[j] == before[j]);
                assert(all[j] == (before[j].0@, shape(before[j].1)));
            } else if j > i {
                assert(entries@[j] == before[j - 1]);
                assert(all[j - 1] == (before[j - 1].0@, shape(before[j - 1].1)));
            }
        }
        assert(shapes(entries@) =~= all.take(i as int) + (seq![(key@, item)] + rest));
    }
}

proof fn lemma_shapes_update(s: Seq<(String, Tree)>, i: int, item: (String, Tree))
    requires
        0 <= i < s.len(),
    ensures
        shapes(s.update(i, item)) == shapes(s).update(i, (item.0@, shape(item.1))),
{
    lemma_shapes(s);
    lemma_shapes(s.update(i, item));
    assert forall|j: int| 0 <= j < s.len() implies #[trigger] shapes(s.update(i, item))[j]
        == shapes(s).update(i, (item.0@, shape(item.1)))[j] by {
        if j != i {
            assert(s.update(i, item)[j] == s[j]);
            assert(shapes(s)[j] == (s[j].0@, shape(s[j].1)));
        }
    }
    assert(shapes(s.update(i, item)) =~= shapes(s).update(i, (item.0@, shape(item.1))));
}

proof fn lemma_shapes_remove(s: Seq<(String, Tree)>, i: int)
    requires
        0 <= i < s.len(),
    ensures
        shapes(s.remove(i)) == shapes(s).remove(i),
{
    lemma_shapes(s);
    lemma_shapes(s.remove(i));
    let less = s.remove(i);
    assert forall|j: int| 0 <= j < less.len() implies #[trigger] shapes(less)[j] == shapes(
        s,
    ).remove(i)[j] by {
        if j < i {
            assert(less[j] == s[j]);
            assert(shapes(s)[j] == (s[j].0@, shape(s[j].1)));
        } else {
            assert(less[j] == s[j + 1]);
            assert(shapes(s)[j + 1] == (s[j + 1].0@, shape(s[j + 1].1)));
        }
    }
    assert(shapes(less) =~= shapes(s).remove(i));
}

fn take_at(tree: Tree, parts: &Vec<String>, from: usize) -> (r: (Tree, Option<Tree>))
    requires
        from <= parts@.len(),
    ensures
        ({
            let (left, got) = taken(shape(tree), text::texts(parts@).skip(from as int));
            &&& shape(r.0) == left
            &&& match r.1 {
                Some(found) => got == Some(shape(found)),
                None => got is None,
            }
        }),
    decreases parts@.len() - from,
{
    let ghost path = text::texts(parts@).skip(from as int);
    let mut entries = match tree {
        Tree::Leaf(value) => {
            return (Tree::Leaf(value), None);
        },
        Tree::Table(entries) => entries,
    };
    if from == parts.len() {
        return (Tree::Table(entries), None);
    }
    assert(path[0] == parts@[from as int]@);
    match find_key(&entries, parts[from].as_str()) {
        Some(i) => {
            let ghost was = entries@;
            proof {
                lemma_shapes(was);
                assert(shapes(was)[i as int] == (was[i as int].0@, shape(was[i as int].1)));
            }
            let (key, child) = entries.remove(i);
            if from + 1 == parts.len() {
                proof {
                    lemma_shapes_remove(was, i as int);
                }
                return (Tree::Table(entries), Some(child));
            }
            assert(path.skip(1) =~= text::texts(parts@).skip(from + 1));
            let (left, got) = take_at(child, parts, from + 1);
            let ghost item = (key, left);
            entries.insert(i, (key, left));
            proof {
                assert(entries@ =~= was.update(i as int, item));
                lemma_shapes_update(was, i as int, item);
            }
            (Tree::Table(entries), got)
        },
        None => (Tree::Table(entries), None),
    }
}

/// Remove a dotted path, returning what is left and what was there.
pub fn take_path(tree: Tree, path: &str) -> (r: (Tree, Option<Tree>))
    ensures
        ({
            let (left, got) = taken(shape(tree), text::pieces(path@, '.'));
            &&& shape(r.0) == left
            &&& match r.1 {
                Some(found) => got == Some(shape(found)),
                None => got is None,
            }
        }),
{
    let parts = text::split(path, '.');
    assert(text::texts(parts@).skip(0) =~= text::texts(parts@));
    take_at(tree, &parts, 0)
}

fn fill(entries: &mut Vec<(String, Tree)>, old_entries: Vec<(String, Tree)>) -> (r: bool)
    ensures
        (shapes(final(entries)@), r) == filled(shapes(old(entries)@), shapes(old_entries@)),
{
    let ghost first = shapes(entries@);
    let ghost was = old_entries@;
    let ghost olds = shapes(was);
    proof {
        lemma_shapes(was);
    }
    let mut clean = true;
    assert(olds.take(0) =~= Seq::empty());
    for item in it: old_entries
        invariant
            it.seq() == was,
            olds == shapes(was),
            olds.len() == was.len(),
            first == shapes(old(entries)@),
            forall|j: int|
                0 <= j < was.len() ==> #[trigger] olds[j] == (was[j].0@, shape(was[j].1)),
            (shapes(entries@), clean) == filled(first, olds.take(it.index() as int)),
    {
        let ghost at = it.index() as int;
        assert(olds.take(at + 1).drop_last() =~= olds.take(at));
        assert(olds[at] == (item.0@, shape(item.1)));
        let (key, value) = item;
        if find_key(entries, key.as_str()).is_some() {
            clean = false;
        } else {
            insert_key(entries, key.as_str(), value);
        }
    }
    assert(olds.take(was.len() as int) =~= olds);
    clean
}

fn merge_from(tree: Tree, parts: &Vec<String>, from: usize, incoming: Tree) -> (r: (Tree, bool))
    requires
        from <= parts@.len(),
    ensures
        (shape(r.0), r.1) == merged(
            shape(tree),
            text::texts(parts@).skip(from as int),
            shape(incoming),
        ),
    decreases parts@.len() - from,
{
    let ghost path = text::texts(parts@).skip(from as int);
    let mut entries = match tree {
        Tree::Leaf(value) => {
            return (Tree::Leaf(value), false);
        },
        Tree::Table(entries) => entries,
    };
    if from == parts.len() {
        return (Tree::Table(entries), false);
    }
    assert(path[0] == parts@[from as int]@);
    let ghost was = entries@;
    let found = find_key(&entries, parts[from].as_str());
    proof {
        lemma_shapes(was);
        if let Some(i) = found {
            assert(shapes(was)[i as int] == (was[i as int].0@, shape(was[i as int].1)));
        }
    }
    if from + 1 < parts.len() {
        assert(path.skip(1) =~= text::texts(parts@).skip(from + 1));
        match found {
            Some(i) => {
                let (key, child) = entries.remove(i);
                let (child, ok) = merge_from(child, parts, from + 1, incoming);
                let ghost item = (key, child);
                entries.insert(i, (key, child));
                proof {
                    assert(entries@ =~= was.update(i as int, item));
                    lemma_shapes_update(was, i as int, item);
                }
                (Tree::Table(entries), ok)
            },
            None => {
                let empty: Vec<(String, Tree)> = Vec::new();
                assert(shape(Tree::Table(empty)) == Shape::Table(Seq::empty()));
                let (child, ok) = merge_from(Tree::Table(empty), parts, from + 1, incoming);
                insert_key(&mut entries, parts[from].as_str(), child);
                (Tree::Table(entries), ok)
            },
        }
    } else {
        match found {
            Some(i) => {
                let (key, child) = entries.remove(i);
                let (child, clean) = match (child, incoming) {
                    (Tree::Table(existing), Tree::Table(old_entries)) => {
                        let mut existing = existing;
                        let clean = fill(&mut existing, old_entries);
                        (Tree::Table(existing), clean)
                    },
                    (child, _) => (child, false),
                };
                let ghost item = (key, child);
                entries.insert(i, (key, child));
                proof {
                    assert(entries@ =~= was.update(i as int, item));
                    lemma_shapes_update(was, i as int, item);
                    if shape(child) == shape(was[i as int].1) {
                        assert(shapes(was).update(i as int, (key@, shape(child))) =~= shapes(was));
                    }
                }
                (Tree::Table(entries), clean)
            },
            None => {
                insert_key(&mut entries, parts[from].as_str(), incoming);
                (Tree::Table(entries), true)
            },
        }
    }
}

/// Put a value at a dotted path, creating tables on the way. Merges when both
/// sides are tables; refuses to overwrite an existing value, and says so by
/// returning `false`, because a file that sets both spellings means the new one.
pub fn merge_at(tree: Tree, path: &str, incoming: Tree) -> (r: (Tree, bool))
    ensures
        (shape(r.0), r.1) == merged(shape(tree), text::pieces(path@, '.'), shape(incoming)),
{
    let parts = text::split(path, '.');
    assert(text::texts(parts@).skip(0) =~= text::texts(parts@));
    merge_from(tree, &parts, 0, incoming)
}

/// What is said of a setting that has moved: it was read as what it is now, or
/// what it is now was set as well.
pub open spec fn moved_note(from: Seq<char>, to: Seq<char>, clean: bool) -> Seq<char> {
    if clean {
        "`"@ + from + "` is now `"@ + to + "`, and was read as such"@
    } else {
        "`"@ + from + "` is now `"@ + to + "`, which the file also sets -- `"@ + to + "` won"@
    }
}

/// A file with one setting moved to where it belongs now.
pub open spec fn moved(
    tree: Shape,
    notes: Seq<Seq<char>>,
    from: Seq<char>,
    to: Seq<char>,
) -> (Shape, Seq<Seq<char>>) {
    let (left, got) = taken(tree, text::pieces(from, '.'));
    match got {
        Some(value) => {
            let (after, clean) = merged(left, text::pieces(to, '.'), value);
            (after, notes.push(moved_note(from, to, clean)))
        },
        None => (left, notes),
    }
}

/// A file with everything that has moved put where it belongs now.
pub open spec fn migrated(tree: Shape, notes: Seq<Seq<char>>) -> (Shape, Seq<Seq<char>>) {
    // Translucency was one half-wired `[window] opacity` before it became two
    // deliberate settings; the page is the half it used to almost control.
    let (tree, notes) = moved(tree, notes, "window.opacity"@, "theme.veil"@);
    let (tree, notes) = moved(tree, notes, "page"@, "theme"@);
    moved(tree, notes, "strip"@, "chrome.strip"@)
}

fn move_setting(tree: Tree, notes: &mut Vec<String>, from: &str, to: &str) -> (r: Tree)
    ensures
        (shape(r), text::texts(final(notes)@)) == moved(
            shape(tree),
            text::texts(old(notes)@),
            from@,
            to@,
        ),
{
    let (left, got) = take_path(tree, from);
    match got {
        Some(value) => {
            let (after, clean) = merge_at(left, to, value);
            let mut note = "`".to_owned();
            note.append(from);
            note.append("` is now `");
            note.append(to);
            if clean {
                note.append("`, and was read as such");
            } else {
                note.append("`, which the file also sets -- `");
                note.append(to);
                note.append("` won");
            }
            let ghost before = notes@;
            notes.push(note);
            assert(text::texts(notes@) =~= text::texts(before).push(note@));
            after
        },
        None => left,
    }
}

/// Move anything written under an old name to its new one.
///
/// Renames are the browser's fault, not the user's, so an old spelling is
/// *applied* and then reported: the file keeps working while it is out of date,
/// and the report says what to change.
pub fn migrate(tree: Tree, notes: &mut Vec<String>) -> (r: Tree)
    ensures
        (shape(r), text::texts(final(notes)@)) == migrated(shape(tree), text::texts(old(notes)@)),
{
    let tree = move_setting(tree, notes, "window.opacity", "theme.veil");
    let tree = move_setting(tree, notes, "page", "theme");
    move_setting(tree, notes, "strip", "chrome.strip")
}

/// The table whose keys are the user's own words rather than ours, and so must
/// never be pruned for being unknown.
pub const FREE_FORM: &'static str = "keys";

/// The dotted path of a key.
pub open spec fn full_key(path: Seq<char>, key: Seq<char>) -> Seq<char> {
    if path.len() == 0 {
        key
    } else {
        path + "."@ + key
    }
}

/// What is said of a key the config does not have.
pub open spec fn unknown_note(path: Seq<char>, key: Seq<char>) -> Seq<char> {
    "`"@ + full_key(path, key) + "` is not a setting, and was ignored"@
}

/// What is said of the keys of a table that the config does not have.
pub open spec fn unknown_notes(
    entries: Seq<(Seq<char>, Shape)>,
    known: Seq<(Seq<char>, Shape)>,
    path: Seq<char>,
) -> Seq<Seq<char>>
    decreases entries.len(),
{
    if entries.len() == 0 {
        Seq::empty()
    } else {
        let front = unknown_notes(entries.drop_last(), known, path);
        if key_at(known, entries.last().0) is None {
            front.push(unknown_note(path, entries.last().0))
        } else {
            front
        }
    }
}

/// A tree without the keys that `known` does not have, and what is said of each:
/// first those of the table itself, then those of the tables in it.
pub open spec fn pruned(tree: Shape, known: Shape, path: Seq<char>) -> (Shape, Seq<Seq<char>>)
    decreases tree,
{
    match (tree, known) {
        (Shape::Table(entries), Shape::Table(names)) => {
            let (left, notes) = pruned_each(entries, names, path);
            (Shape::Table(left), unknown_notes(entries, names, path) + notes)
        },
        _ => (tree, Seq::empty()),
    }
}

/// The entries of a table that `known` has, each pruned in turn.
pub open spec fn pruned_each(
    entries: Seq<(Seq<char>, Shape)>,
    known: Seq<(Seq<char>, Shape)>,
    path: Seq<char>,
) -> (Seq<(Seq<char>, Shape)>, Seq<Seq<char>>)
    decreases entries,
{
    if entries.len() == 0 {
        (Seq::empty(), Seq::empty())
    } else {
        let (front, notes) = pruned_each(entries.drop_last(), known, path);
        let entry = entries.last();
        match key_at(known, entry.0) {
            None => (front, notes),
            Some(i) => if entry.0 == FREE_FORM@ {
                (front.push(entry), notes)
            } else {
                let (child, more) = pruned(entry.1, known[i].1, full_key(path, entry.0));
                (front.push((entry.0, child)), notes + more)
            },
        }
    }
}

fn write_full_key(path: &str, key: &str) -> (r: String)
    ensures
        r@ == full_key(path@, key@),
{
    if path.is_empty() {
        return key.to_owned();
    }
    let mut out = path.to_owned();
    out.append(".");
    out.append(key);
    out
}

fn note_unknown(entries: &Vec<(String, Tree)>, known: &Vec<(String, Tree)>, path: &str) -> (r: Vec<
    String,
>)
    ensures
        text::texts(r@) == unknown_notes(shapes(entries@), shapes(known@), path@),
{
    let ghost all = shapes(entries@);
    proof {
        lemma_shapes(entries@);
    }
    let mut notes: Vec<String> = Vec::new();
    let mut i: usize = 0;
    assert(text::texts(notes@) =~= unknown_notes(all.take(0), shapes(known@), path@));
    while i < entries.len()
        invariant
            i <= entries.len(),
            all == shapes(entries@),
            all.len() == entries@.len(),
            forall|j: int|
                0 <= j < entries@.len() ==> #[trigger] all[j] == (
                    entries@[j].0@,
                    shape(entries@[j].1),
                ),
            text::texts(notes@) == unknown_notes(all.take(i as int), shapes(known@), path@),
        decreases entries.len() - i,
    {
        assert(all.take(i + 1).drop_last() =~= all.take(i as int));
        assert(all[i as int].0 == entries@[i as int].0@);
        let key = entries[i].0.as_str();
        if find_key(known, key).is_none() {
            let mut note = "`".to_owned();
            note.append(write_full_key(path, key).as_str());
            note.append("` is not a setting, and was ignored");
            let ghost before = notes@;
            notes.push(note);
            assert(text::texts(notes@) =~= text::texts(before).push(note@));
        }
        i += 1;
    }
    assert(all.take(i as int) =~= all);
    notes
}

/// Drop keys the config does not have, noting each one.
///
/// This is what makes an unknown key cost only itself. A file that reads as it
/// stands never gets here, so the choice is between losing one key and losing
/// the file.
pub fn prune_unknown(tree: Tree, known: &Tree, path: &str) -> (r: (Tree, Vec<String>))
    ensures
        (shape(r.0), text::texts(r.1@)) == pruned(shape(tree), shape(*known), path@),
    decreases tree,
{
    let ghost whole = tree;
    let entries = match tree {
        Tree::Leaf(value) => {
            let none: Vec<String> = Vec::new();
            assert(text::texts(none@) =~= Seq::<Seq<char>>::empty());
            return (Tree::Leaf(value), none);
        },
        Tree::Table(entries) => entries,
    };
    let names = match known {
        Tree::Leaf(_) => {
            let none: Vec<String> = Vec::new();
            assert(text::texts(none@) =~= Seq::<Seq<char>>::empty());
            return (Tree::Table(entries), none);
        },
        Tree::Table(names) => names,
    };
    let mut notes = note_unknown(&entries, names, path);
    let ghost gone = text::texts(notes@);
    let ghost was = entries@;
    let ghost all = shapes(was);
    proof {
        lemma_shapes(was);
        lemma_shapes(names@);
        assert(text::texts(notes@) =~= gone + pruned_each(all.take(0), shapes(names@), path@).1);
    }
    let mut out: Vec<(String, Tree)> = Vec::new();
    assert(shapes(out@) =~= pruned_each(all.take(0), shapes(names@), path@).0);
    for item in it: entries
        invariant
            it.seq() == was,
            whole == tree,
            whole == Tree::Table(entries),
            entries@ == was,
            all == shapes(was),
            all.len() == was.len(),
            forall|j: int|
                0 <= j < was.len() ==> #[trigger] all[j] == (was[j].0@, shape(was[j].1)),
            shapes(names@).len() == names@.len(),
            forall|j: int|
                0 <= j < names@.len() ==> #[trigger] shapes(names@)[j] == (
                    names@[j].0@,
                    shape(names@[j].1),
                ),
            shapes(out@) == pruned_each(all.take(it.index() as int), shapes(names@), path@).0,
            text::texts(notes@) == gone + pruned_each(
                all.take(it.index() as int),
                shapes(names@),
                path@,
            ).1,
    {
        let ghost at = it.index() as int;
        let ghost before = out@;
        let ghost said = text::texts(notes@);
        let ghost earlier = pruned_each(all.take(at), shapes(names@), path@).1;
        assert(all.take(at + 1).drop_last() =~= all.take(at));
        assert(all.take(at + 1).last() == (item.0@, shape(item.1)));
        assert(item == was[at]);
        assert(decreases_to!(whole => whole->Table_0));
        assert(decreases_to!(entries => entries@));
        assert(decreases_to!(entries@ => entries@[at]));
        assert(decreases_to!(entries@[at] => entries@[at].1));
        let (key, child) = item;
        match find_key(names, key.as_str()) {
            None => {},
            Some(i) => {
                if text::same(key.as_str(), FREE_FORM) {
                    out.push((key, child));
                    assert(out@.drop_last() =~= before);
                } else {
                    let full = write_full_key(path, key.as_str());
                    assert(shapes(names@)[i as int] == (
                        names@[i as int].0@,
                        shape(names@[i as int].1),
                    ));
                    let (child, mut more) = prune_unknown(child, &names[i].1, full.as_str());
                    let ghost added = more@;
                    let ghost had = notes@;
                    notes.append(&mut more);
                    assert(text::texts(notes@) =~= text::texts(had) + text::texts(added));
                    assert((gone + earlier) + text::texts(added) =~= gone + (earlier
                        + text::texts(added)));
                    out.push((key, child));
                    assert(out@.drop_last() =~= before);
                }
            },
        }
    }
    assert(all.take(was.len() as int) =~= all);
    (Tree::Table(out), notes)
}

/// The tree of settings a text is, if it is TOML.
pub uninterp spec fn tree_value(raw: Seq<char>) -> Option<Shape>;

/// Calls `toml::from_str` for a table, and `Value::to_string` on each value that
/// is not a table. A table inside is written out with `toml::to_string` and read
/// the same way, which is what makes the tree. All of them depend on the text
/// alone, and what they give is called `tree_value` of it.
#[verifier::external_body]
fn read_tree(raw: &str) -> (r: Option<Tree>)
    ensures
        tree_value(raw@) == match r {
            Some(tree) => Some(shape(tree)),
            None => None,
        },
{
    let table: toml::Table = toml::from_str(raw).ok()?;
    let mut entries: Vec<(String, Tree)> = Vec::new();
    for (key, value) in table {
        match value {
            toml::Value::Table(inner) => {
                entries.push((key, read_tree(&toml::to_string(&inner).ok()?)?))
            }
            leaf => entries.push((key, Tree::Leaf(leaf.to_string()))),
        }
    }
    Some(Tree::Table(entries))
}

/// What a valid config looks like, as a tree of keys: the defaults, written as
/// TOML.
///
/// Derived rather than listed, so it cannot drift from the settings.
pub fn known_shape(defaults: &str) -> (r: Tree)
    ensures
        shape(r) == match tree_value(defaults@) {
            Some(known) => known,
            None => Shape::Table(Seq::empty()),
        },
{
    match read_tree(defaults) {
        Some(known) => known,
        None => {
            let none: Vec<(String, Tree)> = Vec::new();
            assert(shapes(none@) =~= Seq::empty());
            Tree::Table(none)
        },
    }
}

/// What is left of a file the browser has since outgrown, and what is said of the
/// rest.
pub open spec fn salvaged(tree: Shape, known: Shape) -> (Shape, Seq<Seq<char>>) {
    let (moved, notes) = migrated(tree, Seq::empty());
    let (kept, more) = pruned(moved, known, Seq::empty());
    (kept, notes + more)
}

/// Salvage what a file says, given the tree it reads as.
pub fn salvage_tree(tree: Tree, known: &Tree) -> (r: (Tree, Vec<String>))
    ensures
        (shape(r.0), text::texts(r.1@)) == salvaged(shape(tree), shape(*known)),
{
    let mut notes: Vec<String> = Vec::new();
    proof {
        reveal_strlit("");
        assert(""@ =~= Seq::<char>::empty());
        assert(text::texts(notes@) =~= Seq::<Seq<char>>::empty());
    }
    let moved = migrate(tree, &mut notes);
    let (kept, mut more) = prune_unknown(moved, known, "");
    let ghost before = notes@;
    let ghost added = more@;
    notes.append(&mut more);
    assert(text::texts(notes@) =~= text::texts(before) + text::texts(added));
    (kept, notes)
}

/// Salvage what a file says: what is left of it, and what is said of the rest.
/// `None` for a file that is not TOML at all.
///
/// One key the browser has since renamed should cost that key, not every setting
/// in the file.
pub fn salvage(raw: &str, known: &Tree) -> (r: Option<(Tree, Vec<String>)>)
    ensures
        match tree_value(raw@) {
            None => r is None,
            Some(tree) => r matches Some((left, said)) && (shape(left), text::texts(said@))
                == salvaged(tree, shape(*known)),
        },
{
    match read_tree(raw) {
        Some(tree) => Some(salvage_tree(tree, known)),
        None => None,
    }
}

// ---------------------------------------------------------------------------
// Laws
// ---------------------------------------------------------------------------

/// Whether a tree has no key that `known` does not have, whatever the user's own
/// table holds.
pub open spec fn fits(tree: Shape, known: Shape) -> bool
    decreases tree,
{
    match (tree, known) {
        (Shape::Table(entries), Shape::Table(names)) => fits_each(entries, names),
        _ => true,
    }
}

pub open spec fn fits_each(
    entries: Seq<(Seq<char>, Shape)>,
    known: Seq<(Seq<char>, Shape)>,
) -> bool
    decreases entries,
{
    if entries.len() == 0 {
        true
    } else {
        &&& fits_each(entries.drop_last(), known)
        &&& match key_at(known, entries.last().0) {
            None => false,
            Some(i) => entries.last().0 == FREE_FORM@ || fits(entries.last().1, known[i].1),
        }
    }
}

proof fn lemma_pruned_each_fits(
    entries: Seq<(Seq<char>, Shape)>,
    known: Seq<(Seq<char>, Shape)>,
    path: Seq<char>,
)
    ensures
        fits_each(pruned_each(entries, known, path).0, known),
    decreases entries,
{
    if entries.len() > 0 {
        lemma_pruned_each_fits(entries.drop_last(), known, path);
        let (front, _) = pruned_each(entries.drop_last(), known, path);
        let entry = entries.last();
        match key_at(known, entry.0) {
            None => {},
            Some(i) => {
                let out = pruned_each(entries, known, path).0;
                if entry.0 != FREE_FORM@ {
                    law_pruned_fits(entry.1, known[i].1, full_key(path, entry.0));
                }
                assert(out.drop_last() =~= front);
            },
        }
    }
}

/// A file that was pruned has no key in it that the config does not have, but
/// for the user's own table.
pub proof fn law_pruned_fits(tree: Shape, known: Shape, path: Seq<char>)
    ensures
        fits(pruned(tree, known, path).0, known),
    decreases tree,
{
    match (tree, known) {
        (Shape::Table(entries), Shape::Table(names)) => {
            lemma_pruned_each_fits(entries, names, path);
        },
        _ => {},
    }
}

proof fn lemma_fitting_each_is_kept(
    entries: Seq<(Seq<char>, Shape)>,
    known: Seq<(Seq<char>, Shape)>,
    path: Seq<char>,
)
    requires
        fits_each(entries, known),
    ensures
        pruned_each(entries, known, path) == (entries, Seq::<Seq<char>>::empty()),
        unknown_notes(entries, known, path) == Seq::<Seq<char>>::empty(),
    decreases entries,
{
    if entries.len() == 0 {
        assert(entries =~= Seq::empty());
    } else {
        lemma_fitting_each_is_kept(entries.drop_last(), known, path);
        let entry = entries.last();
        let i = key_at(known, entry.0).unwrap();
        assert(entries.drop_last().push(entry) =~= entries);
        if entry.0 != FREE_FORM@ {
            law_fitting_file_is_kept(entry.1, known[i].1, full_key(path, entry.0));
            assert(Seq::<Seq<char>>::empty() + Seq::<Seq<char>>::empty() =~= Seq::<
                Seq<char>,
            >::empty());
        }
    }
}

/// A file with no key in it that the config does not have is kept whole, and
/// nothing is said of it.
pub proof fn law_fitting_file_is_kept(tree: Shape, known: Shape, path: Seq<char>)
    requires
        fits(tree, known),
    ensures
        pruned(tree, known, path) == (tree, Seq::<Seq<char>>::empty()),
    decreases tree,
{
    match (tree, known) {
        (Shape::Table(entries), Shape::Table(names)) => {
            lemma_fitting_each_is_kept(entries, names, path);
            assert(Seq::<Seq<char>>::empty() + Seq::<Seq<char>>::empty() =~= Seq::<
                Seq<char>,
            >::empty());
        },
        _ => {},
    }
}

/// The user's own table goes through untouched, whatever its keys are.
pub proof fn law_own_words_are_kept(
    entries: Seq<(Seq<char>, Shape)>,
    known: Seq<(Seq<char>, Shape)>,
    path: Seq<char>,
    i: int,
)
    requires
        0 <= i < entries.len(),
        entries[i].0 == FREE_FORM@,
        key_at(known, FREE_FORM@) is Some,
    ensures
        pruned_each(entries, known, path).0.contains(entries[i]),
    decreases entries.len(),
{
    let out = pruned_each(entries, known, path).0;
    let (front, _) = pruned_each(entries.drop_last(), known, path);
    if i == entries.len() - 1 {
        assert(out.last() == entries[i]);
        assert(out[out.len() - 1] == entries[i]);
    } else {
        law_own_words_are_kept(entries.drop_last(), known, path, i);
        assert(entries.drop_last()[i] == entries[i]);
        let k = choose|k: int| 0 <= k < front.len() && front[k] == entries[i];
        assert(out[k] == front[k]);
    }
}

/// The new spelling wins where a file has both: what stands at a path already is
/// not overwritten, and that something was refused is said.
pub proof fn law_new_spelling_wins(
    entries: Seq<(Seq<char>, Shape)>,
    key: Seq<char>,
    incoming: Shape,
)
    ensures
        match key_at(entries, key) {
            Some(i) => entries[i].1 is Leaf ==> merged(
                Shape::Table(entries),
                seq![key],
                incoming,
            ) == (Shape::Table(entries), false),
            None => merged(Shape::Table(entries), seq![key], incoming) == (
                Shape::Table(with_entry(entries, key, incoming)),
                true,
            ),
        },
{
}

/// What was taken from a path is what stood there, and a path with nothing at it
/// leaves the file as it was.
pub proof fn law_taking_nothing_changes_nothing(tree: Shape, path: Seq<Seq<char>>)
    ensures
        taken(tree, path).1 is None ==> taken(tree, path).0 == tree,
    decreases path.len(),
{
    if let Shape::Table(entries) = tree {
        if path.len() > 1 {
            let want = |e: (Seq<char>, Shape)| e.0 == path[0];
            list::lemma_first_where_is_first(entries, want);
            if let Some(i) = key_at(entries, path[0]) {
                law_taking_nothing_changes_nothing(entries[i].1, path.skip(1));
                let (child, got) = taken(entries[i].1, path.skip(1));
                if got is None {
                    assert(entries.update(i, (entries[i].0, child)) =~= entries);
                }
            }
        }
    }
}

/// What stands under a key of a table, if anything does.
pub open spec fn under_key(entries: Seq<(Seq<char>, Shape)>, key: Seq<char>) -> Option<Shape> {
    match key_at(entries, key) {
        Some(i) => Some(entries[i].1),
        None => None,
    }
}

/// What stands at a path of a file, if anything does.
pub open spec fn standing_at(tree: Shape, path: Seq<Seq<char>>) -> Option<Shape>
    decreases path.len(),
{
    if path.len() == 0 {
        Some(tree)
    } else {
        match tree {
            Shape::Leaf(_) => None,
            Shape::Table(entries) => match under_key(entries, path[0]) {
                Some(child) => standing_at(child, path.skip(1)),
                None => None,
            },
        }
    }
}

/// The place of a key is the first that has it.
proof fn lemma_key_place(entries: Seq<(Seq<char>, Shape)>, key: Seq<char>)
    ensures
        match key_at(entries, key) {
            Some(i) => 0 <= i < entries.len() && entries[i].0 == key && forall|j: int|
                0 <= j < i ==> (#[trigger] entries[j]).0 != key,
            None => forall|j: int| 0 <= j < entries.len() ==> (#[trigger] entries[j]).0 != key,
        },
{
    let one = seq![key];
    assert(one[0] == key);
    let want = |e: (Seq<char>, Shape)| e.0 == one[0];
    list::lemma_first_where_is_first(entries, want);
    assert(key_at(entries, one[0]) == list::first_where(entries, want));
    assert forall|j: int|
        0 <= j < entries.len() && !want(#[trigger] entries[j]) implies entries[j].0 != key by {}
}

/// The first place that has a key is where it stands.
proof fn lemma_key_stands(entries: Seq<(Seq<char>, Shape)>, key: Seq<char>, at: int)
    requires
        0 <= at <= entries.len(),
        forall|j: int| 0 <= j < at ==> (#[trigger] entries[j]).0 != key,
        at < entries.len() ==> entries[at].0 == key,
    ensures
        at < entries.len() ==> key_at(entries, key) == Some(at),
        at == entries.len() ==> key_at(entries, key) is None,
{
    let one = seq![key];
    assert(one[0] == key);
    let want = |e: (Seq<char>, Shape)| e.0 == one[0];
    assert forall|j: int| 0 <= j < at implies !want(#[trigger] entries[j]) by {}
    list::lemma_first_where(entries, want, at);
    assert(key_at(entries, one[0]) == list::first_where(entries, want));
}

proof fn lemma_entry_goes_in(entries: Seq<(Seq<char>, Shape)>, key: Seq<char>, value: Shape) -> (at:
    int)
    ensures
        0 <= at <= entries.len(),
        with_entry(entries, key, value) == entries.insert(at, (key, value)),
    decreases entries.len(),
{
    if entries.len() == 0 {
        assert(with_entry(entries, key, value) =~= entries.insert(0, (key, value)));
        0
    } else if text::precedes(key, entries[0].0) {
        assert(with_entry(entries, key, value) =~= entries.insert(0, (key, value)));
        0
    } else {
        let at = lemma_entry_goes_in(entries.drop_first(), key, value);
        assert(with_entry(entries, key, value) =~= entries.insert(at + 1, (key, value)));
        at + 1
    }
}

proof fn lemma_entry_added(
    entries: Seq<(Seq<char>, Shape)>,
    key: Seq<char>,
    value: Shape,
    other: Seq<char>,
)
    requires
        key_at(entries, key) is None,
    ensures
        under_key(with_entry(entries, key, value), key) == Some(value),
        other != key ==> under_key(with_entry(entries, key, value), other) == under_key(
            entries,
            other,
        ),
{
    let at = lemma_entry_goes_in(entries, key, value);
    let after = with_entry(entries, key, value);
    lemma_key_place(entries, key);
    lemma_key_place(entries, other);
    assert forall|j: int| 0 <= j < at implies (#[trigger] after[j]).0 != key by {
        assert(after[j] == entries[j]);
    }
    lemma_key_stands(after, key, at);
    if other != key {
        let to = match key_at(entries, other) {
            Some(k) => if k < at {
                k
            } else {
                k + 1
            },
            None => after.len() as int,
        };
        assert forall|j: int| 0 <= j < to implies (#[trigger] after[j]).0 != other by {
            if j < at {
                assert(after[j] == entries[j]);
            } else if j > at {
                assert(after[j] == entries[j - 1]);
            }
        }
        lemma_key_stands(after, other, to);
    }
}

proof fn lemma_entry_changed(
    entries: Seq<(Seq<char>, Shape)>,
    i: int,
    value: Shape,
    other: Seq<char>,
)
    requires
        0 <= i < entries.len(),
        key_at(entries, entries[i].0) == Some(i),
    ensures
        under_key(entries.update(i, (entries[i].0, value)), entries[i].0) == Some(value),
        other != entries[i].0 ==> under_key(entries.update(i, (entries[i].0, value)), other)
            == under_key(entries, other),
{
    let key = entries[i].0;
    let after = entries.update(i, (key, value));
    lemma_key_place(entries, key);
    lemma_key_place(entries, other);
    assert forall|j: int| 0 <= j < after.len() implies (#[trigger] after[j]).0 == entries[j].0 by {}
    lemma_key_stands(after, key, i);
    if other != key {
        let to = match key_at(entries, other) {
            Some(k) => k,
            None => after.len() as int,
        };
        lemma_key_stands(after, other, to);
    }
}

proof fn lemma_paths()
    ensures
        text::pieces("window.opacity"@, '.') == seq!["window"@, "opacity"@],
        text::pieces("theme.veil"@, '.') == seq!["theme"@, "veil"@],
        text::pieces("chrome.strip"@, '.') == seq!["chrome"@, "strip"@],
        text::pieces("page"@, '.') == seq!["page"@],
        text::pieces("theme"@, '.') == seq!["theme"@],
        text::pieces("strip"@, '.') == seq!["strip"@],
{
    reveal_strlit("window.opacity");
    reveal_strlit("theme.veil");
    reveal_strlit("chrome.strip");
    reveal_strlit("page");
    reveal_strlit("theme");
    reveal_strlit("strip");
    reveal_strlit("window");
    reveal_strlit("opacity");
    reveal_strlit("veil");
    reveal_strlit("chrome");
    assert("window.opacity"@ =~= "window"@ + seq!['.'] + "opacity"@);
    assert("theme.veil"@ =~= "theme"@ + seq!['.'] + "veil"@);
    assert("chrome.strip"@ =~= "chrome"@ + seq!['.'] + "strip"@);
    lemma_two_pieces("window"@, "opacity"@, "window.opacity"@);
    lemma_two_pieces("theme"@, "veil"@, "theme.veil"@);
    lemma_two_pieces("chrome"@, "strip"@, "chrome.strip"@);
    text::lemma_pieces_of_joined(seq!["page"@], '.');
    text::lemma_pieces_of_joined(seq!["theme"@], '.');
    text::lemma_pieces_of_joined(seq!["strip"@], '.');
}

proof fn lemma_two_pieces(a: Seq<char>, b: Seq<char>, whole: Seq<char>)
    requires
        !a.contains('.'),
        !b.contains('.'),
        whole == a + seq!['.'] + b,
    ensures
        text::pieces(whole, '.') == seq![a, b],
{
    let parts = seq![a, b];
    assert(parts.drop_last() =~= seq![a]);
    assert(text::joined(parts, seq!['.']) == text::joined(parts.drop_last(), seq!['.']) + seq!['.']
        + b);
    assert(text::joined(parts.drop_last(), seq!['.']) == a);
    text::lemma_pieces_of_joined(parts, '.');
}

/// A value put at a place where nothing stands is found there, and nothing else moves.
proof fn lemma_merged_two(entries: Seq<(Seq<char>, Shape)>, a: Seq<char>, b: Seq<char>, v: Shape)
    requires
        key_at(entries, a) is None,
    ensures
        merged(Shape::Table(entries), seq![a, b], v) == (
            Shape::Table(with_entry(entries, a, Shape::Table(seq![(b, v)]))),
            true,
        ),
{
    let path = seq![a, b];
    let none = Seq::<(Seq<char>, Shape)>::empty();
    assert(path.skip(1) =~= seq![b]);
    assert(path.skip(1)[0] == b);
    assert(with_entry(none, b, v) == seq![(b, v)]);
    assert(key_at(none, b) is None);
    assert(merged(Shape::Table(none), path.skip(1), v) == (Shape::Table(seq![(b, v)]), true));
}

/// The translucency of the window is read as the page's veil, in a file that has none of
/// the sections that have moved: what was set stays set, and that it moved is said.
pub proof fn law_opacity_is_the_veil(
    entries: Seq<(Seq<char>, Shape)>,
    at: int,
    inner: Seq<(Seq<char>, Shape)>,
    k: int,
    notes: Seq<Seq<char>>,
    other: Seq<char>,
)
    requires
        key_at(entries, "window"@) == Some(at),
        entries[at].1 == Shape::Table(inner),
        key_at(inner, "opacity"@) == Some(k),
        key_at(entries, "theme"@) is None,
        key_at(entries, "page"@) is None,
        key_at(entries, "strip"@) is None,
        other != "window"@,
        other != "theme"@,
    ensures
        ({
            let (after, said) = migrated(Shape::Table(entries), notes);
            &&& standing_at(after, seq!["theme"@, "veil"@]) == Some(inner[k].1)
            &&& standing_at(after, seq![other]) == standing_at(Shape::Table(entries), seq![other])
            &&& said == notes.push(
                "`"@ + "window.opacity"@ + "` is now `"@ + "theme.veil"@ + "`, and was read as such"@,
            )
        }),
{
    reveal_strlit("window");
    reveal_strlit("theme");
    reveal_strlit("page");
    reveal_strlit("strip");
    assert("window"@.len() == 6 && "theme"@.len() == 5 && "page"@.len() == 4 && "strip"@.len() == 5);
    assert("theme"@[0] == 't' && "strip"@[0] == 's');
    lemma_paths();
    let tree = Shape::Table(entries);
    let path = seq!["window"@, "opacity"@];
    let v = inner[k].1;
    lemma_key_place(entries, "window"@);
    lemma_key_place(inner, "opacity"@);
    assert(path.skip(1) =~= seq!["opacity"@]);
    assert(path.skip(1)[0] == "opacity"@);
    let left = entries.update(at, (entries[at].0, Shape::Table(inner.remove(k))));
    assert(taken(entries[at].1, path.skip(1)) == (Shape::Table(inner.remove(k)), Some(v)));
    assert(taken(tree, path) == (Shape::Table(left), Some(v)));
    lemma_entry_changed(entries, at, Shape::Table(inner.remove(k)), "theme"@);
    lemma_entry_changed(entries, at, Shape::Table(inner.remove(k)), "page"@);
    lemma_entry_changed(entries, at, Shape::Table(inner.remove(k)), "strip"@);
    lemma_entry_changed(entries, at, Shape::Table(inner.remove(k)), other);
    lemma_merged_two(left, "theme"@, "veil"@, v);
    let veil = Shape::Table(seq![("veil"@, v)]);
    let now = with_entry(left, "theme"@, veil);
    lemma_entry_added(left, "theme"@, veil, "page"@);
    lemma_entry_added(left, "theme"@, veil, "strip"@);
    lemma_entry_added(left, "theme"@, veil, other);
    let (one, said) = moved(tree, notes, "window.opacity"@, "theme.veil"@);
    assert(one == Shape::Table(now));
    assert(seq!["page"@][0] == "page"@ && seq!["strip"@][0] == "strip"@);
    assert(moved(one, said, "page"@, "theme"@) == (one, said));
    assert(moved(one, said, "strip"@, "chrome.strip"@) == (one, said));
    let there = seq!["theme"@, "veil"@];
    assert(there.skip(1) =~= seq!["veil"@]);
    assert(there.skip(1)[0] == "veil"@);
    assert(there.skip(1).skip(1).len() == 0);
    let only = seq![("veil"@, v)];
    lemma_key_stands(only, "veil"@, 0);
    assert(standing_at(v, there.skip(1).skip(1)) == Some(v));
    assert(standing_at(veil, there.skip(1)) == Some(v));
    assert(seq![other][0] == other);
}

/// A section that has moved whole is found where it belongs now, in a file that has
/// nothing there: the page's as the theme's, and the strip's under the chrome.
pub proof fn law_moved_sections_are_found(
    entries: Seq<(Seq<char>, Shape)>,
    value: Shape,
    notes: Seq<Seq<char>>,
)
    requires
        key_at(entries, "window"@) is None,
        key_at(entries, "theme"@) is None,
        key_at(entries, "page"@) is None,
        key_at(entries, "strip"@) is None,
        key_at(entries, "chrome"@) is None,
    ensures
        standing_at(
            migrated(Shape::Table(entries.push(("page"@, value))), notes).0,
            seq!["theme"@],
        ) == Some(value),
        standing_at(
            migrated(Shape::Table(entries.push(("strip"@, value))), notes).0,
            seq!["chrome"@, "strip"@],
        ) == Some(value),
        migrated(Shape::Table(entries), notes) == (Shape::Table(entries), notes),
{
    reveal_strlit("window");
    reveal_strlit("theme");
    reveal_strlit("page");
    reveal_strlit("strip");
    reveal_strlit("chrome");
    assert("window"@.len() == 6 && "theme"@.len() == 5 && "page"@.len() == 4 && "strip"@.len() == 5
        && "chrome"@.len() == 6);
    assert("theme"@[0] == 't' && "strip"@[0] == 's' && "window"@[0] == 'w' && "chrome"@[0] == 'c');
    lemma_paths();
    lemma_pushed(entries, "page"@, value, "window"@);
    lemma_pushed(entries, "page"@, value, "strip"@);
    lemma_pushed(entries, "strip"@, value, "window"@);
    lemma_pushed(entries, "strip"@, value, "page"@);
    let n = entries.len() as int;
    let first = entries.push(("page"@, value));
    assert(seq!["page"@][0] == "page"@ && seq!["strip"@][0] == "strip"@ && seq!["theme"@][0]
        == "theme"@);
    assert(first.remove(n) =~= entries);
    assert(taken(Shape::Table(first), seq!["page"@]) == (Shape::Table(entries), Some(value)));
    lemma_entry_added(entries, "theme"@, value, "strip"@);
    assert(seq!["theme"@].skip(1).len() == 0);
    assert(standing_at(value, seq!["theme"@].skip(1)) == Some(value));
    let second = entries.push(("strip"@, value));
    assert(second.remove(n) =~= entries);
    assert(taken(Shape::Table(second), seq!["strip"@]) == (Shape::Table(entries), Some(value)));
    lemma_merged_two(entries, "chrome"@, "strip"@, value);
    let only = seq![("strip"@, value)];
    lemma_entry_added(entries, "chrome"@, Shape::Table(only), "theme"@);
    lemma_key_stands(only, "strip"@, 0);
    let there = seq!["chrome"@, "strip"@];
    assert(there.skip(1) =~= seq!["strip"@]);
    assert(there.skip(1)[0] == "strip"@);
    assert(there.skip(1).skip(1).len() == 0);
    assert(standing_at(value, there.skip(1).skip(1)) == Some(value));
    assert(standing_at(Shape::Table(only), there.skip(1)) == Some(value));
}

proof fn lemma_pushed(
    entries: Seq<(Seq<char>, Shape)>,
    key: Seq<char>,
    value: Shape,
    other: Seq<char>,
)
    requires
        key_at(entries, key) is None,
        key_at(entries, other) is None,
        other != key,
    ensures
        key_at(entries.push((key, value)), key) == Some(entries.len() as int),
        key_at(entries.push((key, value)), other) is None,
{
    let after = entries.push((key, value));
    lemma_key_place(entries, key);
    lemma_key_place(entries, other);
    assert forall|j: int| 0 <= j < entries.len() implies #[trigger] after[j] == entries[j] by {}
    lemma_key_stands(after, key, entries.len() as int);
    lemma_key_stands(after, other, after.len() as int);
}

/// The config file is the one that is named, whatever else is set; a profile has one of
/// its own beside the others, and no two profiles named differently share one.
pub proof fn law_config_file_is_its_own(
    named: Seq<char>,
    config: Option<Seq<char>>,
    home: Option<Seq<char>>,
    profile: Option<Seq<char>>,
    dir: Seq<char>,
    name: Seq<char>,
)
    ensures
        config_file(Some(named), config, home, profile) == named,
        config_file(None, Some(dir), home, None) == pathname::under(
            pathname::under(dir, "oma-browse"@),
            "config.toml"@,
        ),
        config_file(None, Some(dir), home, Some(name)) == pathname::under(
            pathname::under(pathname::under(dir, "oma-browse"@), "profiles"@),
            profile::safe_name(name) + ".toml"@,
        ),
        config_file(None, None, Some(dir), profile) == config_file(
            None,
            Some(pathname::under(dir, ".config"@)),
            home,
            profile,
        ),
{
}

/// A complaint of one line is told as it stands. Of a longer one the first line is told, and
/// the last with it.
pub proof fn law_complaint_is_told_by_its_ends(message: Seq<char>)
    ensures
        spoken(message).len() == 0 ==> summary(message) == message,
        spoken(message).len() == 1 ==> summary(message) == spoken(message)[0],
        spoken(message).len() > 0 ==> spoken(message)[0].is_prefix_of(summary(message)),
        spoken(message).len() > 1 && spoken(message).last() != spoken(message)[0]
            ==> text::trimmed(spoken(message).last()).is_suffix_of(summary(message)),
{
}

/// A setting at the top is called by its own name. One inside a table has the table's name
/// before it, and one deeper down the names of all its tables in order.
pub proof fn law_setting_is_called_by_its_tables(table: Seq<char>, inner: Seq<char>, key: Seq<char>)
    requires
        table.len() > 0,
    ensures
        full_key(Seq::empty(), key) == key,
        full_key(table, key) == table + "."@ + key,
        full_key(full_key(full_key(Seq::empty(), table), inner), key) == table + "."@ + inner + "."@
            + key,
{
}

} // verus!
