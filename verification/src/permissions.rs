//! What each site is allowed to do.
//!
//! The same shape as the bookmarks: a flat file, no index, written whole on
//! every change. What is stored is a decision *you* made, so it is small, it is
//! worth losing nothing of, and it should be readable with `cat` and editable
//! with an editor: a permission you cannot audit is a permission you have not
//! really given.
//!
//! Keyed by origin rather than by URL, because that is the boundary the web
//! platform itself uses: `https://meet.example` may use the microphone on every
//! page it serves, and a different port is a different site.

use vstd::prelude::*;

use crate::list;
use crate::number;
use crate::pathname;
use crate::table;
use crate::text;
use crate::weburl;

verus! {

/// A thing a page can ask for.
///
/// They are spelled the way a person would say them, because these strings are
/// the command-line vocabulary (`permission allow <origin> camera`) and the file
/// format at once.
#[derive(Debug, Clone, Copy, PartialEq, Eq, Structural)]
pub enum Kind {
    Camera,
    Microphone,
    /// Sharing a window or a screen with the page. Separate from the camera on
    /// purpose: saying yes to a video call is not saying yes to your desktop.
    ScreenShare,
    Geolocation,
    Notifications,
    /// Enumerating your cameras and microphones by name: a fingerprinting
    /// surface, and not the same question as being allowed to use one.
    DeviceInfo,
    /// Encrypted media (DRM).
    ProtectedMedia,
}

/// What a kind is called.
pub open spec fn kind_name(kind: Kind) -> Seq<char> {
    match kind {
        Kind::Camera => "camera"@,
        Kind::Microphone => "microphone"@,
        Kind::ScreenShare => "screen-share"@,
        Kind::Geolocation => "geolocation"@,
        Kind::Notifications => "notifications"@,
        Kind::DeviceInfo => "device-info"@,
        Kind::ProtectedMedia => "protected-media"@,
    }
}

/// How the prompt says it.
pub open spec fn kind_phrase(kind: Kind) -> Seq<char> {
    match kind {
        Kind::Camera => "to use your camera"@,
        Kind::Microphone => "to use your microphone"@,
        Kind::ScreenShare => "to see your screen"@,
        Kind::Geolocation => "to know where you are"@,
        Kind::Notifications => "to send you notifications"@,
        Kind::DeviceInfo => "the names of your cameras and microphones"@,
        Kind::ProtectedMedia => "to play protected media"@,
    }
}

/// The kind a name belongs to.
pub open spec fn kind_called(name: Seq<char>) -> Option<Kind> {
    if name == "camera"@ {
        Some(Kind::Camera)
    } else if name == "microphone"@ {
        Some(Kind::Microphone)
    } else if name == "screen-share"@ {
        Some(Kind::ScreenShare)
    } else if name == "geolocation"@ {
        Some(Kind::Geolocation)
    } else if name == "notifications"@ {
        Some(Kind::Notifications)
    } else if name == "device-info"@ {
        Some(Kind::DeviceInfo)
    } else if name == "protected-media"@ {
        Some(Kind::ProtectedMedia)
    } else {
        None
    }
}

/// What was typed, as a name: white space around it, capitals and underscores do
/// not matter.
pub open spec fn typed(raw: Seq<char>) -> Seq<char> {
    text::swapped(text::lowered(text::trimmed(raw)), '_', '-')
}

impl Kind {
    pub const ALL: [Kind; 7] = [
        Kind::Camera,
        Kind::Microphone,
        Kind::ScreenShare,
        Kind::Geolocation,
        Kind::Notifications,
        Kind::DeviceInfo,
        Kind::ProtectedMedia,
    ];

    pub fn as_str(self) -> (r: &'static str)
        ensures
            r@ == kind_name(self),
    {
        match self {
            Kind::Camera => "camera",
            Kind::Microphone => "microphone",
            Kind::ScreenShare => "screen-share",
            Kind::Geolocation => "geolocation",
            Kind::Notifications => "notifications",
            Kind::DeviceInfo => "device-info",
            Kind::ProtectedMedia => "protected-media",
        }
    }

    /// Read what someone typed. Hyphen or underscore, any case.
    pub fn parse(raw: &str) -> (r: Option<Kind>)
        ensures
            r == kind_called(typed(raw@)),
    {
        let wanted = text::swap_char(
            text::to_lower(text::trim(raw).as_str()).as_str(),
            '_',
            '-',
        );
        let wanted = wanted.as_str();
        if text::same(wanted, "camera") {
            Some(Kind::Camera)
        } else if text::same(wanted, "microphone") {
            Some(Kind::Microphone)
        } else if text::same(wanted, "screen-share") {
            Some(Kind::ScreenShare)
        } else if text::same(wanted, "geolocation") {
            Some(Kind::Geolocation)
        } else if text::same(wanted, "notifications") {
            Some(Kind::Notifications)
        } else if text::same(wanted, "device-info") {
            Some(Kind::DeviceInfo)
        } else if text::same(wanted, "protected-media") {
            Some(Kind::ProtectedMedia)
        } else {
            None
        }
    }

    /// How the prompt says it: "wants <this>".
    pub fn phrase(self) -> (r: &'static str)
        ensures
            r@ == kind_phrase(self),
    {
        match self {
            Kind::Camera => "to use your camera",
            Kind::Microphone => "to use your microphone",
            Kind::ScreenShare => "to see your screen",
            Kind::Geolocation => "to know where you are",
            Kind::Notifications => "to send you notifications",
            Kind::DeviceInfo => "the names of your cameras and microphones",
            Kind::ProtectedMedia => "to play protected media",
        }
    }
}

/// What to do when a page asks.
#[derive(Debug, Clone, Copy, PartialEq, Eq, Structural)]
pub enum Decision {
    Allow,
    Deny,
    /// Nothing has been decided for this origin, so the person should be asked.
    Ask,
}

#[derive(Debug, Clone)]
pub struct Grant {
    pub origin: String,
    pub kind: Kind,
    pub allow: bool,
    /// Unix seconds, so the newest sort first.
    pub decided: u64,
}

/// A grant as values.
pub struct Ruling {
    pub origin: Seq<char>,
    pub kind: Kind,
    pub allow: bool,
    pub decided: u64,
}

impl View for Grant {
    type V = Ruling;

    open spec fn view(&self) -> Ruling {
        Ruling {
            origin: self.origin@,
            kind: self.kind,
            allow: self.allow,
            decided: self.decided,
        }
    }
}

/// A request that is waiting on a person.
///
/// One request can ask for several things at once, as a video call asks for the
/// camera and the microphone together, so this carries every kind it covers, and
/// one answer settles all of them. `id` is how the request object is found again
/// once someone has decided.
#[derive(Debug, Clone)]
pub struct Pending {
    pub id: u64,
    pub origin: String,
    pub kinds: Vec<Kind>,
}

/// The phrases of several kinds as one: "a", "a and b", "a, b and c".
pub open spec fn phrases(kinds: Seq<Kind>) -> Seq<char> {
    let each = kinds.map_values(|k: Kind| kind_phrase(k));
    if each.len() == 0 {
        "something"@
    } else if each.len() == 1 {
        each[0]
    } else {
        text::joined(each.drop_last(), ", "@) + " and "@ + each.last()
    }
}

impl Pending {
    /// The question, as the palette asks it.
    pub fn question(&self) -> (r: String)
        ensures
            r@ == self.origin@ + " wants "@ + phrases(self.kinds@) + " -- allow or deny?"@,
    {
        let mut out = self.origin.clone();
        out.append(" wants ");
        out.append(phrase_list(&self.kinds).as_str());
        out.append(" -- allow or deny?");
        out
    }
}

fn phrase_list(kinds: &[Kind]) -> (r: String)
    ensures
        r@ == phrases(kinds@),
{
    let ghost each = kinds@.map_values(|k: Kind| kind_phrase(k));
    if kinds.len() == 0 {
        return "something".to_owned();
    }
    let last = kinds[kinds.len() - 1].phrase();
    if kinds.len() == 1 {
        return last.to_owned();
    }
    let mut front: Vec<String> = Vec::new();
    let mut i: usize = 0;
    assert(text::texts(front@) =~= each.take(0));
    while i + 1 < kinds.len()
        invariant
            i + 1 <= kinds.len(),
            each == kinds@.map_values(|k: Kind| kind_phrase(k)),
            text::texts(front@) == each.take(i as int),
        decreases kinds.len() - i,
    {
        let ghost before = front@;
        front.push(kinds[i].phrase().to_owned());
        assert(text::texts(front@) =~= text::texts(before).push(each[i as int]));
        assert(each.take(i + 1) =~= each.take(i as int).push(each[i as int]));
        i += 1;
    }
    assert(each.take(i as int) =~= each.drop_last());
    let mut out = text::join(&front, ", ");
    out.append(" and ");
    out.append(last);
    out
}

pub struct Permissions {
    entries: Vec<Grant>,
}

pub open spec fn rulings(entries: Seq<Grant>) -> Seq<Ruling> {
    entries.map_values(|g: Grant| g@)
}

impl View for Permissions {
    type V = Seq<Ruling>;

    closed spec fn view(&self) -> Seq<Ruling> {
        rulings(self.entries@)
    }
}

/// The ruling that answers for an origin and a kind: the first there is.
pub open spec fn ruling_for(rules: Seq<Ruling>, origin: Seq<char>, kind: Kind) -> Option<int> {
    list::first_where(rules, |r: Ruling| r.origin == origin && r.kind == kind)
}

/// What was decided for an origin and a kind.
pub open spec fn decided(rules: Seq<Ruling>, origin: Seq<char>, kind: Kind) -> Decision {
    match ruling_for(rules, origin, kind) {
        Some(i) => if rules[i].allow {
            Decision::Allow
        } else {
            Decision::Deny
        },
        None => Decision::Ask,
    }
}

/// What was decided for several kinds at once. One denial denies the whole
/// request, and so does asking for nothing; it takes every kind to allow it.
pub open spec fn decided_all(
    rules: Seq<Ruling>,
    origin: Seq<char>,
    kinds: Seq<Kind>,
) -> Decision {
    if kinds.len() == 0 {
        Decision::Deny
    } else if exists|i: int|
        0 <= i < kinds.len() && decided(rules, origin, #[trigger] kinds[i]) == Decision::Deny {
        Decision::Deny
    } else if forall|i: int|
        0 <= i < kinds.len() ==> decided(rules, origin, #[trigger] kinds[i]) == Decision::Allow {
        Decision::Allow
    } else {
        Decision::Ask
    }
}

/// The rulings once one more has been made. It replaces any earlier one for the
/// same origin and kind, and stands first.
pub open spec fn ruled(
    rules: Seq<Ruling>,
    origin: Seq<char>,
    kind: Kind,
    allow: bool,
    now: u64,
) -> Seq<Ruling> {
    if origin.len() == 0 {
        rules
    } else {
        seq![Ruling { origin, kind, allow, decided: now }] + list::kept(
            rules,
            |r: Ruling| !(r.origin == origin && r.kind == kind),
        )
    }
}

/// The rulings once those for an origin have been forgotten, or those of one
/// kind.
pub open spec fn forgotten(
    rules: Seq<Ruling>,
    origin: Seq<char>,
    kind: Option<Kind>,
) -> Seq<Ruling> {
    list::kept(
        rules,
        |r: Ruling|
            r.origin != origin || match kind {
                Some(k) => k != r.kind,
                None => false,
            },
    )
}

/// One line of the file: when, the verdict, the origin and the kind.
pub open spec fn row(r: Ruling) -> Seq<char> {
    number::decimal(r.decided as nat) + seq!['\t'] + (if r.allow {
        "allow"@
    } else {
        "deny"@
    }) + seq!['\t'] + r.origin + seq!['\t'] + kind_name(r.kind)
}

/// What a line of the file says, if it says anything. Any verdict but the word
/// "allow" is a denial: a file that has been edited into nonsense should fail
/// closed.
pub open spec fn read_row(line: Seq<char>) -> Option<Ruling> {
    let parts = text::fields(line, 4, '\t');
    if parts.len() < 4 {
        None
    } else {
        match (number::unsigned(parts[0], u64::MAX as nat), kind_called(typed(parts[3]))) {
            (Some(decided), Some(kind)) => Some(
                Ruling {
                    origin: parts[2],
                    kind,
                    allow: parts[1] == "allow"@,
                    decided: decided as u64,
                },
            ),
            _ => None,
        }
    }
}

/// The file the permissions are written as.
pub open spec fn sheet(rules: Seq<Ruling>) -> Seq<char> {
    table::sheet(rules.map_values(|r: Ruling| row(r)))
}

/// What is read back from a file. No file is no decision.
pub open spec fn read_back(raw: Option<Seq<char>>) -> Seq<Ruling> {
    match raw {
        Some(text) => list::collected(text::lines(text), |l: Seq<char>| read_row(l)),
        None => Seq::empty(),
    }
}

impl Default for Permissions {
    fn default() -> (r: Self)
        ensures
            r@ == Seq::<Ruling>::empty(),
    {
        let r = Permissions { entries: Vec::new() };
        assert(r@ =~= Seq::<Ruling>::empty());
        r
    }
}

impl Permissions {
    /// Read what was saved last time, given the text of the file if there was
    /// one to read.
    pub fn load(raw: Option<&str>) -> (r: Self)
        ensures
            r@ == read_back(
                match raw {
                    Some(text) => Some(text@),
                    None => None,
                },
            ),
    {
        let mut out = Permissions { entries: Vec::new() };
        assert(rulings(out.entries@) =~= Seq::<Ruling>::empty());
        let text = match raw {
            Some(text) => text,
            None => return out,
        };
        let lines = text::split_lines(text);
        let ghost read = |l: Seq<char>| read_row(l);
        let mut i: usize = 0;
        assert(rulings(out.entries@) =~= list::collected(text::texts(lines@).take(0), read));
        while i < lines.len()
            invariant
                i <= lines.len(),
                read == (|l: Seq<char>| read_row(l)),
                rulings(out.entries@) == list::collected(text::texts(lines@).take(i as int), read),
            decreases lines.len() - i,
        {
            let ghost so_far = text::texts(lines@).take(i + 1);
            assert(so_far.drop_last() =~= text::texts(lines@).take(i as int));
            assert(so_far.last() == lines@[i as int]@);
            let ghost before = out.entries@;
            match parse_row(lines[i].as_str()) {
                Some(grant) => {
                    out.entries.push(grant);
                    assert(rulings(out.entries@) =~= rulings(before).push(grant@));
                },
                None => {},
            }
            i += 1;
        }
        assert(text::texts(lines@).take(i as int) =~= text::texts(lines@));
        out
    }

    /// What was decided for this origin, if anything.
    pub fn decide(&self, origin: &str, kind: Kind) -> (r: Decision)
        ensures
            r == decided(self@, origin@, kind),
    {
        let ghost want = |r: Ruling| r.origin == origin@ && r.kind == kind;
        let mut i: usize = 0;
        while i < self.entries.len()
            invariant
                i <= self.entries.len(),
                want == (|r: Ruling| r.origin == origin@ && r.kind == kind),
                forall|j: int| 0 <= j < i ==> !want(#[trigger] self@[j]),
            decreases self.entries.len() - i,
        {
            let grant = &self.entries[i];
            if text::same(grant.origin.as_str(), origin) && grant.kind == kind {
                proof {
                    list::lemma_first_where(self@, want, i as int);
                }
                return if grant.allow {
                    Decision::Allow
                } else {
                    Decision::Deny
                };
            }
            i += 1;
        }
        proof {
            list::lemma_first_where(self@, want, i as int);
        }
        Decision::Ask
    }

    /// What was decided for a request covering several kinds at once.
    ///
    /// Every kind has to be allowed for the request to be; one denial denies the
    /// whole thing, because the engine's answer is one bit and the safe reading
    /// of "yes to the microphone, no to the camera" is no.
    pub fn decide_all(&self, origin: &str, kinds: &[Kind]) -> (r: Decision)
        ensures
            r == decided_all(self@, origin@, kinds@),
    {
        if kinds.len() == 0 {
            return Decision::Deny;
        }
        let mut all_allowed = true;
        let mut i: usize = 0;
        while i < kinds.len()
            invariant
                i <= kinds.len(),
                forall|j: int|
                    0 <= j < i ==> decided(self@, origin@, #[trigger] kinds@[j]) != Decision::Deny,
                all_allowed == (forall|j: int|
                    0 <= j < i ==> decided(self@, origin@, #[trigger] kinds@[j])
                        == Decision::Allow),
            decreases kinds.len() - i,
        {
            let each = self.decide(origin, kinds[i]);
            assert(each == decided(self@, origin@, kinds@[i as int]));
            match each {
                Decision::Deny => return Decision::Deny,
                Decision::Ask => {
                    all_allowed = false;
                },
                Decision::Allow => {},
            }
            i += 1;
        }
        if all_allowed {
            Decision::Allow
        } else {
            Decision::Ask
        }
    }

    /// Drop the rulings for an origin, or those of one kind. Returns how many
    /// went.
    fn drop_for(&mut self, origin: &str, kind: Option<Kind>) -> (r: usize)
        ensures
            final(self)@ == forgotten(old(self)@, origin@, kind),
            r == old(self)@.len() - final(self)@.len(),
    {
        let ghost keep = |r: Ruling|
            r.origin != origin@ || match kind {
                Some(k) => k != r.kind,
                None => false,
            };
        let mut all: Vec<Grant> = Vec::new();
        std::mem::swap(&mut all, &mut self.entries);
        let before: usize = all.len();
        let ghost was = all@;
        assert(rulings(self.entries@) =~= list::kept(rulings(was).take(0), keep));
        for grant in it: all
            invariant
                it.seq() == was,
                before == was.len(),
                keep == (|r: Ruling|
                    r.origin != origin@ || match kind {
                        Some(k) => k != r.kind,
                        None => false,
                    }),
                self.entries@.len() <= it.index(),
                rulings(self.entries@) == list::kept(rulings(was).take(it.index() as int), keep),
        {
            let ghost at = it.index() as int;
            let ghost so_far = self.entries@;
            assert(rulings(was).take(at + 1).drop_last() =~= rulings(was).take(at));
            assert(rulings(was)[at] == grant@);
            let stays = !text::same(grant.origin.as_str(), origin) || match kind {
                Some(k) => k != grant.kind,
                None => false,
            };
            if stays {
                self.entries.push(grant);
                assert(rulings(self.entries@) =~= rulings(so_far).push(grant@));
            }
        }
        assert(rulings(was).take(was.len() as int) =~= rulings(was));
        before - self.entries.len()
    }

    /// Record a decision, replacing any earlier one for the same pair.
    pub fn set(&mut self, origin: &str, kind: Kind, allow: bool, now: u64)
        ensures
            final(self)@ == ruled(old(self)@, origin@, kind, allow, now),
    {
        if origin.is_empty() {
            return;
        }
        let _gone: usize = self.drop_for(origin, Some(kind));
        let ghost rest = self.entries@;
        self.entries.insert(0, Grant { origin: origin.to_owned(), kind, allow, decided: now });
        proof {
            let a = |r: Ruling| !(r.origin == origin@ && r.kind == kind);
            let which = Some(kind);
            let b = |r: Ruling|
                r.origin != origin@ || match which {
                    Some(k) => k != r.kind,
                    None => false,
                };
            assert(a =~= b);
            assert(self@ =~= ruled(old(self)@, origin@, kind, allow, now));
        }
    }

    /// Forget decisions for an origin, one kind or all of them. Returns how many
    /// went, so the caller can say "there was nothing to forget".
    pub fn forget(&mut self, origin: &str, kind: Option<Kind>) -> (r: usize)
        ensures
            final(self)@ == forgotten(old(self)@, origin@, kind),
            r == old(self)@.len() - final(self)@.len(),
    {
        self.drop_for(origin, kind)
    }

    pub fn entries(&self) -> (r: &[Grant])
        ensures
            rulings(r@) == self@,
    {
        self.entries.as_slice()
    }

    /// The text of the file.
    pub fn render(&self) -> (r: String)
        ensures
            r@ == sheet(self@),
    {
        let ghost rows = self@.map_values(|r: Ruling| row(r));
        let mut body = String::new();
        let mut i: usize = 0;
        while i < self.entries.len()
            invariant
                i <= self.entries.len(),
                rows == self@.map_values(|r: Ruling| row(r)),
                body@ == table::sheet(rows.take(i as int)),
            decreases self.entries.len() - i,
        {
            assert(rows.take(i + 1).drop_last() =~= rows.take(i as int));
            body.append(write_row(&self.entries[i]).as_str());
            body.push('\n');
            assert(body@ =~= table::sheet(rows.take(i + 1)));
            i += 1;
        }
        assert(rows.take(i as int) =~= rows);
        body
    }
}

fn write_row(grant: &Grant) -> (r: String)
    ensures
        r@ == row(grant@),
{
    let mut line = number::to_decimal(grant.decided);
    line.push('\t');
    line.append(
        if grant.allow {
            "allow"
        } else {
            "deny"
        },
    );
    line.push('\t');
    line.append(grant.origin.as_str());
    line.push('\t');
    line.append(grant.kind.as_str());
    assert(line@ =~= row(grant@));
    line
}

fn parse_row(line: &str) -> (r: Option<Grant>)
    ensures
        match r {
            Some(grant) => read_row(line@) == Some(grant@),
            None => read_row(line@) is None,
        },
{
    let parts = text::splitn(line, 4, '\t');
    let ghost said = text::texts(parts@);
    assert forall|i: int| 0 <= i < parts@.len() implies said[i] == #[trigger] parts@[i]@ by {}
    if parts.len() < 4 {
        return None;
    }
    match (number::parse_u64(parts[0].as_str()), Kind::parse(parts[3].as_str())) {
        (Some(decided), Some(kind)) => Some(
            Grant {
                origin: parts[2].clone(),
                kind,
                allow: text::same(parts[1].as_str(), "allow"),
                decided,
            },
        ),
        _ => None,
    }
}

/// The file the permissions are written to.
pub fn path(state_dir: &str) -> (r: String)
    ensures
        r@ == pathname::under(state_dir@, "permissions"@),
{
    pathname::join(state_dir, "permissions")
}

/// The origin decisions are remembered under, given what an address's origin
/// reads as. Only a scheme, host and port is one.
pub open spec fn remembered(origin: Option<(bool, Seq<char>)>) -> Option<Seq<char>> {
    match origin {
        Some((true, text)) => Some(text),
        _ => None,
    }
}

/// The origin decisions are remembered under, if an address has one.
pub fn remembered_origin(origin: Option<(bool, String)>) -> (r: Option<String>)
    ensures
        match r {
            Some(text) => origin == Some((true, text)),
            None => !(origin matches Some((true, _))),
        },
{
    match origin {
        Some((true, text)) => Some(text),
        _ => None,
    }
}

/// The origin of a URL, as the web platform spells it: scheme, host and port.
///
/// `None` for anything without one: `about:blank`, a `data:` URL, the browser's
/// own pages. A page with no origin has nothing to remember a decision against,
/// and is refused rather than lumped in with every other originless page under
/// one shared key.
pub fn origin_of(url: &str) -> (r: Option<String>)
    ensures
        match r {
            Some(text) => remembered(weburl::origin_text(url@)) == Some(text@),
            None => remembered(weburl::origin_text(url@)) is None,
        },
{
    remembered_origin(weburl::origin(url))
}

// ---------------------------------------------------------------------------
// Laws
// ---------------------------------------------------------------------------

/// A text without white space at its ends, capitals or underscores is what it
/// says as typed.
proof fn lemma_typed_plain(s: Seq<char>)
    requires
        s.len() > 0,
        forall|i: int|
            0 <= i < s.len() ==> ('a' <= #[trigger] s[i] && s[i] <= 'z') || s[i] == '-',
    ensures
        typed(s) == s,
{
    let space = |c: char| text::is_space(c);
    assert(!space(s[0]));
    assert(!space(s[s.len() - 1]));
    text::lemma_trim_start(s, space, 0);
    assert(s.skip(0) =~= s);
    text::lemma_trim_end(s, space, s.len() as int);
    assert(s.take(s.len() as int) =~= s);
    assert(text::lowered(s) =~= s);
    assert(text::swapped(s, '_', '-') =~= s);
}

/// Every kind survives a trip through its name.
pub proof fn law_kind_round_trip(kind: Kind)
    ensures
        kind_called(typed(kind_name(kind))) == Some(kind),
        table::free_of(kind_name(kind), '\t'),
        table::one_line(kind_name(kind)),
{
    reveal_strlit("camera");
    reveal_strlit("microphone");
    reveal_strlit("screen-share");
    reveal_strlit("geolocation");
    reveal_strlit("notifications");
    reveal_strlit("device-info");
    reveal_strlit("protected-media");
    let name = kind_name(kind);
    match kind {
        Kind::Camera => {
            assert(name =~= seq!['c', 'a', 'm', 'e', 'r', 'a']);
        },
        Kind::Microphone => {
            assert(name =~= seq!['m', 'i', 'c', 'r', 'o', 'p', 'h', 'o', 'n', 'e']);
        },
        Kind::ScreenShare => {
            assert(name =~= seq!['s', 'c', 'r', 'e', 'e', 'n', '-', 's', 'h', 'a', 'r', 'e']);
        },
        Kind::Geolocation => {
            assert(name =~= seq!['g', 'e', 'o', 'l', 'o', 'c', 'a', 't', 'i', 'o', 'n']);
        },
        Kind::Notifications => {
            assert(name =~= seq!['n', 'o', 't', 'i', 'f', 'i', 'c', 'a', 't', 'i', 'o', 'n', 's']);
        },
        Kind::DeviceInfo => {
            assert(name =~= seq!['d', 'e', 'v', 'i', 'c', 'e', '-', 'i', 'n', 'f', 'o']);
        },
        Kind::ProtectedMedia => {
            assert(name =~= seq![
                'p', 'r', 'o', 't', 'e', 'c', 't', 'e', 'd', '-', 'm', 'e', 'd', 'i', 'a',
            ]);
        },
    }
    lemma_typed_plain(name);
}

proof fn lemma_row_reads_back(r: Ruling)
    requires
        table::free_of(r.origin, '\t'),
        table::free_of(r.origin, '\n'),
    ensures
        table::one_line(row(r)),
        read_row(row(r)) == Some(r),
{
    let a = number::decimal(r.decided as nat);
    let v = if r.allow {
        "allow"@
    } else {
        "deny"@
    };
    let k = kind_name(r.kind);
    let tab = seq!['\t'];
    reveal_strlit("allow");
    reveal_strlit("deny");
    assert("allow"@ =~= seq!['a', 'l', 'l', 'o', 'w']);
    assert("deny"@ =~= seq!['d', 'e', 'n', 'y']);
    assert("allow"@ != "deny"@) by {
        assert("allow"@.len() != "deny"@.len());
    }
    law_kind_round_trip(r.kind);
    number::lemma_decimal(r.decided as nat);
    number::law_decimal_reads_back(r.decided as nat, u64::MAX as nat);
    assert(table::free_of(a, '\t') && table::free_of(a, '\n')) by {
        assert forall|i: int| 0 <= i < a.len() implies a[i] != '\t' && a[i] != '\n' by {
            assert(number::is_digit(a[i]));
        }
    }
    let rest2 = r.origin + tab + k;
    let rest1 = v + tab + rest2;
    assert(row(r) =~= a + tab + rest1);
    table::lemma_cut_field(a, rest1, '\t');
    table::lemma_cut_field(v, rest2, '\t');
    table::lemma_cut_field(r.origin, k, '\t');
    table::lemma_last_field(k, 1, '\t');
    let f1 = text::fields(k, 1, '\t');
    let f2 = text::fields(rest2, 2, '\t');
    let f3 = text::fields(rest1, 3, '\t');
    let f4 = text::fields(row(r), 4, '\t');
    assert(f2 == seq![r.origin] + f1);
    assert(f3 == seq![v] + f2);
    assert(f4 == seq![a] + f3);
    assert(f4 =~= seq![a, v, r.origin, k]);
    let line = row(r);
    assert forall|i: int| 0 <= i < line.len() implies line[i] != '\n' by {}
    if line.last() == '\r' {
        if k.len() > 0 {
            assert(line.last() == k.last());
        }
    }
}

/// What the permissions are written as reads back as the same decisions in the
/// same order. It holds where no origin has a tab or a newline in it.
pub proof fn law_permissions_read_back(rules: Seq<Ruling>)
    requires
        forall|i: int|
            0 <= i < rules.len() ==> table::free_of((#[trigger] rules[i]).origin, '\t')
                && table::free_of(rules[i].origin, '\n'),
    ensures
        read_back(Some(sheet(rules))) == rules,
{
    let rows = rules.map_values(|r: Ruling| row(r));
    assert forall|i: int| 0 <= i < rows.len() implies table::one_line(#[trigger] rows[i])
        && read_row(rows[i]) == Some(rules[i]) by {
        lemma_row_reads_back(rules[i]);
    }
    table::lemma_sheet_reads_back(rows, |l: Seq<char>| read_row(l), rules);
}

/// A decision is what is answered from then on, and it answers for nothing else:
/// saying yes to the microphone is not saying yes to the camera, nor to anybody
/// else.
pub proof fn law_ruling_is_answered(
    rules: Seq<Ruling>,
    origin: Seq<char>,
    kind: Kind,
    allow: bool,
    now: u64,
    other: Seq<char>,
    another: Kind,
)
    requires
        origin.len() > 0,
    ensures
        decided(ruled(rules, origin, kind, allow, now), origin, kind) == if allow {
            Decision::Allow
        } else {
            Decision::Deny
        },
        other != origin || another != kind ==> decided(
            ruled(rules, origin, kind, allow, now),
            other,
            another,
        ) == decided(rules, other, another),
{
    let first = Ruling { origin, kind, allow, decided: now };
    let keep = |r: Ruling| !(r.origin == origin && r.kind == kind);
    let rest = list::kept(rules, keep);
    list::lemma_first_in_front(first, rest, |r: Ruling| r.origin == origin && r.kind == kind);
    if other != origin || another != kind {
        let want = |r: Ruling| r.origin == other && r.kind == another;
        list::lemma_first_in_front(first, rest, want);
        list::lemma_kept_first(rules, keep, want);
        list::lemma_first_where_is_first(rest, want);
        list::lemma_first_where_is_first(rules, want);
    }
}

/// Deciding again replaces the earlier decision rather than standing beside it.
pub proof fn law_ruling_replaces(
    rules: Seq<Ruling>,
    origin: Seq<char>,
    kind: Kind,
    allow: bool,
    now: u64,
)
    requires
        origin.len() > 0,
    ensures
        forall|i: int|
            0 < i < ruled(rules, origin, kind, allow, now).len() ==> !((#[trigger] ruled(
                rules,
                origin,
                kind,
                allow,
                now,
            )[i]).origin == origin && ruled(rules, origin, kind, allow, now)[i].kind == kind),
{
    let keep = |r: Ruling| !(r.origin == origin && r.kind == kind);
    let after = ruled(rules, origin, kind, allow, now);
    let rest = list::kept(rules, keep);
    list::lemma_kept(rules, keep);
    assert forall|i: int| 0 < i < after.len() implies !((#[trigger] after[i]).origin == origin
        && after[i].kind == kind) by {
        assert(after[i] == rest[i - 1]);
        assert(keep(rest[i - 1]));
    }
}

/// What was forgotten is asked about again, and what was decided for anything
/// else still holds.
pub proof fn law_forgotten_is_asked_again(
    rules: Seq<Ruling>,
    origin: Seq<char>,
    which: Option<Kind>,
    kind: Kind,
    other: Seq<char>,
    another: Kind,
)
    requires
        which is None || which == Some(kind),
    ensures
        decided(forgotten(rules, origin, which), origin, kind) == Decision::Ask,
        other != origin || (which is Some && another != kind) ==> decided(
            forgotten(rules, origin, which),
            other,
            another,
        ) == decided(rules, other, another),
{
    let keep = |r: Ruling|
        r.origin != origin || match which {
            Some(k) => k != r.kind,
            None => false,
        };
    let rest = forgotten(rules, origin, which);
    list::lemma_kept(rules, keep);
    let mine = |r: Ruling| r.origin == origin && r.kind == kind;
    assert forall|j: int| 0 <= j < rest.len() implies !mine(#[trigger] rest[j]) by {
        assert(keep(rest[j]));
    }
    list::lemma_first_where(rest, mine, rest.len() as int);
    if other != origin || (which is Some && another != kind) {
        let want = |r: Ruling| r.origin == other && r.kind == another;
        list::lemma_kept_first(rules, keep, want);
        list::lemma_first_where_is_first(rest, want);
        list::lemma_first_where_is_first(rules, want);
    }
}

/// Nothing is allowed that was not decided: with no ruling for an origin, every
/// request it makes is asked about or refused.
pub proof fn law_nothing_allowed_unasked(
    rules: Seq<Ruling>,
    origin: Seq<char>,
    kinds: Seq<Kind>,
)
    requires
        forall|i: int| 0 <= i < rules.len() ==> (#[trigger] rules[i]).origin != origin,
    ensures
        decided_all(rules, origin, kinds) != Decision::Allow,
{
    if kinds.len() > 0 {
        let want = |r: Ruling| r.origin == origin && r.kind == kinds[0];
        list::lemma_first_where_is_first(rules, want);
        assert(decided(rules, origin, kinds[0]) == Decision::Ask);
    }
}

/// The question names everything it is asking for.
pub proof fn law_question_names_every_thing(kinds: Seq<Kind>, i: int)
    requires
        0 <= i < kinds.len(),
    ensures
        text::says(phrases(kinds), kind_phrase(kinds[i])),
{
    let each = kinds.map_values(|k: Kind| kind_phrase(k));
    let part = kind_phrase(kinds[i]);
    assert(each[i] == part);
    assert(part.subrange(0, part.len() as int) =~= part);
    assert(text::stands_at(part, part, 0));
    if kinds.len() > 1 {
        let front = text::joined(each.drop_last(), ", "@);
        if i == kinds.len() - 1 {
            text::lemma_says_part(front + " and "@, part, Seq::empty(), part);
            assert(front + " and "@ + part + Seq::<char>::empty() =~= phrases(kinds));
        } else {
            text::lemma_joined_says(each.drop_last(), ", "@, i);
            text::lemma_says_part(Seq::empty(), front, " and "@ + each.last(), part);
            assert(Seq::<char>::empty() + front + (" and "@ + each.last()) =~= phrases(kinds));
        }
    }
}

/// Each thing is asked for in words of its own: the camera as the camera, the screen
/// as the screen.
pub proof fn law_question_is_about_the_thing()
    ensures
        text::says(kind_phrase(Kind::Camera), "camera"@),
        text::says(kind_phrase(Kind::Microphone), "microphone"@),
        text::says(kind_phrase(Kind::ScreenShare), "screen"@),
        text::says(kind_phrase(Kind::Geolocation), "where you are"@),
        text::says(kind_phrase(Kind::Notifications), "notifications"@),
        text::says(kind_phrase(Kind::DeviceInfo), "names of your cameras and microphones"@),
        text::says(kind_phrase(Kind::ProtectedMedia), "protected media"@),
{
    reveal_strlit("camera");
    reveal_strlit("to use your camera");
    reveal_strlit("microphone");
    reveal_strlit("to use your microphone");
    reveal_strlit("screen");
    reveal_strlit("to see your screen");
    reveal_strlit("where you are");
    reveal_strlit("to know where you are");
    reveal_strlit("notifications");
    reveal_strlit("to send you notifications");
    reveal_strlit("names of your cameras and microphones");
    reveal_strlit("the names of your cameras and microphones");
    reveal_strlit("protected media");
    reveal_strlit("to play protected media");
    assert("to use your camera"@.subrange(12, 18) =~= "camera"@);
    assert(text::stands_at(kind_phrase(Kind::Camera), "camera"@, 12));
    assert("to use your microphone"@.subrange(12, 22) =~= "microphone"@);
    assert(text::stands_at(kind_phrase(Kind::Microphone), "microphone"@, 12));
    assert("to see your screen"@.subrange(12, 18) =~= "screen"@);
    assert(text::stands_at(kind_phrase(Kind::ScreenShare), "screen"@, 12));
    assert("to know where you are"@.subrange(8, 21) =~= "where you are"@);
    assert(text::stands_at(kind_phrase(Kind::Geolocation), "where you are"@, 8));
    assert("to send you notifications"@.subrange(12, 25) =~= "notifications"@);
    assert(text::stands_at(kind_phrase(Kind::Notifications), "notifications"@, 12));
    assert("the names of your cameras and microphones"@.subrange(4, 41) =~= "names of your cameras and microphones"@);
    assert(text::stands_at(kind_phrase(Kind::DeviceInfo), "names of your cameras and microphones"@, 4));
    assert("to play protected media"@.subrange(8, 23) =~= "protected media"@);
    assert(text::stands_at(kind_phrase(Kind::ProtectedMedia), "protected media"@, 8));
}

/// A file that has been edited into nonsense fails closed: only the one word grants
/// anything, and a line that does not say what it is about says nothing.
pub proof fn law_edited_file_fails_closed(at: nat, word: Seq<char>, origin: Seq<char>, kind: Kind)
    requires
        at <= u64::MAX,
        table::free_of(word, '\t'),
        table::free_of(origin, '\t'),
    ensures
        ({
            let tab = seq!['\t'];
            let line = number::decimal(at) + tab + word + tab + origin + tab + kind_name(kind);
            read_row(line) matches Some(r) && r.origin == origin && r.kind == kind && r.decided
                == at && (r.allow <==> word == "allow"@)
        }),
{
    let tab = seq!['\t'];
    let a = number::decimal(at);
    let k = kind_name(kind);
    law_kind_round_trip(kind);
    number::lemma_decimal(at);
    number::law_decimal_reads_back(at, u64::MAX as nat);
    assert(table::free_of(a, '\t')) by {
        assert forall|i: int| 0 <= i < a.len() implies a[i] != '\t' by {
            assert(number::is_digit(a[i]));
        }
    }
    let rest2 = origin + tab + k;
    let rest1 = word + tab + rest2;
    let line = a + tab + word + tab + origin + tab + k;
    assert(line =~= a + tab + rest1);
    table::lemma_cut_field(a, rest1, '\t');
    table::lemma_cut_field(word, rest2, '\t');
    table::lemma_cut_field(origin, k, '\t');
    table::lemma_last_field(k, 1, '\t');
    let f1 = text::fields(k, 1, '\t');
    let f2 = text::fields(rest2, 2, '\t');
    let f3 = text::fields(rest1, 3, '\t');
    let f4 = text::fields(line, 4, '\t');
    assert(f2 == seq![origin] + f1);
    assert(f3 == seq![word] + f2);
    assert(f4 == seq![a] + f3);
    assert(f4 =~= seq![a, word, origin, k]);
}

/// The newest decision stands first, made now, and the others keep their order behind
/// it.
pub proof fn law_newest_ruling_first(
    rules: Seq<Ruling>,
    origin: Seq<char>,
    kind: Kind,
    allow: bool,
    now: u64,
)
    requires
        origin.len() > 0,
        forall|i: int|
            0 <= i < rules.len() ==> !((#[trigger] rules[i]).origin == origin && rules[i].kind
                == kind),
    ensures
        ({
            let after = ruled(rules, origin, kind, allow, now);
            &&& after.len() == rules.len() + 1
            &&& after[0].origin == origin && after[0].kind == kind && after[0].allow == allow
            &&& after[0].decided == now
            &&& forall|i: int| 0 <= i < rules.len() ==> #[trigger] rules[i] == after[i + 1]
        }),
{
    list::lemma_kept_all(rules, |r: Ruling| !(r.origin == origin && r.kind == kind));
}

} // verus!
