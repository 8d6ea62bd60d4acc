//! The page a tab shows when there is no page to show.
//!
//! Four things can leave a content webview with nothing in it: a certificate
//! that did not check out, a site asking for a password, a web process that
//! died, and a request that never arrived. What they must not do is look like
//! four different browsers. This is the one place the shape is decided: the tag,
//! the host, the sentence, the way out, the URL in small type at the bottom.

use vstd::prelude::*;

use crate::table;
use crate::text;
use crate::weburl;

verus! {

/// One failure, ready to render.
pub struct Interstitial<'a> {
    /// The small red word above the heading: "crashed", "not reached".
    pub tag: &'a str,
    /// The document title, which is also what the strip will show for the tab.
    pub title: &'a str,
    /// What follows the host, completing the sentence it starts.
    pub sub: &'a str,
    /// The engine's own words, if they add anything: "Name or service not
    /// known", "Connection refused".
    ///
    /// Kept separate from `sub` and set in smaller type, because it is the one
    /// line here that was not written for a person to read, but it is also the
    /// only line that says *which* failure it was.
    pub detail: Option<&'a str>,
    /// What to do about it.
    ///
    /// Markup, not text: this is the one field that carries `<code>` and
    /// `<kbd>`, and every value of it is written in this crate. Nothing that
    /// came off the network reaches it; see [`escape`], which is what handles
    /// everything that did.
    pub hint: &'a str,
    /// The address that failed, shown in full at the bottom and reduced to its
    /// host for the heading.
    pub uri: &'a str,
}

/// What a character is written as in markup.
pub open spec fn entity(c: char) -> Seq<char> {
    if c == '&' {
        "&amp;"@
    } else if c == '<' {
        "&lt;"@
    } else if c == '>' {
        "&gt;"@
    } else if c == '"' {
        "&quot;"@
    } else if c == '\'' {
        "&#39;"@
    } else {
        seq![c]
    }
}

/// A text as it is written in markup.
pub open spec fn escaped(text: Seq<char>) -> Seq<char> {
    text::expanded(text, |c: char| entity(c))
}

/// What stands in the heading, given what the address's host reads as.
pub open spec fn heading(host: Option<Option<Seq<char>>>) -> Seq<char> {
    match host {
        Some(Some(name)) if name.len() > 0 => name,
        _ => "This page"@,
    }
}

/// The styles a page is set in: the theme's variables and the chrome's own, or
/// the fallback while the theme is being swapped.
pub open spec fn dress(theme: Option<(Seq<char>, Seq<char>)>) -> (Seq<char>, Seq<char>) {
    match theme {
        Some(both) => both,
        None => (FALLBACK_VARS@, Seq::empty()),
    }
}

/// The page, given what its host reads as and the theme it is set in.
pub open spec fn page(
    failure: Interstitial<'_>,
    host: Option<Option<Seq<char>>>,
    theme: Option<(Seq<char>, Seq<char>)>,
) -> Seq<char> {
    let (vars, mine) = dress(theme);
    "<!DOCTYPE html>\n<html lang=\"en\"><head><meta charset=\"utf-8\"><title>"@ + escaped(
        failure.title@,
    ) + "</title><style>"@ + vars + "</style><style>"@ + mine + "</style><style>"@ + CSS@
        + "</style></head><body><main><p class=\"tag\">"@ + escaped(failure.tag@) + "</p><h1>"@
        + escaped(heading(host)) + "</h1><p class=\"sub\">"@ + escaped(failure.sub@) + "</p>"@ + (
    match failure.detail {
        Some(detail) => "<p class=\"why\">"@ + escaped(detail@) + "</p>"@,
        None => Seq::empty(),
    }) + "<p class=\"hint\">"@ + failure.hint@ + "</p><p class=\"uri\">"@ + escaped(failure.uri@)
        + "</p></main></body></html>"@
}

impl<'a> Interstitial<'a> {
    /// Render, in the theme the browser is wearing: the theme's variables and
    /// the chrome's own, or `None` where the theme is being swapped at this very
    /// moment, and the page is set to be readable in any theme rather than
    /// pretty in one.
    pub fn render(&self, theme: Option<(&str, &str)>) -> (r: String)
        ensures
            r@ == page(
                *self,
                weburl::host_text(self.uri@),
                match theme {
                    Some((vars, mine)) => Some((vars@, mine@)),
                    None => None,
                },
            ),
    {
        self.render_for(weburl::host(self.uri), theme)
    }

    /// Render, given the host of the address that failed.
    pub fn render_for(
        &self,
        host: Option<Option<String>>,
        theme: Option<(&str, &str)>,
    ) -> (r: String)
        ensures
            r@ == page(
                *self,
                match host {
                    Some(Some(name)) => Some(Some(name@)),
                    Some(None) => Some(None),
                    None => None,
                },
                match theme {
                    Some((vars, mine)) => Some((vars@, mine@)),
                    None => None,
                },
            ),
    {
        let (vars, mine) = match theme {
            Some(both) => both,
            None => (FALLBACK_VARS, ""),
        };
        proof {
            reveal_strlit("");
            assert(""@ =~= Seq::<char>::empty());
        }
        let why = match self.detail {
            Some(detail) => {
                let mut why = "<p class=\"why\">".to_owned();
                why.append(escape(detail).as_str());
                why.append("</p>");
                why
            },
            None => String::new(),
        };
        let mut out =
            "<!DOCTYPE html>\n<html lang=\"en\"><head><meta charset=\"utf-8\"><title>".to_owned();
        out.append(escape(self.title).as_str());
        out.append("</title><style>");
        out.append(vars);
        out.append("</style><style>");
        out.append(mine);
        out.append("</style><style>");
        out.append(CSS);
        out.append("</style></head><body><main><p class=\"tag\">");
        out.append(escape(self.tag).as_str());
        out.append("</p><h1>");
        out.append(escape(host_heading(host).as_str()).as_str());
        out.append("</h1><p class=\"sub\">");
        out.append(escape(self.sub).as_str());
        out.append("</p>");
        out.append(why.as_str());
        out.append("<p class=\"hint\">");
        out.append(self.hint);
        out.append("</p><p class=\"uri\">");
        out.append(escape(self.uri).as_str());
        out.append("</p></main></body></html>");
        out
    }
}

/// What to put in the heading for a host that was read.
///
/// A tab that failed before it had a URL at all, or on something that is not
/// one, has no host, and neither has a `file:` address. "This page" is vague but
/// true, and better than an empty heading.
pub fn host_heading(host: Option<Option<String>>) -> (r: String)
    ensures
        r@ == heading(
            match host {
                Some(Some(name)) => Some(Some(name@)),
                Some(None) => Some(None),
                None => None,
            },
        ),
{
    if let Some(Some(name)) = host {
        if !name.as_str().is_empty() {
            return name;
        }
    }
    "This page".to_owned()
}

/// The host, for the heading.
///
/// A whole URL in 2rem type wraps to three lines and says nothing the line of
/// small type underneath does not.
pub fn host_of(uri: &str) -> (r: String)
    ensures
        r@ == heading(weburl::host_text(uri@)),
{
    host_heading(weburl::host(uri))
}

/// Text into markup.
///
/// Everything variable on these pages came off the network, a URL that failed, a
/// host that a page chose to navigate to, and is written into a document by hand
/// rather than by a template engine. Quotes included: the point of doing it by
/// hand carefully is not to have to reason about which contexts a value can
/// reach.
pub fn escape(text: &str) -> (r: String)
    ensures
        r@ == escaped(text@),
{
    let chars = text::chars_of(text);
    let ghost f = |c: char| entity(c);
    let mut out = String::new();
    let mut i: usize = 0;
    while i < chars.len()
        invariant
            i <= chars.len(),
            f == (|c: char| entity(c)),
            out@ == text::expanded(chars@.take(i as int), f),
        decreases chars.len() - i,
    {
        assert(chars@.take(i + 1).drop_last() =~= chars@.take(i as int));
        let c = chars[i];
        if c == '&' {
            out.append("&amp;");
        } else if c == '<' {
            out.append("&lt;");
        } else if c == '>' {
            out.append("&gt;");
        } else if c == '"' {
            out.append("&quot;");
        } else if c == '\'' {
            out.append("&#39;");
        } else {
            out.push(c);
        }
        assert(out@ =~= text::expanded(chars@.take(i + 1), f));
        i += 1;
    }
    assert(chars@.take(i as int) =~= chars@);
    out
}

/// Enough of the theme to read the page by, for the moment the theme is being
/// swapped underneath us. Omarchy's own defaults, so it is not jarring even
/// when it is wrong.
pub const FALLBACK_VARS: &'static str = ":root { --oma-veil: #1a1b26; --oma-fg: #c0caf5; \
     --oma-muted: #565f89; --oma-accent: #7aa2f7; --oma-color-red: #f7768e; \
     --oma-space: 8px; --oma-space-2: 16px; --oma-font-small: 0.85rem; \
     --oma-font-mono: monospace; --oma-control-normal-border: #414868; }";

/// Deliberately the same stylesheet as the certificate page's. A crash, a
/// refused certificate and a host that does not resolve are the same kind of
/// event to whoever is looking at them, and they should not look like three
/// different browsers.
pub const CSS: &'static str = r#"
* { box-sizing: border-box; }
html, body { margin: 0; height: 100%; background: var(--oma-veil); color: var(--oma-fg);
  font-family: system-ui, sans-serif; }
main { height: 100%; display: flex; flex-direction: column; align-items: center;
  justify-content: center; gap: var(--oma-space); padding: var(--oma-space-2);
  max-width: 46rem; margin: 0 auto; text-align: center; }
.tag { margin: 0; text-transform: uppercase; letter-spacing: 0.16em;
  font-size: var(--oma-font-small); color: var(--oma-color-red); }
h1 { margin: 0; font-size: 2rem; font-weight: 600; color: var(--oma-fg);
  font-family: var(--oma-font-mono); word-break: break-all; }
.sub { margin: 0; color: var(--oma-fg); }
.why { margin: 0; color: var(--oma-muted); font-family: var(--oma-font-mono);
  font-size: var(--oma-font-small); word-break: break-word; }
.hint { margin: var(--oma-space) 0 0; color: var(--oma-fg); line-height: 1.6; }
code, kbd { font-family: var(--oma-font-mono); color: var(--oma-accent);
  border: 1px solid var(--oma-control-normal-border); padding: 0 6px; }
.uri { margin: var(--oma-space-2) 0 0; color: var(--oma-muted);
  font-family: var(--oma-font-mono); font-size: var(--oma-font-small);
  word-break: break-all; opacity: 0.7; }
"#;

// ---------------------------------------------------------------------------
// Laws
// ---------------------------------------------------------------------------

/// Whether a character could open or close a tag or an attribute.
pub open spec fn is_markup(c: char) -> bool {
    c == '<' || c == '>' || c == '"' || c == '\''
}

proof fn lemma_entity(c: char)
    ensures
        forall|i: int| 0 <= i < entity(c).len() ==> !is_markup(#[trigger] entity(c)[i]),
{
    reveal_strlit("&amp;");
    reveal_strlit("&lt;");
    reveal_strlit("&gt;");
    reveal_strlit("&quot;");
    reveal_strlit("&#39;");
    assert("&amp;"@ =~= seq!['&', 'a', 'm', 'p', ';']);
    assert("&lt;"@ =~= seq!['&', 'l', 't', ';']);
    assert("&gt;"@ =~= seq!['&', 'g', 't', ';']);
    assert("&quot;"@ =~= seq!['&', 'q', 'u', 'o', 't', ';']);
    assert("&#39;"@ =~= seq!['&', '#', '3', '9', ';']);
}

/// No text carries markup through escaping.
pub proof fn law_escaped_is_not_markup(text: Seq<char>)
    ensures
        forall|i: int| 0 <= i < escaped(text).len() ==> !is_markup(#[trigger] escaped(text)[i]),
    decreases text.len(),
{
    if text.len() > 0 {
        law_escaped_is_not_markup(text.drop_last());
        lemma_entity(text.last());
        let front = escaped(text.drop_last());
        let last = entity(text.last());
        assert(escaped(text) == front + last);
        assert forall|i: int| 0 <= i < escaped(text).len() implies !is_markup(
            #[trigger] escaped(text)[i],
        ) by {
            if i < front.len() {
                assert(escaped(text)[i] == front[i]);
            } else {
                assert(escaped(text)[i] == last[i - front.len()]);
            }
        }
    }
}

/// A text with nothing in it to escape is left alone.
pub proof fn law_plain_text_is_left_alone(text: Seq<char>)
    requires
        table::free_of(text, '&'),
        forall|i: int| 0 <= i < text.len() ==> !is_markup(#[trigger] text[i]),
    ensures
        escaped(text) == text,
    decreases text.len(),
{
    if text.len() > 0 {
        let front = text.drop_last();
        assert forall|i: int| 0 <= i < front.len() implies !is_markup(#[trigger] front[i]) by {
            assert(front[i] == text[i]);
        }
        law_plain_text_is_left_alone(front);
        assert(!is_markup(text[text.len() - 1]));
        assert(front + seq![text.last()] =~= text);
    }
}

/// What a reader of markup takes a text to mean.
pub open spec fn meant(markup: Seq<char>) -> Seq<char>
    decreases markup.len(),
{
    if markup.len() == 0 {
        Seq::empty()
    } else if markup[0] != '&' {
        seq![markup[0]] + meant(markup.skip(1))
    } else if markup.len() >= 5 && markup.take(5) == seq!['&', 'a', 'm', 'p', ';'] {
        seq!['&'] + meant(markup.skip(5))
    } else if markup.len() >= 4 && markup.take(4) == seq!['&', 'l', 't', ';'] {
        seq!['<'] + meant(markup.skip(4))
    } else if markup.len() >= 4 && markup.take(4) == seq!['&', 'g', 't', ';'] {
        seq!['>'] + meant(markup.skip(4))
    } else if markup.len() >= 6 && markup.take(6) == seq!['&', 'q', 'u', 'o', 't', ';'] {
        seq!['"'] + meant(markup.skip(6))
    } else if markup.len() >= 5 && markup.take(5) == seq!['&', '#', '3', '9', ';'] {
        seq!['\''] + meant(markup.skip(5))
    } else {
        seq!['&'] + meant(markup.skip(1))
    }
}

proof fn lemma_escaped_front(text: Seq<char>)
    requires
        text.len() > 0,
    ensures
        escaped(text) == entity(text[0]) + escaped(text.skip(1)),
    decreases text.len(),
{
    let rest = text.skip(1);
    if text.len() == 1 {
        assert(text.drop_last() =~= Seq::empty());
        assert(rest =~= Seq::empty());
        assert(escaped(text.drop_last()) =~= Seq::empty());
        assert(escaped(text) =~= entity(text[0]) + escaped(rest));
    } else {
        lemma_escaped_front(text.drop_last());
        assert(text.drop_last().skip(1) =~= rest.drop_last());
        assert(escaped(text) == escaped(text.drop_last()) + entity(text.last()));
        assert(escaped(rest) == escaped(rest.drop_last()) + entity(rest.last()));
        assert(escaped(text) =~= entity(text[0]) + escaped(rest));
    }
}

proof fn lemma_entity_meant(c: char, rest: Seq<char>)
    ensures
        meant(entity(c) + rest) == seq![c] + meant(rest),
{
    reveal_strlit("&amp;");
    reveal_strlit("&lt;");
    reveal_strlit("&gt;");
    reveal_strlit("&quot;");
    reveal_strlit("&#39;");
    assert("&amp;"@ =~= seq!['&', 'a', 'm', 'p', ';']);
    assert("&lt;"@ =~= seq!['&', 'l', 't', ';']);
    assert("&gt;"@ =~= seq!['&', 'g', 't', ';']);
    assert("&quot;"@ =~= seq!['&', 'q', 'u', 'o', 't', ';']);
    assert("&#39;"@ =~= seq!['&', '#', '3', '9', ';']);
    let whole = entity(c) + rest;
    let n = entity(c).len() as int;
    assert(whole.take(n) =~= entity(c));
    assert(whole.skip(n) =~= rest);
    if c == '&' {
    } else if c == '<' {
        if whole.len() >= 5 {
            assert(whole.take(5)[1] == 'l');
        }
    } else if c == '>' {
        if whole.len() >= 5 {
            assert(whole.take(5)[1] == 'g');
        }
        assert(whole.take(4)[1] == 'g');
    } else if c == '"' {
        assert(whole.take(5)[1] == 'q');
        assert(whole.take(4)[1] == 'q');
    } else if c == '\'' {
        assert(whole[1] == '#');
        assert(whole.take(5)[1] == '#');
        assert(whole.take(4)[1] == '#');
        if whole.len() >= 6 {
            assert(whole.take(6)[1] == '#');
        }
    }
}

/// A text written as markup is read as the text it was.
pub proof fn law_markup_means_the_text(text: Seq<char>)
    ensures
        meant(escaped(text)) == text,
    decreases text.len(),
{
    if text.len() > 0 {
        let rest = text.skip(1);
        lemma_escaped_front(text);
        law_markup_means_the_text(rest);
        lemma_entity_meant(text[0], escaped(rest));
        assert(seq![text[0]] + rest =~= text);
    } else {
        assert(meant(escaped(text)) =~= text);
    }
}

} // verus!
