//! What the `url` crate says of an address.
//!
//! Reading a URL is the web platform's own business and takes a book to state.
//! Here each question the browser asks about one has a name, and everything
//! that is decided from the answer is decided elsewhere.

use vstd::prelude::*;

verus! {

/// The origin of an address: whether it is a scheme, host and port, and how it
/// is written. `None` for a text that is not a URL.
pub uninterp spec fn origin_text(url: Seq<char>) -> Option<(bool, Seq<char>)>;

/// The host of an address, if it has one. `None` for a text that is not a URL.
pub uninterp spec fn host_text(url: Seq<char>) -> Option<Option<Seq<char>>>;

/// What follows the last slash of an address's path, if its path starts with
/// one. `None` for a text that is not a URL.
pub uninterp spec fn last_segment_text(url: Seq<char>) -> Option<Option<Seq<char>>>;

/// Calls `url::Url::parse`, and on what it gives `Url::origin`,
/// `Origin::is_tuple` and `Origin::ascii_serialization`. All of them depend on
/// the text alone, so the answer is called `origin_text` of it.
#[verifier::external_body]
pub(crate) fn origin(url: &str) -> (r: Option<(bool, String)>)
    ensures
        match r {
            Some((tuple, text)) => origin_text(url@) == Some((tuple, text@)),
            None => origin_text(url@) is None,
        },
{
    let origin = url::Url::parse(url).ok()?.origin();
    Some((origin.is_tuple(), origin.ascii_serialization()))
}

/// Calls `url::Url::parse`, and on what it gives `Url::host_str`. Both depend on
/// the text alone, so the answer is called `host_text` of it.
#[verifier::external_body]
pub(crate) fn host(url: &str) -> (r: Option<Option<String>>)
    ensures
        match r {
            Some(Some(host)) => host_text(url@) == Some(Some(host@)),
            Some(None) => host_text(url@) == Some(None::<Seq<char>>),
            None => host_text(url@) is None,
        },
{
    let parsed = url::Url::parse(url).ok()?;
    Some(parsed.host_str().map(str::to_string))
}

/// Calls `url::Url::parse`, and on what it gives `Url::path_segments`, whose
/// last item it takes. All of them depend on the text alone, so the answer is
/// called `last_segment_text` of it.
#[verifier::external_body]
pub(crate) fn last_segment(url: &str) -> (r: Option<Option<String>>)
    ensures
        match r {
            Some(Some(segment)) => last_segment_text(url@) == Some(Some(segment@)),
            Some(None) => last_segment_text(url@) == Some(None::<Seq<char>>),
            None => last_segment_text(url@) is None,
        },
{
    let parsed = url::Url::parse(url).ok()?;
    Some(parsed.path_segments().and_then(|mut s| s.next_back()).map(str::to_string))
}

/// Where a relative address leads from another. `None` where the other is not a
/// URL, or nothing can be relative to it.
pub uninterp spec fn joined_text(base: Seq<char>, rest: Seq<char>) -> Option<Seq<char>>;

/// Calls `url::Url::parse`, and on what it gives `Url::join`, whose result it
/// writes out. All of them depend on the two texts alone, so the answer is called
/// `joined_text` of them.
#[verifier::external_body]
pub(crate) fn join(base: &str, rest: &str) -> (r: Option<String>)
    ensures
        match r {
            Some(url) => joined_text(base@, rest@) == Some(url@),
            None => joined_text(base@, rest@) is None,
        },
{
    let joined = url::Url::parse(base).ok()?.join(rest).ok()?;
    Some(joined.to_string())
}

} // verus!
