//! Link hints: the page-side script, and the channel it opens tabs through.
//!
//! This module is the two ends the script cannot reach on its own: what it has
//! to know before it is injected, and "open this in a new tab".

use vstd::prelude::*;
use vstd::utf8;

use crate::text;

verus! {

/// Prefix of the URL the hint script navigates to when a link should open in a
/// new tab.
///
/// A page cannot call the control plane: it listens on `http://127.0.0.1` and
/// the page is nearly always `https`, so mixed-content blocking kills the
/// request before it is sent. A navigation, though, always reaches the
/// navigation handler, so the script asks for a URL that can never resolve, and
/// [`intercept`] answers it and cancels the navigation.
///
/// `.invalid` is reserved precisely so that it cannot be registered: if this
/// interception ever fails, the failure is a DNS error rather than a request to
/// somebody else's server.
pub const SENTINEL: &'static str = "http://oma-browse.invalid/newtab?url=";

/// What stands for [`SENTINEL`] in the script's source.
pub const PLACEHOLDER: &'static str = "__OMA_HINT_SENTINEL__";

/// The script, ready to inject, from its source.
pub fn script(source: &str) -> (r: String)
    ensures
        r@ == text::replaced(source@, PLACEHOLDER@, SENTINEL@),
{
    proof {
        reveal_strlit("__OMA_HINT_SENTINEL__");
    }
    text::replace(source, PLACEHOLDER, SENTINEL)
}

/// What to do with a navigation.
#[derive(Debug)]
pub enum Intercept {
    /// Let it go ahead.
    Proceed,
    /// Cancel it, and open this in a new tab behind the page being read.
    Open(String),
    /// Cancel it: what it asks for does not decode.
    Refuse,
}

/// Answer a navigation.
///
/// Everything that is not the sentinel proceeds untouched, so this is inert for
/// every real navigation the browser does.
pub fn intercept(raw: &str) -> (r: Intercept)
    ensures
        match text::without_prefix(raw@, SENTINEL@) {
            Some(encoded) => match decoded(encoded) {
                Some(target) => r matches Intercept::Open(to) && to@ == target,
                None => r is Refuse,
            },
            None => r is Proceed,
        },
{
    match text::strip_prefix(raw, SENTINEL) {
        Some(encoded) => match percent_decode(encoded.as_str()) {
            Some(target) => Intercept::Open(target),
            None => Intercept::Refuse,
        },
        None => Intercept::Proceed,
    }
}

/// What a byte is worth as a hexadecimal digit.
pub open spec fn hex_digit(b: u8) -> Option<u8> {
    if 48 <= b <= 57 {
        Some((b - 48) as u8)
    } else if 65 <= b <= 70 {
        Some((b - 55) as u8)
    } else if 97 <= b <= 102 {
        Some((b - 87) as u8)
    } else {
        None
    }
}

/// What two bytes are worth as a hexadecimal number. Both have to be digits.
pub open spec fn hex_pair(a: u8, b: u8) -> Option<u8> {
    match (hex_digit(a), hex_digit(b)) {
        (Some(high), Some(low)) => Some((high * 16 + low) as u8),
        _ => None,
    }
}

/// Bytes with every `%xx` as the byte it stands for.
pub open spec fn unescaped(bytes: Seq<u8>) -> Option<Seq<u8>>
    decreases bytes.len(),
{
    if bytes.len() == 0 {
        Some(Seq::empty())
    } else if bytes[0] != 37 {
        match unescaped(bytes.skip(1)) {
            Some(rest) => Some(seq![bytes[0]] + rest),
            None => None,
        }
    } else if bytes.len() < 3 {
        None
    } else {
        match (hex_pair(bytes[1], bytes[2]), unescaped(bytes.skip(3))) {
            (Some(byte), Some(rest)) => Some(seq![byte] + rest),
            _ => None,
        }
    }
}

/// What an escaped text stands for, if it is well formed and stands for
/// anything.
pub open spec fn decoded(s: Seq<char>) -> Option<Seq<char>> {
    match unescaped(utf8::encode_utf8(s)) {
        Some(bytes) => if bytes.len() > 0 && utf8::valid_utf8(bytes) {
            Some(utf8::decode_utf8(bytes))
        } else {
            None
        },
        None => None,
    }
}

/// Calls `String::from_utf8`. It gives the text the bytes encode, or an error
/// where they are not UTF-8.
#[verifier::external_body]
fn from_utf8(bytes: Vec<u8>) -> (r: Option<String>)
    ensures
        match r {
            Some(s) => utf8::valid_utf8(bytes@) && s@ == utf8::decode_utf8(bytes@),
            None => !utf8::valid_utf8(bytes@),
        },
{
    String::from_utf8(bytes).ok()
}

fn digit_of(b: u8) -> (r: Option<u8>)
    ensures
        r == hex_digit(b),
        r matches Some(d) ==> d < 16,
{
    if 48 <= b && b <= 57 {
        Some(b - 48)
    } else if 65 <= b && b <= 70 {
        Some(b - 55)
    } else if 97 <= b && b <= 102 {
        Some(b - 87)
    } else {
        None
    }
}

fn pair_of(a: u8, b: u8) -> (r: Option<u8>)
    ensures
        r == hex_pair(a, b),
{
    match (digit_of(a), digit_of(b)) {
        (Some(high), Some(low)) => Some(high * 16 + low),
        _ => None,
    }
}

/// What `unescaped` gives once the first part of it is known.
spec fn after(out: Seq<u8>, rest: Option<Seq<u8>>) -> Option<Seq<u8>> {
    match rest {
        Some(more) => Some(out + more),
        None => None,
    }
}

/// Percent-decoding, for the one caller that needs it.
///
/// A form-encoding pass would also turn `+` into a space, and a `+` in a path is
/// a `+`. This is the exact inverse of `encodeURIComponent`.
pub fn percent_decode(s: &str) -> (r: Option<String>)
    ensures
        match r {
            Some(text) => decoded(s@) == Some(text@),
            None => decoded(s@) is None,
        },
{
    let bytes = s.as_bytes();
    let mut out: Vec<u8> = Vec::new();
    let mut i: usize = 0;
    proof {
        assert(bytes@.skip(0) =~= bytes@);
        if let Some(all) = unescaped(bytes@) {
            assert(out@ + all =~= all);
        }
    }
    while i < bytes.len()
        invariant
            i <= bytes.len(),
            bytes@ == utf8::encode_utf8(s@),
            unescaped(bytes@) == after(out@, unescaped(bytes@.skip(i as int))),
        decreases bytes.len() - i,
    {
        let ghost rest = bytes@.skip(i as int);
        let ghost before = out@;
        if bytes[i] == 37 {
            if bytes.len() - i < 3 {
                return None;
            }
            assert(rest[1] == bytes@[i + 1] && rest[2] == bytes@[i + 2]);
            match pair_of(bytes[i + 1], bytes[i + 2]) {
                Some(byte) => {
                    out.push(byte);
                    i += 3;
                    proof {
                        assert(rest.skip(3) =~= bytes@.skip(i as int));
                        if let Some(more) = unescaped(bytes@.skip(i as int)) {
                            assert(before + (seq![byte] + more) =~= out@ + more);
                        }
                    }
                },
                None => {
                    return None;
                },
            }
        } else {
            out.push(bytes[i]);
            i += 1;
            proof {
                assert(rest.skip(1) =~= bytes@.skip(i as int));
                if let Some(more) = unescaped(bytes@.skip(i as int)) {
                    assert(before + (seq![rest[0]] + more) =~= out@ + more);
                }
            }
        }
    }
    proof {
        assert(bytes@.skip(i as int).len() == 0);
        assert(out@ + Seq::<u8>::empty() =~= out@);
    }
    if out.len() == 0 {
        return None;
    }
    from_utf8(out)
}

// ---------------------------------------------------------------------------
// Laws
// ---------------------------------------------------------------------------

/// The bytes `encodeURIComponent` leaves as they are: letters, digits and
/// `- _ . ! ~ * ' ( )`.
pub open spec fn is_plain(b: u8) -> bool {
    (48 <= b <= 57) || (65 <= b <= 90) || (97 <= b <= 122) || b == 45 || b == 95 || b == 46 || b
        == 33 || b == 126 || b == 42 || b == 39 || b == 40 || b == 41
}

/// A capital hexadecimal digit.
pub open spec fn hex_char(d: nat) -> char {
    if d < 10 {
        (48 + d) as char
    } else {
        (55 + d) as char
    }
}

/// What `encodeURIComponent` writes for a byte.
pub open spec fn byte_text(b: u8) -> Seq<char> {
    if is_plain(b) {
        seq![b as char]
    } else {
        seq!['%', hex_char(b as nat / 16), hex_char(b as nat % 16)]
    }
}

/// What `encodeURIComponent` writes for bytes.
pub open spec fn bytes_text(bytes: Seq<u8>) -> Seq<char>
    decreases bytes.len(),
{
    if bytes.len() == 0 {
        Seq::empty()
    } else {
        byte_text(bytes[0]) + bytes_text(bytes.skip(1))
    }
}

/// What `encodeURIComponent` makes of a text.
pub open spec fn encoded(s: Seq<char>) -> Seq<char> {
    bytes_text(utf8::encode_utf8(s))
}

proof fn lemma_bytes_text(bytes: Seq<u8>)
    ensures
        utf8::is_ascii_chars(bytes_text(bytes)),
        unescaped(Seq::new(bytes_text(bytes).len(), |i: int| bytes_text(bytes)[i] as u8)) == Some(
            bytes,
        ),
    decreases bytes.len(),
{
    let whole = bytes_text(bytes);
    let raw = Seq::new(whole.len(), |i: int| whole[i] as u8);
    if bytes.len() == 0 {
        assert(bytes =~= Seq::<u8>::empty());
        assert(raw.len() == 0);
    } else {
        let b = bytes[0];
        let rest = bytes.skip(1);
        lemma_bytes_text(rest);
        let tail = bytes_text(rest);
        let raw_tail = Seq::new(tail.len(), |i: int| tail[i] as u8);
        let head = byte_text(b);
        assert forall|i: int| 0 <= i < whole.len() implies (whole[i] as nat) < 128 by {
            if i < head.len() {
                assert(whole[i] == head[i]);
            } else {
                assert(whole[i] == tail[i - head.len()]);
            }
        }
        assert(seq![b] + rest =~= bytes);
        if is_plain(b) {
            assert(whole[0] == b as char);
            assert(raw[0] == b);
            assert(raw.skip(1) =~= raw_tail);
        } else {
            let h = b as nat / 16;
            let l = b as nat % 16;
            assert(raw[0] == 37);
            assert(whole[1] == hex_char(h) && whole[2] == hex_char(l));
            assert(hex_digit(raw[1]) == Some(h as u8));
            assert(hex_digit(raw[2]) == Some(l as u8));
            assert(h * 16 + l == b);
            assert(hex_pair(raw[1], raw[2]) == Some(b));
            assert(raw.skip(3) =~= raw_tail);
        }
    }
}

/// Decoding gives back what `encodeURIComponent` was given, as long as that was
/// not nothing.
pub proof fn law_decoding_inverts_encoding(s: Seq<char>)
    requires
        s.len() > 0,
    ensures
        decoded(encoded(s)) == Some(s),
{
    let bytes = utf8::encode_utf8(s);
    lemma_bytes_text(bytes);
    utf8::is_ascii_chars_encode_utf8(encoded(s));
    utf8::encode_utf8_valid_utf8(s);
    utf8::encode_utf8_decode_utf8(s);
    assert(utf8::encode_utf8(encoded(s)) =~= Seq::new(
        encoded(s).len(),
        |i: int| bytes_text(bytes)[i] as u8,
    ));
    if bytes.len() == 0 {
        assert(utf8::decode_utf8(bytes).len() == 0);
    }
}

/// An escape is the same in capitals and in small letters, stands for the byte its two
/// digits spell, and a byte that is no escape stands for itself.
pub proof fn law_escape_stands_for_a_byte(high: u8, low: u8, b: u8, rest: Seq<u8>)
    requires
        high < 16,
        low < 16,
        b != 37,
    ensures
        ({
            let capital = |d: u8| if d < 10 {
                (48 + d) as u8
            } else {
                (55 + d) as u8
            };
            let small = |d: u8| if d < 10 {
                (48 + d) as u8
            } else {
                (87 + d) as u8
            };
            let byte = (high * 16 + low) as u8;
            &&& hex_pair(capital(high), capital(low)) == Some(byte)
            &&& hex_pair(small(high), small(low)) == Some(byte)
            &&& hex_pair(small(high), capital(low)) == Some(byte)
        }),
        unescaped(seq![b] + rest) == match unescaped(rest) {
            Some(more) => Some(seq![b] + more),
            None => None,
        },
{
    assert((seq![b] + rest).skip(1) =~= rest);
}

/// What is decoded is never nothing, and is the text whose bytes the escapes spell.
pub proof fn law_decoded_is_what_was_spelled(s: Seq<char>)
    ensures
        decoded(s) matches Some(t) ==> t.len() > 0 && unescaped(utf8::encode_utf8(s)) == Some(
            utf8::encode_utf8(t),
        ),
{
    match unescaped(utf8::encode_utf8(s)) {
        Some(bytes) => {
            if decoded(s) is Some {
                utf8::decode_utf8_encode_utf8(bytes);
            }
        },
        None => {},
    }
}

} // verus!
