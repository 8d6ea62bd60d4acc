//! Favicons, taken from the engine rather than fetched.

use vstd::prelude::*;

use crate::pathname;

verus! {

/// Where the favicon database lives, if it can live anywhere.
///
/// An incognito window's icons go where its history would have gone, which is to
/// say nowhere that survives the session.
pub open spec fn database_home(
    incognito: bool,
    runtime: Option<Seq<char>>,
    cache: Option<Seq<char>>,
    home: Option<Seq<char>>,
) -> Option<Seq<char>> {
    let root = if incognito {
        runtime
    } else {
        match (cache, home) {
            (Some(dir), _) => Some(dir),
            (None, Some(dir)) => Some(pathname::under(dir, ".cache"@)),
            (None, None) => None,
        }
    };
    match root {
        Some(dir) => Some(pathname::under(pathname::under(dir, "oma-browse"@), "favicons"@)),
        None => None,
    }
}

/// Where the favicon database lives, given what `XDG_RUNTIME_DIR`,
/// `XDG_CACHE_HOME` and `HOME` are set to. `None` turns favicons off: the engine
/// does not download icons it has nowhere to put.
pub fn database_dir(
    incognito: bool,
    runtime: Option<&str>,
    cache: Option<&str>,
    home: Option<&str>,
) -> (r: Option<String>)
    ensures
        ({
            let dir = database_home(
                incognito,
                match runtime {
                    Some(dir) => Some(dir@),
                    None => None,
                },
                match cache {
                    Some(dir) => Some(dir@),
                    None => None,
                },
                match home {
                    Some(dir) => Some(dir@),
                    None => None,
                },
            );
            match r {
                Some(path) => dir == Some(path@),
                None => dir is None,
            }
        }),
{
    let root = if incognito {
        match runtime {
            Some(dir) => dir.to_owned(),
            None => return None,
        }
    } else {
        match (cache, home) {
            (Some(dir), _) => dir.to_owned(),
            (None, Some(dir)) => pathname::join(dir, ".cache"),
            (None, None) => return None,
        }
    };
    Some(pathname::join(pathname::join(root.as_str(), "oma-browse").as_str(), "favicons"))
}

/// What to do with an icon of some size.
#[derive(Debug, Clone, Copy, PartialEq, Eq, Structural)]
pub enum Fit {
    /// There is nothing to show.
    Nothing,
    AsIs,
    /// Scale it to this many pixels each way.
    Scale(i32),
}

/// Fit an icon into the size the config asks for, which is never less than one
/// pixel.
pub fn fit(width: i32, height: i32, asked: i32) -> (r: Fit)
    ensures
        ({
            let max = if asked < 1 {
                1
            } else {
                asked
            };
            r == if width <= 0 || height <= 0 {
                Fit::Nothing
            } else if width > max || height > max {
                Fit::Scale(max)
            } else {
                Fit::AsIs
            }
        }),
{
    let max: i32 = if asked < 1 {
        1
    } else {
        asked
    };
    if width <= 0 || height <= 0 {
        Fit::Nothing
    } else if width > max || height > max {
        Fit::Scale(max)
    } else {
        Fit::AsIs
    }
}

/// The character that stands for six bits.
pub open spec fn sextet(n: nat) -> char {
    if n < 26 {
        (65 + n) as char
    } else if n < 52 {
        (71 + n) as char
    } else if n < 62 {
        (n - 4) as char
    } else if n == 62 {
        '+'
    } else {
        '/'
    }
}

/// A byte of a list, or zero past its end.
pub open spec fn byte_at(bytes: Seq<u8>, i: int) -> nat {
    if i < bytes.len() {
        bytes[i] as nat
    } else {
        0
    }
}

/// The four characters that stand for up to three bytes. Those that no byte
/// reaches are padding.
pub open spec fn quartet(bytes: Seq<u8>) -> Seq<char> {
    let a = byte_at(bytes, 0);
    let b = byte_at(bytes, 1);
    let c = byte_at(bytes, 2);
    seq![
        sextet(a / 4),
        sextet(a % 4 * 16 + b / 16),
        if bytes.len() < 2 {
            '='
        } else {
            sextet(b % 16 * 4 + c / 64)
        },
        if bytes.len() < 3 {
            '='
        } else {
            sextet(c % 64)
        },
    ]
}

/// Bytes as base64, three at a time.
pub open spec fn base64_text(bytes: Seq<u8>) -> Seq<char>
    decreases bytes.len(),
{
    if bytes.len() == 0 {
        Seq::empty()
    } else if bytes.len() <= 3 {
        quartet(bytes)
    } else {
        quartet(bytes.take(3)) + base64_text(bytes.skip(3))
    }
}

fn sextet_of(n: u32) -> (r: char)
    requires
        n < 64,
    ensures
        r == sextet(n as nat),
{
    let n: u8 = n as u8;
    if n < 26 {
        (65 + n) as char
    } else if n < 52 {
        (71 + n) as char
    } else if n < 62 {
        (n - 4) as char
    } else if n == 62 {
        '+'
    } else {
        '/'
    }
}

/// Standard base64, no line breaks.
pub fn base64(bytes: &[u8]) -> (r: String)
    ensures
        r@ == base64_text(bytes@),
{
    let mut out = String::new();
    let mut i: usize = 0;
    assert(bytes@.skip(0) =~= bytes@);
    assert(out@ + base64_text(bytes@) =~= base64_text(bytes@));
    while i < bytes.len()
        invariant
            i <= bytes.len(),
            out@ + base64_text(bytes@.skip(i as int)) == base64_text(bytes@),
        decreases bytes.len() - i,
    {
        let left: usize = bytes.len() - i;
        let ghost rest = bytes@.skip(i as int);
        let ghost before = out@;
        let ghost chunk = if rest.len() <= 3 {
            rest
        } else {
            rest.take(3)
        };
        let a: u32 = bytes[i] as u32;
        let b: u32 = if left > 1 {
            bytes[i + 1] as u32
        } else {
            0
        };
        let c: u32 = if left > 2 {
            bytes[i + 2] as u32
        } else {
            0
        };
        assert(a == byte_at(chunk, 0) && b == byte_at(chunk, 1) && c == byte_at(chunk, 2));
        out.push(sextet_of(a / 4));
        out.push(sextet_of(a % 4 * 16 + b / 16));
        out.push(
            if left > 1 {
                sextet_of(b % 16 * 4 + c / 64)
            } else {
                '='
            },
        );
        out.push(
            if left > 2 {
                sextet_of(c % 64)
            } else {
                '='
            },
        );
        assert(out@ =~= before + quartet(chunk));
        if left > 3 {
            i += 3;
            assert(rest.skip(3) =~= bytes@.skip(i as int));
            assert(before + (quartet(chunk) + base64_text(bytes@.skip(i as int))) =~= out@
                + base64_text(bytes@.skip(i as int)));
        } else {
            i = bytes.len();
            assert(bytes@.skip(i as int).len() == 0);
            assert(out@ + base64_text(bytes@.skip(i as int)) =~= out@);
        }
    }
    assert(out@ + base64_text(bytes@.skip(i as int)) =~= out@);
    out
}

/// A PNG image as an address that carries it.
pub fn data_url(png: &[u8]) -> (r: String)
    ensures
        r@ == "data:image/png;base64,"@ + base64_text(png@),
{
    let mut out = "data:image/png;base64,".to_owned();
    out.append(base64(png).as_str());
    out
}

// ---------------------------------------------------------------------------
// Laws
// ---------------------------------------------------------------------------

/// The six bits a character stands for.
pub open spec fn unsextet(c: char) -> nat {
    if 'A' <= c <= 'Z' {
        (c as nat - 65) as nat
    } else if 'a' <= c <= 'z' {
        (c as nat - 71) as nat
    } else if '0' <= c <= '9' {
        (c as nat + 4) as nat
    } else if c == '+' {
        62
    } else {
        63
    }
}

/// The bytes base64 stands for, four characters at a time.
pub open spec fn base64_bytes(text: Seq<char>) -> Seq<u8>
    decreases text.len(),
{
    if text.len() < 4 {
        Seq::empty()
    } else {
        let a = unsextet(text[0]);
        let b = unsextet(text[1]);
        let first = seq![(a * 4 + b / 16) as u8];
        let chunk = if text[2] == '=' {
            first
        } else {
            let c = unsextet(text[2]);
            let second = first.push((b % 16 * 16 + c / 4) as u8);
            if text[3] == '=' {
                second
            } else {
                second.push((c % 4 * 64 + unsextet(text[3])) as u8)
            }
        };
        chunk + base64_bytes(text.skip(4))
    }
}

proof fn lemma_sextet(n: nat)
    requires
        n < 64,
    ensures
        unsextet(sextet(n)) == n,
        sextet(n) != '=',
{
}

proof fn lemma_quartet(chunk: Seq<u8>, rest: Seq<char>)
    requires
        1 <= chunk.len() <= 3,
    ensures
        base64_bytes(quartet(chunk) + rest) == chunk + base64_bytes(rest),
{
    let a = byte_at(chunk, 0);
    let b = byte_at(chunk, 1);
    let c = byte_at(chunk, 2);
    lemma_sextet(a / 4);
    lemma_sextet(a % 4 * 16 + b / 16);
    lemma_sextet(b % 16 * 4 + c / 64);
    lemma_sextet(c % 64);
    let text = quartet(chunk) + rest;
    assert(text.skip(4) =~= rest);
    assert(text[0] == sextet(a / 4));
    assert(text[1] == sextet(a % 4 * 16 + b / 16));
    assert(a / 4 * 4 + (a % 4 * 16 + b / 16) / 16 == a);
    assert((a % 4 * 16 + b / 16) % 16 * 16 + (b % 16 * 4 + c / 64) / 4 == b);
    assert((b % 16 * 4 + c / 64) % 4 * 64 + c % 64 == c);
    if chunk.len() == 1 {
        assert(text[2] == '=');
        assert(chunk =~= seq![a as u8]);
    } else if chunk.len() == 2 {
        assert(text[2] == sextet(b % 16 * 4 + c / 64));
        assert(text[3] == '=');
        assert(chunk =~= seq![a as u8, b as u8]);
    } else {
        assert(text[2] == sextet(b % 16 * 4 + c / 64));
        assert(text[3] == sextet(c % 64));
        assert(chunk =~= seq![a as u8, b as u8, c as u8]);
    }
}

/// Base64 stands for the bytes it was made of.
pub proof fn law_base64_decodes(bytes: Seq<u8>)
    ensures
        base64_bytes(base64_text(bytes)) == bytes,
    decreases bytes.len(),
{
    if bytes.len() == 0 {
        assert(base64_bytes(base64_text(bytes)) =~= bytes);
    } else if bytes.len() <= 3 {
        let none = Seq::<char>::empty();
        assert(quartet(bytes) + none =~= quartet(bytes));
        lemma_quartet(bytes, none);
        assert(bytes + base64_bytes(none) =~= bytes);
    } else {
        law_base64_decodes(bytes.skip(3));
        lemma_quartet(bytes.take(3), base64_text(bytes.skip(3)));
        assert(bytes.take(3) + bytes.skip(3) =~= bytes);
    }
}

/// Base64 takes four characters for every three bytes begun.
pub proof fn law_base64_length(bytes: Seq<u8>)
    ensures
        base64_text(bytes).len() == (bytes.len() + 2) / 3 * 4,
    decreases bytes.len(),
{
    if bytes.len() > 3 {
        law_base64_length(bytes.skip(3));
    }
}

/// A private window's icons go where what lasts for the session goes, whatever lasts
/// longer is set to, and the others in the cache, whatever the session's place is. With
/// nowhere to go they go nowhere.
pub proof fn law_private_icons_do_not_last(
    runtime: Option<Seq<char>>,
    cache: Option<Seq<char>>,
    home: Option<Seq<char>>,
    dir: Seq<char>,
)
    ensures
        database_home(true, runtime, cache, home) == database_home(true, runtime, None, None),
        database_home(false, runtime, cache, home) == database_home(false, None, cache, home),
        database_home(true, None, cache, home) is None,
        database_home(false, runtime, None, None) is None,
        database_home(true, Some(dir), cache, home) == Some(
            pathname::under(pathname::under(dir, "oma-browse"@), "favicons"@),
        ),
        database_home(false, runtime, Some(dir), home) == Some(
            pathname::under(pathname::under(dir, "oma-browse"@), "favicons"@),
        ),
        database_home(false, runtime, None, Some(dir)) == database_home(
            false,
            runtime,
            Some(pathname::under(dir, ".cache"@)),
            home,
        ),
{
}

} // verus!
