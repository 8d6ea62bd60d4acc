//! Numbers as they are written: decimal digits out, decimal digits in.

use vstd::prelude::*;

use crate::text::chars_of;

verus! {

/// The character for a digit.
pub open spec fn digit(d: nat) -> char {
    (48 + d) as char
}

/// Whether a character is one of the ten ASCII digits.
pub open spec fn is_digit(c: char) -> bool {
    '0' <= c <= '9'
}

/// A number in decimal, without leading zeros.
pub open spec fn decimal(n: nat) -> Seq<char>
    decreases n,
{
    if n < 10 {
        seq![digit(n)]
    } else {
        decimal(n / 10).push(digit(n % 10))
    }
}

/// A number in decimal, padded with zeros to at least `width` digits.
pub open spec fn padded(n: nat, width: nat) -> Seq<char> {
    let digits = decimal(n);
    if digits.len() >= width {
        digits
    } else {
        Seq::new((width - digits.len()) as nat, |i: int| '0') + digits
    }
}

/// The number a run of digits stands for.
pub open spec fn value(s: Seq<char>) -> nat
    decreases s.len(),
{
    if s.len() == 0 {
        0
    } else {
        value(s.drop_last()) * 10 + (s.last() as nat - 48) as nat
    }
}

/// Whether a text is digits and nothing else, and at least one of them.
pub open spec fn all_digits(s: Seq<char>) -> bool {
    s.len() > 0 && forall|i: int| 0 <= i < s.len() ==> is_digit(#[trigger] s[i])
}

/// The digits of an unsigned number: one plus sign may stand before them.
pub open spec fn unsigned_body(s: Seq<char>) -> Seq<char> {
    if s.len() > 0 && s[0] == '+' {
        s.skip(1)
    } else {
        s
    }
}

/// What a text reads as, if it is a whole number no greater than `max`.
pub open spec fn unsigned(s: Seq<char>, max: nat) -> Option<nat> {
    let body = unsigned_body(s);
    if all_digits(body) && value(body) <= max {
        Some(value(body))
    } else {
        None
    }
}

/// The first digits of a number stand for no more than all of them.
pub proof fn lemma_value_grows(s: Seq<char>, i: int)
    requires
        0 <= i <= s.len(),
    ensures
        value(s.take(i)) <= value(s),
    decreases s.len() - i,
{
    if i < s.len() {
        lemma_value_grows(s, i + 1);
        assert(s.take(i + 1).drop_last() =~= s.take(i));
    } else {
        assert(s.take(i) =~= s);
    }
}

/// A number written out is digits, and reads back as itself.
pub proof fn lemma_decimal(n: nat)
    ensures
        all_digits(decimal(n)),
        value(decimal(n)) == n,
    decreases n,
{
    if n < 10 {
        let d = digit(n);
        assert(d as nat == 48 + n);
        assert(decimal(n).drop_last() =~= Seq::empty());
        assert(value(Seq::<char>::empty()) == 0);
    } else {
        lemma_decimal(n / 10);
        let front = decimal(n / 10);
        let d = digit(n % 10);
        assert(d as nat == 48 + n % 10);
        assert(front.push(d).drop_last() =~= front);
    }
}

/// A hexadecimal digit, the letters small.
pub open spec fn hex_digit(d: nat) -> char {
    if d < 10 {
        (48 + d) as char
    } else {
        (87 + d) as char
    }
}

/// A number in hexadecimal, without leading zeros.
pub open spec fn hexadecimal(n: nat) -> Seq<char>
    decreases n,
{
    if n < 16 {
        seq![hex_digit(n)]
    } else {
        hexadecimal(n / 16).push(hex_digit(n % 16))
    }
}

/// A number in hexadecimal.
pub fn to_hex(n: u64) -> (r: String)
    ensures
        r@ == hexadecimal(n as nat),
    decreases n,
{
    let d: u8 = (n % 16) as u8;
    let last: char = if d < 10 {
        (48 + d) as char
    } else {
        (87 + d) as char
    };
    assert(last == hex_digit((n % 16) as nat));
    if n < 16 {
        let mut out = String::new();
        out.push(last);
        assert(out@ =~= seq![last]);
        out
    } else {
        let mut out = to_hex(n / 16);
        out.push(last);
        out
    }
}

/// What a run of hexadecimal digits stands for.
pub open spec fn hex_value(s: Seq<char>) -> nat
    decreases s.len(),
{
    if s.len() == 0 {
        0
    } else {
        let c = s.last() as nat;
        hex_value(s.drop_last()) * 16 + (if c >= 97 {
            (c - 87) as nat
        } else {
            (c - 48) as nat
        })
    }
}

/// A number written in hexadecimal reads back as itself, so no two numbers are
/// written alike.
pub proof fn lemma_hexadecimal(n: nat)
    ensures
        hex_value(hexadecimal(n)) == n,
        forall|i: int| 0 <= i < hexadecimal(n).len() ==> #[trigger] hexadecimal(n)[i] != '-',
    decreases n,
{
    let d = hex_digit(n % 16);
    assert(d as nat == if n % 16 < 10 {
        (48 + n % 16) as nat
    } else {
        (87 + n % 16) as nat
    });
    assert(d != '-');
    if n < 16 {
        assert(hexadecimal(n).drop_last() =~= Seq::empty());
        assert(hex_value(Seq::<char>::empty()) == 0);
    } else {
        lemma_hexadecimal(n / 16);
        assert(hexadecimal(n / 16).push(d).drop_last() =~= hexadecimal(n / 16));
    }
}

/// Writing a number and reading it back gives the number.
pub proof fn law_decimal_reads_back(n: nat, max: nat)
    requires
        n <= max,
    ensures
        unsigned(decimal(n), max) == Some(n),
{
    lemma_decimal(n);
    assert(is_digit(decimal(n)[0]));
}

/// A number in decimal.
pub fn to_decimal(n: u64) -> (r: String)
    ensures
        r@ == decimal(n as nat),
    decreases n,
{
    let mut out = if n < 10 {
        String::new()
    } else {
        to_decimal(n / 10)
    };
    let d: u8 = (n % 10) as u8;
    let c = (48 + d) as char;
    out.push(c);
    assert(out@ =~= decimal(n as nat));
    out
}

/// A number in decimal, with zeros in front up to `width` digits.
pub fn to_padded(n: u64, width: usize) -> (r: String)
    ensures
        r@ == padded(n as nat, width as nat),
{
    let digits = to_decimal(n);
    let written = chars_of(digits.as_str());
    let mut out = String::new();
    let mut have: usize = written.len();
    while have < width
        invariant
            written@.len() <= have,
            have <= width || have == written@.len(),
            out@ == Seq::new((have - written@.len()) as nat, |i: int| '0'),
        decreases width - have,
    {
        out.push('0');
        have += 1;
        assert(out@ =~= Seq::new((have - written@.len()) as nat, |i: int| '0'));
    }
    out.append(digits.as_str());
    assert(out@ =~= padded(n as nat, width as nat));
    out
}

/// Read a whole number no greater than `max`.
fn read_unsigned(s: &str, max: u64) -> (r: Option<u64>)
    ensures
        match r {
            Some(n) => unsigned(s@, max as nat) == Some(n as nat),
            None => unsigned(s@, max as nat) is None,
        },
{
    let whole = chars_of(s);
    let from: usize = if whole.len() > 0 && whole[0] == '+' {
        1
    } else {
        0
    };
    let ghost body = unsigned_body(s@);
    assert(body =~= whole@.skip(from as int));
    if from == whole.len() {
        return None;
    }
    let mut n: u64 = 0;
    let mut i: usize = from;
    assert(body.take(0) =~= Seq::empty());
    while i < whole.len()
        invariant
            from <= i <= whole.len(),
            body == whole@.skip(from as int),
            n <= max,
            n == value(body.take(i - from)),
            forall|j: int| 0 <= j < i - from ==> is_digit(#[trigger] body[j]),
            body == unsigned_body(s@),
        decreases whole.len() - i,
    {
        let c = whole[i];
        assert(c == body[i - from]);
        if c < '0' || c > '9' {
            return None;
        }
        let d: u64 = (c as u64) - 48;
        proof {
            assert(body.take(i - from + 1).drop_last() =~= body.take(i - from));
            lemma_value_grows(body, i - from + 1);
        }
        if n > (u64::MAX - d) / 10 || n * 10 + d > max {
            return None;
        }
        n = n * 10 + d;
        i += 1;
    }
    assert(body.take(i - from) =~= body);
    Some(n)
}

pub fn parse_u64(s: &str) -> (r: Option<u64>)
    ensures
        match r {
            Some(n) => unsigned(s@, u64::MAX as nat) == Some(n as nat),
            None => unsigned(s@, u64::MAX as nat) is None,
        },
{
    read_unsigned(s, u64::MAX)
}

pub fn parse_u32(s: &str) -> (r: Option<u32>)
    ensures
        match r {
            Some(n) => unsigned(s@, u32::MAX as nat) == Some(n as nat),
            None => unsigned(s@, u32::MAX as nat) is None,
        },
{
    match read_unsigned(s, u32::MAX as u64) {
        Some(n) => Some(n as u32),
        None => None,
    }
}

/// What a text reads as, if it is a whole number from `min` to `max`: a sign may
/// stand before the digits.
pub open spec fn signed(s: Seq<char>, min: int, max: int) -> Option<int> {
    let negative = s.len() > 0 && s[0] == '-';
    let body = if negative {
        s.skip(1)
    } else {
        unsigned_body(s)
    };
    let n = if negative {
        -(value(body) as int)
    } else {
        value(body) as int
    };
    if all_digits(body) && min <= n <= max {
        Some(n)
    } else {
        None
    }
}

pub fn parse_i64(s: &str) -> (r: Option<i64>)
    ensures
        match r {
            Some(n) => signed(s@, i64::MIN as int, i64::MAX as int) == Some(n as int),
            None => signed(s@, i64::MIN as int, i64::MAX as int) is None,
        },
{
    let whole = chars_of(s);
    if whole.len() > 0 && whole[0] == '-' {
        let body = crate::text::slice_of(&whole, 1, whole.len());
        assert(body@ =~= s@.skip(1));
        let digits = chars_of(body.as_str());
        if digits.len() > 0 && digits[0] == '+' {
            assert(!is_digit(body@[0]));
            return None;
        }
        assert(unsigned_body(body@) =~= body@);
        match read_unsigned(body.as_str(), 9_223_372_036_854_775_808) {
            Some(n) => if n == 9_223_372_036_854_775_808 {
                Some(i64::MIN)
            } else {
                Some(-(n as i64))
            },
            None => None,
        }
    } else {
        match read_unsigned(s, 9_223_372_036_854_775_807) {
            Some(n) => Some(n as i64),
            None => None,
        }
    }
}

// ---------------------------------------------------------------------------
// Laws
// ---------------------------------------------------------------------------

proof fn lemma_zeros_are_nothing(n: nat, digits: Seq<char>)
    ensures
        value(Seq::new(n, |i: int| '0') + digits) == value(digits),
    decreases n + digits.len(),
{
    let zeros = Seq::new(n, |i: int| '0');
    let whole = zeros + digits;
    if digits.len() > 0 {
        lemma_zeros_are_nothing(n, digits.drop_last());
        assert(whole.drop_last() =~= zeros + digits.drop_last());
        assert(whole.last() == digits.last());
    } else if n > 0 {
        lemma_zeros_are_nothing((n - 1) as nat, digits);
        assert(whole.drop_last() =~= Seq::new((n - 1) as nat, |i: int| '0') + digits);
        assert(whole.last() == '0');
    } else {
        assert(whole =~= digits);
    }
}

/// A padded number is the number, as wide as was asked for where it fits and no wider
/// than it is where it does not.
pub proof fn law_padding_keeps_the_number(n: nat, width: nat)
    ensures
        value(padded(n, width)) == n,
        all_digits(padded(n, width)),
        decimal(n).len() <= width ==> padded(n, width).len() == width,
        decimal(n).len() >= width ==> padded(n, width) == decimal(n),
{
    let digits = decimal(n);
    lemma_decimal(n);
    if digits.len() < width {
        let missing = (width - digits.len()) as nat;
        lemma_zeros_are_nothing(missing, digits);
        let whole = padded(n, width);
        assert forall|i: int| 0 <= i < whole.len() implies is_digit(#[trigger] whole[i]) by {
            if i >= missing {
                assert(whole[i] == digits[i - missing]);
            }
        }
    }
}

} // verus!
