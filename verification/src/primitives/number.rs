//! Numbers in decimal notation, as they stand in file names and settings.

use vstd::prelude::*;
use vstd::string::StringExecFns;
use crate::primitives::text;

verus! {

/// Whether a character is a decimal digit.
pub open spec fn is_digit(c: char) -> bool {
    '0' <= c <= '9'
}

/// Whether a text consists of decimal digits.
pub open spec fn is_digits(s: Seq<char>) -> bool {
    forall|i: int| 0 <= i < s.len() ==> is_digit(#[trigger] s[i])
}

/// The number that decimal digits stand for.
pub open spec fn digits_value(s: Seq<char>) -> nat
    decreases s.len(),
{
    if s.len() == 0 {
        0
    } else {
        10 * digits_value(s.drop_last()) + ((s.last() as int - 0x30) as nat)
    }
}

/// The number that a text stands for: one or more digits, which a plus sign may
/// precede, and at most `max`.
pub open spec fn parsed_unsigned(s: Seq<char>, max: nat) -> Option<nat> {
    let digits = if s.len() > 0 && s[0] == '+' {
        s.skip(1)
    } else {
        s
    };
    if digits.len() > 0 && is_digits(digits) && digits_value(digits) <= max {
        Some(digits_value(digits))
    } else {
        None
    }
}

/// The signed number that a text stands for: one or more digits, which a sign
/// may precede, within 64 bits.
pub open spec fn parsed_signed(s: Seq<char>) -> Option<int> {
    if s.len() > 0 && s[0] == '-' {
        let digits = s.skip(1);
        if digits.len() > 0 && is_digits(digits) && digits_value(digits) <= 0x8000_0000_0000_0000 {
            Some(-(digits_value(digits) as int))
        } else {
            None
        }
    } else {
        match parsed_unsigned(s, i64::MAX as nat) {
            Some(n) => Some(n as int),
            None => None,
        }
    }
}

proof fn lemma_prefix_value(s: Seq<char>, k: int)
    requires
        0 <= k <= s.len(),
        is_digits(s),
    ensures
        digits_value(s.take(k)) <= digits_value(s),
    decreases s.len(),
{
    if k == s.len() {
        assert(s.take(k) =~= s);
    } else {
        let t = s.drop_last();
        assert(is_digits(t));
        lemma_prefix_value(t, k);
        assert(t.take(k) =~= s.take(k));
        assert(is_digit(s.last()));
        assert(10 * digits_value(t) >= digits_value(t)) by (nonlinear_arith);
    }
}

fn parse_digits(s: &str, from: usize) -> (r: Option<u64>)
    requires
        from <= s@.len(),
    ensures
        match r {
            Some(n) => s@.skip(from as int).len() > 0 && is_digits(s@.skip(from as int))
                && digits_value(s@.skip(from as int)) == n,
            None => s@.skip(from as int).len() == 0 || !is_digits(s@.skip(from as int))
                || digits_value(s@.skip(from as int)) > u64::MAX,
        },
{
    let n: usize = s.unicode_len();
    let ghost digits = s@.skip(from as int);
    if from >= n {
        return None;
    }
    let mut i: usize = from;
    let mut value: u64 = 0;
    assert(digits.take(0) =~= Seq::<char>::empty());
    while i < n
        invariant
            from <= i <= n == s@.len(),
            from < n,
            digits == s@.skip(from as int),
            is_digits(digits.take(i - from)),
            digits_value(digits.take(i - from)) == value,
        decreases n - i,
    {
        let c = s.get_char(i);
        assert(c == digits[i - from]);
        let code: u32 = c as u32;
        if code < 0x30 || code > 0x39 {
            assert(!is_digit(digits[i - from]));
            return None;
        }
        let d: u64 = (code - 0x30) as u64;
        let ghost next = digits.take(i + 1 - from);
        proof {
            assert(next.drop_last() =~= digits.take(i - from));
            assert(next.last() == c);
            assert forall|k: int| 0 <= k < next.len() implies is_digit(#[trigger] next[k]) by {
                if k < i - from {
                    assert(digits.take(i - from)[k] == next[k]);
                }
            }
            assert(digits_value(next) == 10 * value + d);
        }
        if value > 1844674407370955161 || (value == 1844674407370955161 && d > 5) {
            proof {
                if is_digits(digits) {
                    lemma_prefix_value(digits, i + 1 - from);
                }
            }
            return None;
        }
        value = value * 10 + d;
        i += 1;
    }
    assert(digits.take(n - from) =~= digits);
    Some(value)
}

/// The unsigned number of 64 bits that a text stands for.
pub fn parse_u64(s: &str) -> (r: Option<u64>)
    ensures
        match r {
            Some(n) => parsed_unsigned(s@, u64::MAX as nat) == Some(n as nat),
            None => parsed_unsigned(s@, u64::MAX as nat) is None,
        },
{
    assert(s@.skip(0) =~= s@);
    if s.unicode_len() > 0 && s.get_char(0) == '+' {
        parse_digits(s, 1)
    } else {
        parse_digits(s, 0)
    }
}

/// The signed number of 64 bits that a text stands for.
pub fn parse_i64(s: &str) -> (r: Option<i64>)
    ensures
        match r {
            Some(n) => parsed_signed(s@) == Some(n as int),
            None => parsed_signed(s@) is None,
        },
{
    if s.unicode_len() > 0 && s.get_char(0) == '-' {
        match parse_digits(s, 1) {
            Some(n) => {
                if n == 0x8000_0000_0000_0000 {
                    Some(i64::MIN)
                } else if n < 0x8000_0000_0000_0000 {
                    Some(-(n as i64))
                } else {
                    None
                }
            },
            None => None,
        }
    } else {
        match parse_u64(s) {
            Some(n) => {
                if n <= 0x7fff_ffff_ffff_ffff {
                    Some(n as i64)
                } else {
                    None
                }
            },
            None => None,
        }
    }
}

/// Decimal notation stands for the number that it was made from.
pub proof fn lemma_decimal_value(n: nat)
    ensures
        is_digits(text::decimal(n)),
        digits_value(text::decimal(n)) == n,
        text::decimal(n).len() > 0,
    decreases n,
{
    let s = text::decimal(n);
    if n < 10 {
        assert(s.drop_last() =~= Seq::<char>::empty());
        assert(digits_value(s.drop_last()) == 0);
    } else {
        lemma_decimal_value(n / 10);
        assert(s.drop_last() =~= text::decimal(n / 10));
        assert forall|i: int| 0 <= i < s.len() implies is_digit(#[trigger] s[i]) by {
            if i < s.len() - 1 {
                assert(s[i] == text::decimal(n / 10)[i]);
            }
        }
    }
}

/// A run of zeros.
pub open spec fn zeros(n: nat) -> Seq<char> {
    Seq::new(n, |i: int| '0')
}

/// The decimal notation of a number, with zeros in front up to 20 digits.
pub open spec fn padded(n: nat) -> Seq<char> {
    let d = text::decimal(n);
    if d.len() >= 20 {
        d
    } else {
        zeros((20 - d.len()) as nat) + d
    }
}

/// The decimal notation of a number, with zeros in front up to 20 digits.
pub fn padded_text(n: u64) -> (r: String)
    ensures
        r@ == padded(n as nat),
{
    let digits = text::decimal_text(n);
    let len: usize = digits.as_str().unicode_len();
    let mut r = String::new();
    let mut i: usize = len;
    assert(r@ =~= zeros(0));
    proof {
        reveal_strlit("0");
    }
    while i < 20
        invariant
            "0"@.len() == 1,
            "0"@[0] == '0',
            len <= i,
            i <= 20 || i == len,
            r@ == zeros((i - len) as nat),
        decreases 20 - i,
    {
        r.append("0");
        assert(r@ =~= zeros((i + 1 - len) as nat));
        i += 1;
    }
    r.append(digits.as_str());
    assert(r@ =~= padded(n as nat));
    r
}

proof fn lemma_zeros_value(k: nat, d: Seq<char>)
    requires
        is_digits(d),
    ensures
        is_digits(zeros(k) + d),
        digits_value(zeros(k) + d) == digits_value(d),
    decreases d.len(), k,
{
    let s = zeros(k) + d;
    assert forall|i: int| 0 <= i < s.len() implies is_digit(#[trigger] s[i]) by {
        if i >= k {
            assert(s[i] == d[i - k]);
        }
    }
    if d.len() == 0 {
        if k > 0 {
            lemma_zeros_value((k - 1) as nat, d);
            assert(s.drop_last() =~= zeros((k - 1) as nat) + d);
        }
    } else {
        let rest = d.drop_last();
        assert(is_digits(rest));
        lemma_zeros_value(k, rest);
        assert(s.drop_last() =~= zeros(k) + rest);
        assert(s.last() == d.last());
    }
}

/// Padded notation is read back as the number that it was made from.
pub proof fn lemma_padded_parses(n: nat, max: nat)
    requires
        n <= max,
    ensures
        parsed_unsigned(padded(n), max) == Some(n),
        padded(n).len() > 0,
{
    let d = text::decimal(n);
    lemma_decimal_value(n);
    if d.len() < 20 {
        lemma_zeros_value((20 - d.len()) as nat, d);
    }
    assert(is_digit(padded(n)[0]));
}

/// The signed notation is read back as the number that it was made from.
pub proof fn lemma_signed_parses(n: i64)
    ensures
        parsed_signed(text::signed_decimal(n as int)) == Some(n as int),
{
    let s = text::signed_decimal(n as int);
    if n < 0 {
        let d = text::decimal((-(n as int)) as nat);
        lemma_decimal_value((-(n as int)) as nat);
        assert(s.skip(1) =~= d);
    } else {
        lemma_decimal_value(n as nat);
        assert(is_digit(s[0]));
    }
}

/// What holds anything but digits, behind a plus sign that may precede them, is
/// no number, and nothing is read beyond the largest.
pub proof fn law_not_a_number(s: Seq<char>, max: nat, i: int)
    requires
        0 <= i < s.len(),
        !is_digit(s[i]),
        i > 0 || s[0] != '+',
    ensures
        parsed_unsigned(s, max) is None,
{
    if s[0] == '+' {
        assert(s.skip(1)[i - 1] == s[i]);
    }
}

/// A number that is written is read back up to the largest, and refused beyond
/// it; a plus sign before it does not matter.
pub proof fn law_number_read(n: nat, max: nat)
    ensures
        parsed_unsigned(text::decimal(n), max) == if n <= max {
            Some(n)
        } else {
            None
        },
        parsed_unsigned(seq!['+'] + text::decimal(n), max) == parsed_unsigned(
            text::decimal(n),
            max,
        ),
{
    lemma_decimal_value(n);
    let d = text::decimal(n);
    if d.len() > 0 {
        assert(is_digit(d[0]));
    }
    assert((seq!['+'] + d).skip(1) =~= d);
}

} // verus!
