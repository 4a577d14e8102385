//! Text helpers.

use vstd::prelude::*;

verus! {

/// The code points with the Unicode property `White_Space`.
pub open spec fn white_space(c: char) -> bool {
    let u = c as u32;
    ||| 0x09 <= u <= 0x0d
    ||| u == 0x20
    ||| u == 0x85
    ||| u == 0xa0
    ||| u == 0x1680
    ||| 0x2000 <= u <= 0x200a
    ||| u == 0x2028
    ||| u == 0x2029
    ||| u == 0x202f
    ||| u == 0x205f
    ||| u == 0x3000
}

/// `s` without its leading white space.
pub open spec fn trim_start(s: Seq<char>) -> Seq<char>
    decreases s.len(),
{
    if s.len() > 0 && white_space(s[0]) {
        trim_start(s.drop_first())
    } else {
        s
    }
}

/// `s` without its trailing white space.
pub open spec fn trim_end(s: Seq<char>) -> Seq<char>
    decreases s.len(),
{
    if s.len() > 0 && white_space(s.last()) {
        trim_end(s.drop_last())
    } else {
        s
    }
}

/// `s` without leading and trailing white space.
pub open spec fn trimmed(s: Seq<char>) -> Seq<char> {
    trim_end(trim_start(s))
}

/// `char::is_whitespace`: whether the character has the Unicode property
/// `White_Space`.
pub assume_specification[ char::is_whitespace ](c: char) -> (r: bool)
    ensures
        r == white_space(c),
;

/// An ASCII lowercase letter in uppercase; any other character as it is.
pub open spec fn ascii_upper_char(c: char) -> char {
    if 'a' <= c <= 'z' {
        (c as u32 - 32) as char
    } else {
        c
    }
}

/// An ASCII uppercase letter in lowercase; any other character as it is.
pub open spec fn ascii_lower_char(c: char) -> char {
    if 'A' <= c <= 'Z' {
        (c as u32 + 32) as char
    } else {
        c
    }
}

/// `s` with its ASCII letters in uppercase.
pub open spec fn ascii_upper(s: Seq<char>) -> Seq<char> {
    s.map_values(|c: char| ascii_upper_char(c))
}

/// `s` with its ASCII letters in lowercase.
pub open spec fn ascii_lower(s: Seq<char>) -> Seq<char> {
    s.map_values(|c: char| ascii_lower_char(c))
}

/// `str::to_ascii_uppercase`: the letters `a` to `z` become `A` to `Z`, every
/// other character stays.
pub assume_specification[ str::to_ascii_uppercase ](s: &str) -> (r: String)
    ensures
        r@ == ascii_upper(s@),
;

/// `str::to_ascii_lowercase`: the letters `A` to `Z` become `a` to `z`, every
/// other character stays.
pub assume_specification[ str::to_ascii_lowercase ](s: &str) -> (r: String)
    ensures
        r@ == ascii_lower(s@),
;

/// The part of `s` between its leading and trailing white space.
pub fn trim(s: &str) -> (r: &str)
    ensures
        r@ == trimmed(s@),
{
    let n: usize = s.unicode_len();
    let mut from: usize = 0;
    let ghost whole = s@;
    assert(whole.subrange(0, n as int) =~= whole);
    while from < n && s.get_char(from).is_whitespace()
        invariant
            from <= n == whole.len(),
            whole == s@,
            trim_start(whole) == trim_start(whole.subrange(from as int, n as int)),
        decreases n - from,
    {
        proof {
            let rest = whole.subrange(from as int, n as int);
            assert(rest.drop_first() =~= whole.subrange(from + 1, n as int));
        }
        from += 1;
    }
    let mut to: usize = n;
    assert(trim_start(whole) == whole.subrange(from as int, n as int));
    while to > from && s.get_char(to - 1).is_whitespace()
        invariant
            from <= to <= n == whole.len(),
            whole == s@,
            trimmed(whole) == trim_end(whole.subrange(from as int, to as int)),
        decreases to,
    {
        proof {
            let rest = whole.subrange(from as int, to as int);
            assert(rest.drop_last() =~= whole.subrange(from as int, to - 1));
            assert(rest.last() == whole[to - 1]);
        }
        to -= 1;
    }
    s.substring_char(from, to)
}

/// The decimal digits of `n`.
pub open spec fn decimal(n: nat) -> Seq<char>
    decreases n,
{
    if n < 10 {
        seq![(0x30 + n) as char]
    } else {
        decimal(n / 10).push((0x30 + n % 10) as char)
    }
}

/// The decimal notation of a signed integer.
pub open spec fn signed_decimal(n: int) -> Seq<char> {
    if n < 0 {
        seq!['-'] + decimal((-n) as nat)
    } else {
        decimal(n as nat)
    }
}

/// The decimal notation of `n`.
pub fn decimal_text(n: u64) -> (r: String)
    ensures
        r@ == decimal(n as nat),
    decreases n,
{
    let digits = "0123456789";
    proof {
        reveal_strlit("0123456789");
    }
    let d: usize = (n % 10) as usize;
    let last = digits.substring_char(d, d + 1);
    assert(last@ =~= seq![(0x30 + n % 10) as char]) by {
        assert(digits@[d as int] == (0x30 + d) as char);
    }
    if n < 10 {
        let mut r = String::new();
        r.append(last);
        assert(r@ =~= seq![(0x30 + n) as char]);
        r
    } else {
        let mut r = decimal_text(n / 10);
        r.append(last);
        assert(r@ =~= decimal(n as nat / 10).push((0x30 + n as nat % 10) as char));
        r
    }
}

/// The decimal notation of a signed number.
pub fn signed_decimal_text(n: i64) -> (r: String)
    ensures
        r@ == signed_decimal(n as int),
{
    if n < 0 {
        let mut r = String::new();
        r.append("-");
        proof {
            reveal_strlit("-");
        }
        let magnitude: u64 = if n == i64::MIN {
            0x8000_0000_0000_0000
        } else {
            (-n) as u64
        };
        let digits = decimal_text(magnitude);
        r.append(digits.as_str());
        assert(r@ =~= seq!['-'] + decimal((-(n as int)) as nat));
        r
    } else {
        decimal_text(n as u64)
    }
}

/// `std::str::from_utf8`: bytes that are UTF-8 are read as the text that they
/// encode, and any others are refused.
#[verifier::external_body]
pub(crate) fn utf8_text(b: &[u8]) -> (r: Option<String>)
    ensures
        match r {
            Some(t) => vstd::utf8::valid_utf8(b@) && t@ == vstd::utf8::decode_utf8(b@),
            None => !vstd::utf8::valid_utf8(b@),
        },
{
    std::str::from_utf8(b).ok().map(|t| t.to_owned())
}

/// Two texts in a row.
pub fn joined(a: &str, b: &str) -> (r: String)
    ensures
        r@ == a@ + b@,
{
    let mut r = String::new();
    r.append(a);
    r.append(b);
    assert(r@ =~= a@ + b@);
    r
}

/// Whether two texts are the same.
pub fn same_text(a: &str, b: &str) -> (r: bool)
    ensures
        r == (a@ == b@),
{
    a.to_owned() == b.to_owned()
}

/// Whether `s` begins with `prefix`.
pub open spec fn begins_with(s: Seq<char>, prefix: Seq<char>) -> bool {
    prefix.len() <= s.len() && s.take(prefix.len() as int) == prefix
}

/// What follows `prefix` in `s`, if `s` begins with it.
pub fn strip_prefix<'a>(s: &'a str, prefix: &str) -> (r: Option<&'a str>)
    ensures
        match r {
            Some(rest) => begins_with(s@, prefix@) && rest@ == s@.skip(prefix@.len() as int),
            None => !begins_with(s@, prefix@),
        },
{
    let n: usize = s.unicode_len();
    let k: usize = prefix.unicode_len();
    if n < k || !same_text(s.substring_char(0, k), prefix) {
        return None;
    }
    let rest = s.substring_char(k, n);
    assert(rest@ =~= s@.skip(k as int));
    Some(rest)
}

/// Whether `s` ends with `suffix`.
pub open spec fn finishes_with(s: Seq<char>, suffix: Seq<char>) -> bool {
    suffix.len() <= s.len() && s.skip(s.len() - suffix.len()) == suffix
}

/// What precedes `suffix` in `s`, if `s` ends with it.
pub fn strip_suffix<'a>(s: &'a str, suffix: &str) -> (r: Option<&'a str>)
    ensures
        match r {
            Some(stem) => finishes_with(s@, suffix@) && stem@ == s@.take(s@.len() - suffix@.len()),
            None => !finishes_with(s@, suffix@),
        },
{
    let n: usize = s.unicode_len();
    let k: usize = suffix.unicode_len();
    if n < k {
        return None;
    }
    let end = s.substring_char(n - k, n);
    assert(end@ =~= s@.skip(n - k));
    if !same_text(end, suffix) {
        return None;
    }
    let stem = s.substring_char(0, n - k);
    assert(stem@ =~= s@.take(n - k));
    Some(stem)
}

/// The position of the first `c` in `s` at or after `from`, or the length of
/// `s`.
pub open spec fn next_char(s: Seq<char>, c: char, from: int) -> int
    decreases s.len() - from,
{
    if from >= s.len() || from < 0 {
        s.len() as int
    } else if s[from] == c {
        from
    } else {
        next_char(s, c, from + 1)
    }
}

/// The position of the first `c` in `s` at or after `from`, or the length of
/// `s`.
pub fn find_char(s: &str, c: char, from: usize) -> (r: usize)
    requires
        from <= s@.len(),
    ensures
        r == next_char(s@, c, from as int),
        from <= r <= s@.len(),
        r < s@.len() ==> s@[r as int] == c,
{
    let n: usize = s.unicode_len();
    let mut i: usize = from;
    while i < n && s.get_char(i) != c
        invariant
            from <= i <= n == s@.len(),
            next_char(s@, c, from as int) == next_char(s@, c, i as int),
        decreases n - i,
    {
        i += 1;
    }
    i
}

/// The pieces of `s` from `from` on, between occurrences of `c`.
pub open spec fn pieces_from(s: Seq<char>, c: char, from: int) -> Seq<Seq<char>>
    decreases s.len() - from,
{
    let i = next_char(s, c, from);
    if 0 <= from <= i < s.len() {
        seq![s.subrange(from, i)] + pieces_from(s, c, i + 1)
    } else {
        seq![s.skip(from)]
    }
}

/// The contents of several texts.
pub open spec fn views(items: Seq<&str>) -> Seq<Seq<char>> {
    items.map_values(|t: &str| t@)
}

/// The pieces of `s` between occurrences of `c`.
pub fn split<'a>(s: &'a str, c: char) -> (r: Vec<&'a str>)
    ensures
        views(r@) == pieces_from(s@, c, 0),
{
    let n: usize = s.unicode_len();
    let mut out: Vec<&'a str> = Vec::new();
    let mut from: usize = 0;
    assert(views(out@) + pieces_from(s@, c, 0) =~= pieces_from(s@, c, 0));
    loop
        invariant
            from <= n == s@.len(),
            views(out@) + pieces_from(s@, c, from as int) == pieces_from(s@, c, 0),
        decreases n - from,
    {
        let i: usize = find_char(s, c, from);
        let ghost before = out@;
        if i < n {
            out.push(s.substring_char(from, i));
            assert(views(out@) =~= views(before).push(s@.subrange(from as int, i as int)));
            assert(views(out@) + pieces_from(s@, c, i + 1) =~= views(before) + pieces_from(
                s@,
                c,
                from as int,
            ));
            from = i + 1;
        } else {
            let rest = s.substring_char(from, n);
            assert(rest@ =~= s@.skip(from as int));
            out.push(rest);
            assert(views(out@) =~= views(before).push(s@.skip(from as int)));
            assert(views(out@) =~= views(before) + pieces_from(s@, c, from as int));
            return out;
        }
    }
}

/// What stands before and after the first `c` in `s`.
pub open spec fn halves(s: Seq<char>, c: char) -> Option<(Seq<char>, Seq<char>)> {
    let i = next_char(s, c, 0);
    if i < s.len() {
        Some((s.take(i), s.skip(i + 1)))
    } else {
        None
    }
}

/// What stands before and after the first `c` in `s`.
pub fn split_once<'a>(s: &'a str, c: char) -> (r: Option<(&'a str, &'a str)>)
    ensures
        match r {
            Some(h) => halves(s@, c) == Some((h.0@, h.1@)),
            None => halves(s@, c) is None,
        },
{
    let n: usize = s.unicode_len();
    let i: usize = find_char(s, c, 0);
    if i < n {
        let before = s.substring_char(0, i);
        let after = s.substring_char(i + 1, n);
        assert(before@ =~= s@.take(i as int));
        assert(after@ =~= s@.skip(i + 1));
        Some((before, after))
    } else {
        None
    }
}

/// A text in quotes, with what needs it escaped.
pub uninterp spec fn debug_text(s: Seq<char>) -> Seq<char>;

/// `format!` with `{:?}` on a text: the text in quotes and escaped, a function
/// of the text.
#[verifier::external_body]
pub(crate) fn quoted(s: &str) -> (r: String)
    ensures
        r@ == debug_text(s@),
{
    format!("{:?}", s)
}

/// `s` without leading and trailing occurrences of `c`.
pub open spec fn trim_char_start(s: Seq<char>, c: char) -> Seq<char>
    decreases s.len(),
{
    if s.len() > 0 && s[0] == c {
        trim_char_start(s.drop_first(), c)
    } else {
        s
    }
}

/// `s` without trailing occurrences of `c`.
pub open spec fn trim_char_end(s: Seq<char>, c: char) -> Seq<char>
    decreases s.len(),
{
    if s.len() > 0 && s.last() == c {
        trim_char_end(s.drop_last(), c)
    } else {
        s
    }
}

/// The part of `s` between leading and trailing occurrences of `c`.
pub fn trim_matches(s: &str, c: char) -> (r: &str)
    ensures
        r@ == trim_char_end(trim_char_start(s@, c), c),
{
    let n: usize = s.unicode_len();
    let mut from: usize = 0;
    let ghost whole = s@;
    assert(whole.subrange(0, n as int) =~= whole);
    while from < n && s.get_char(from) == c
        invariant
            from <= n == whole.len(),
            whole == s@,
            trim_char_start(whole, c) == trim_char_start(whole.subrange(from as int, n as int), c),
        decreases n - from,
    {
        proof {
            let rest = whole.subrange(from as int, n as int);
            assert(rest.drop_first() =~= whole.subrange(from + 1, n as int));
        }
        from += 1;
    }
    let mut to: usize = n;
    let ghost stripped = trim_char_start(whole, c);
    assert(stripped == whole.subrange(from as int, n as int));
    while to > from && s.get_char(to - 1) == c
        invariant
            from <= to <= n == whole.len(),
            whole == s@,
            trim_char_end(stripped, c) == trim_char_end(whole.subrange(from as int, to as int), c),
        decreases to,
    {
        proof {
            let rest = whole.subrange(from as int, to as int);
            assert(rest.drop_last() =~= whole.subrange(from as int, to - 1));
            assert(rest.last() == whole[to - 1]);
        }
        to -= 1;
    }
    s.substring_char(from, to)
}

/// The first `n` characters of `s`, or all of it.
pub fn first_chars(s: &str, n: usize) -> (r: &str)
    ensures
        r@ == (if s@.len() <= n {
            s@
        } else {
            s@.take(n as int)
        }),
{
    let len: usize = s.unicode_len();
    let k: usize = if len <= n {
        len
    } else {
        n
    };
    let r = s.substring_char(0, k);
    assert(r@ =~= s@.take(k as int));
    assert(s@.take(s@.len() as int) =~= s@);
    r
}

/// A copy of an optional text.
pub fn copy_option(s: &Option<String>) -> (r: Option<String>)
    ensures
        r == *s,
{
    match s {
        Some(t) => Some(t.clone()),
        None => None,
    }
}

/// The contents of an optional text.
pub open spec fn option_view(s: Option<String>) -> Option<Seq<char>> {
    match s {
        Some(t) => Some(t@),
        None => None,
    }
}

/// Whether bytes do not come after others: the first byte that differs decides,
/// and what ends first comes first.
pub open spec fn bytes_not_after(a: Seq<u8>, b: Seq<u8>) -> bool
    decreases a.len(),
{
    if a.len() == 0 {
        true
    } else if b.len() == 0 {
        false
    } else if a[0] != b[0] {
        a[0] < b[0]
    } else {
        bytes_not_after(a.drop_first(), b.drop_first())
    }
}

/// Whether a text does not come after another, by their bytes.
pub open spec fn not_after(a: Seq<char>, b: Seq<char>) -> bool {
    bytes_not_after(vstd::utf8::encode_utf8(a), vstd::utf8::encode_utf8(b))
}

/// Whether a text does not come after another, by their bytes.
pub fn is_not_after(a: &str, b: &str) -> (r: bool)
    ensures
        r == not_after(a@, b@),
{
    let x = a.as_bytes();
    let y = b.as_bytes();
    let mut i: usize = 0;
    assert(x@.skip(0) =~= x@ && y@.skip(0) =~= y@);
    while i < x.len() && i < y.len() && x[i] == y[i]
        invariant
            i <= x@.len(),
            i <= y@.len(),
            bytes_not_after(x@, y@) == bytes_not_after(x@.skip(i as int), y@.skip(i as int)),
        decreases x@.len() - i,
    {
        assert(x@.skip(i as int).drop_first() =~= x@.skip(i + 1));
        assert(y@.skip(i as int).drop_first() =~= y@.skip(i + 1));
        i += 1;
    }
    if i >= x.len() {
        true
    } else if i >= y.len() {
        false
    } else {
        x[i] < y[i]
    }
}

proof fn lemma_bytes_order(a: Seq<u8>, b: Seq<u8>, c: Seq<u8>)
    ensures
        bytes_not_after(a, b) || bytes_not_after(b, a),
        bytes_not_after(a, b) && bytes_not_after(b, c) ==> bytes_not_after(a, c),
    decreases a.len() + b.len() + c.len(),
{
    if a.len() > 0 && b.len() > 0 && a[0] == b[0] {
        if c.len() > 0 {
            lemma_bytes_order(a.drop_first(), b.drop_first(), c.drop_first());
        } else {
            lemma_bytes_order(a.drop_first(), b.drop_first(), c);
        }
    }
}

/// Of two texts one does not come after the other, and what does not come after
/// one does not come after what follows it.
pub proof fn lemma_order(a: Seq<char>, b: Seq<char>, c: Seq<char>)
    ensures
        not_after(a, b) || not_after(b, a),
        not_after(a, b) && not_after(b, c) ==> not_after(a, c),
{
    lemma_bytes_order(
        vstd::utf8::encode_utf8(a),
        vstd::utf8::encode_utf8(b),
        vstd::utf8::encode_utf8(c),
    );
}

/// Whether every character of a text is white space.
pub open spec fn blank(s: Seq<char>) -> bool {
    forall|i: int| 0 <= i < s.len() ==> white_space(#[trigger] s[i])
}

proof fn lemma_trim_start(a: Seq<char>, t: Seq<char>)
    requires
        blank(a),
        t.len() > 0 ==> !white_space(t[0]),
    ensures
        trim_start(a + t) == t,
    decreases a.len(),
{
    if a.len() > 0 {
        assert(white_space(a[0]));
        assert((a + t).drop_first() =~= a.drop_first() + t);
        assert forall|i: int| 0 <= i < a.drop_first().len() implies white_space(
            #[trigger] a.drop_first()[i],
        ) by {
            assert(white_space(a[i + 1]));
        }
        lemma_trim_start(a.drop_first(), t);
    } else {
        assert(a + t =~= t);
    }
}

proof fn lemma_trim_end(t: Seq<char>, b: Seq<char>)
    requires
        blank(b),
        t.len() > 0 ==> !white_space(t.last()),
    ensures
        trim_end(t + b) == t,
    decreases b.len(),
{
    if b.len() > 0 {
        assert(white_space(b[b.len() - 1]));
        assert((t + b).drop_last() =~= t + b.drop_last());
        assert forall|i: int| 0 <= i < b.drop_last().len() implies white_space(
            #[trigger] b.drop_last()[i],
        ) by {
            assert(white_space(b[i]));
        }
        lemma_trim_end(t, b.drop_last());
    } else {
        assert(t + b =~= t);
    }
}

/// White space around a text is taken off, all of it and nothing else.
pub proof fn law_trimmed(before: Seq<char>, t: Seq<char>, after: Seq<char>)
    requires
        blank(before),
        blank(after),
        t.len() > 0 ==> !white_space(t[0]) && !white_space(t.last()),
    ensures
        trimmed(before + t + after) == t,
{
    if t.len() == 0 {
        assert(before + t + after =~= (before + after) + t);
        assert forall|i: int| 0 <= i < (before + after).len() implies white_space(
            #[trigger] (before + after)[i],
        ) by {
            if i < before.len() {
                assert(white_space(before[i]));
            } else {
                assert(white_space(after[i - before.len()]));
            }
        }
        lemma_trim_start(before + after, t);
    } else {
        assert(before + t + after =~= before + (t + after));
        lemma_trim_start(before, t + after);
        lemma_trim_end(t, after);
    }
}

/// Whether a character occurs nowhere in a text.
pub open spec fn lacks(s: Seq<char>, c: char) -> bool {
    forall|i: int| 0 <= i < s.len() ==> #[trigger] s[i] != c
}

proof fn lemma_next_char(s: Seq<char>, c: char, from: int)
    requires
        0 <= from <= s.len(),
    ensures
        from <= next_char(s, c, from) <= s.len(),
        next_char(s, c, from) < s.len() ==> s[next_char(s, c, from)] == c,
        forall|i: int| from <= i < next_char(s, c, from) ==> #[trigger] s[i] != c,
    decreases s.len() - from,
{
    if from < s.len() && s[from] != c {
        lemma_next_char(s, c, from + 1);
    }
}

/// The next occurrence of a character is the one behind which none of those
/// looked at has it.
pub proof fn lemma_next_char_is(s: Seq<char>, c: char, from: int, at: int)
    requires
        0 <= from <= at <= s.len(),
        at < s.len() ==> s[at] == c,
        forall|i: int| from <= i < at ==> #[trigger] s[i] != c,
    ensures
        next_char(s, c, from) == at,
{
    lemma_next_char(s, c, from);
    let n = next_char(s, c, from);
    if n < at {
        assert(s[n] != c);
    }
}

/// A text is halved at the first separator, which neither half keeps, and one
/// without a separator not at all.
pub proof fn law_halves(a: Seq<char>, c: char, b: Seq<char>)
    requires
        lacks(a, c),
    ensures
        halves(a + seq![c] + b, c) == Some((a, b)),
        halves(a, c) is None,
{
    let s = a + seq![c] + b;
    assert forall|i: int| 0 <= i < a.len() implies #[trigger] s[i] != c by {
        assert(s[i] == a[i]);
    }
    assert(s[a.len() as int] == c);
    lemma_next_char_is(s, c, 0, a.len() as int);
    lemma_next_char_is(a, c, 0, a.len() as int);
    assert(s.take(a.len() as int) =~= a);
    assert(s.skip(a.len() as int + 1) =~= b);
}

/// What stands before the place where a search begins does not matter to it.
pub proof fn lemma_next_char_behind(p: Seq<char>, s: Seq<char>, c: char, from: int)
    requires
        0 <= from <= s.len(),
    ensures
        next_char(p + s, c, p.len() + from) == p.len() + next_char(s, c, from),
        from <= next_char(s, c, from) <= s.len(),
{
    let t = p + s;
    let n = next_char(s, c, from);
    lemma_next_char(s, c, from);
    assert forall|i: int| p.len() + from <= i < p.len() + n implies #[trigger] t[i] != c by {
        assert(t[i] == s[i - p.len()]);
    }
    if n < s.len() {
        assert(t[p.len() + n] == s[n]);
    }
    lemma_next_char_is(t, c, p.len() + from, p.len() + n);
}

proof fn lemma_pieces_behind(p: Seq<char>, s: Seq<char>, c: char, from: int)
    requires
        0 <= from <= s.len(),
    ensures
        pieces_from(p + s, c, p.len() + from) == pieces_from(s, c, from),
    decreases s.len() - from,
{
    let t = p + s;
    let n = next_char(s, c, from);
    lemma_next_char_behind(p, s, c, from);
    if n < s.len() {
        lemma_pieces_behind(p, s, c, n + 1);
        assert(t.subrange(p.len() + from, p.len() + n) =~= s.subrange(from, n));
    } else {
        assert(t.skip(p.len() + from) =~= s.skip(from));
    }
}

/// A text without a separator is one piece, and the pieces of two texts with a
/// separator between them are those of the one, then those of the other.
pub proof fn law_pieces(a: Seq<char>, c: char, b: Seq<char>)
    ensures
        lacks(a, c) ==> pieces_from(a, c, 0) == seq![a],
        pieces_from(a + seq![c] + b, c, 0) == pieces_from(a, c, 0) + pieces_from(b, c, 0),
    decreases a.len(),
{
    let s = a + seq![c] + b;
    let n = next_char(a, c, 0);
    lemma_next_char(a, c, 0);
    if lacks(a, c) {
        lemma_next_char_is(a, c, 0, a.len() as int);
        assert(a.skip(0) =~= a);
    }
    assert forall|i: int| 0 <= i < n implies #[trigger] s[i] != c by {
        assert(s[i] == a[i]);
    }
    if n < a.len() {
        assert(s[n] == a[n]);
        lemma_next_char_is(s, c, 0, n);
        let p = a.take(n + 1);
        let rest = a.skip(n + 1);
        law_pieces(rest, c, b);
        assert(s =~= p + (rest + seq![c] + b));
        lemma_pieces_behind(p, rest + seq![c] + b, c, 0);
        assert(a =~= p + rest);
        lemma_pieces_behind(p, rest, c, 0);
        assert(s.subrange(0, n) =~= a.subrange(0, n));
        assert(pieces_from(s, c, 0) =~= pieces_from(a, c, 0) + pieces_from(b, c, 0));
    } else {
        assert(s[n] == c);
        lemma_next_char_is(s, c, 0, n);
        let p = a + seq![c];
        lemma_pieces_behind(p, b, c, 0);
        assert(s.subrange(0, n) =~= a);
        assert(a.skip(0) =~= a);
        assert(pieces_from(s, c, 0) =~= seq![a] + pieces_from(b, c, 0));
    }
}

/// Nothing comes after itself, and two texts of which neither comes after the
/// other are one: the order of texts is strict and total.
pub proof fn law_order_antisymmetric(a: Seq<u8>, b: Seq<u8>)
    ensures
        bytes_not_after(a, a),
        bytes_not_after(a, b) && bytes_not_after(b, a) ==> a == b,
        bytes_not_after(a, a + b),
    decreases a.len(),
{
    if a.len() > 0 {
        law_order_antisymmetric(
            a.drop_first(),
            if b.len() > 0 {
                b.drop_first()
            } else {
                b
            },
        );
        law_order_antisymmetric(a.drop_first(), b);
        assert((a + b).drop_first() =~= a.drop_first() + b);
        if b.len() > 0 && a[0] == b[0] && a.drop_first() == b.drop_first() {
            assert(a =~= seq![a[0]] + a.drop_first());
            assert(b =~= seq![b[0]] + b.drop_first());
        }
    } else if b.len() == 0 {
        assert(a =~= b);
    }
}

/// Case is all that is changed where letters are brought to one case, and only
/// that of the letters A to Z.
pub proof fn law_ascii_case(c: char)
    ensures
        ascii_lower_char(ascii_upper_char(c)) == ascii_lower_char(c),
        ascii_upper_char(ascii_lower_char(c)) == ascii_upper_char(c),
        !('A' <= c <= 'Z') ==> ascii_lower_char(c) == c,
        !('a' <= c <= 'z') ==> ascii_upper_char(c) == c,
        'A' <= c <= 'Z' ==> 'a' <= ascii_lower_char(c) <= 'z',
        'a' <= c <= 'z' ==> 'A' <= ascii_upper_char(c) <= 'Z',
{
}

/// All occurrences of a character around a text are taken off, and nothing
/// else.
pub proof fn law_trimmed_of_char(before: Seq<char>, t: Seq<char>, after: Seq<char>, c: char)
    requires
        forall|i: int| 0 <= i < before.len() ==> #[trigger] before[i] == c,
        forall|i: int| 0 <= i < after.len() ==> #[trigger] after[i] == c,
        t.len() > 0,
        t[0] != c,
        t.last() != c,
    ensures
        trim_char_end(trim_char_start(before + t + after, c), c) == t,
    decreases before.len() + after.len(),
{
    let s = before + t + after;
    if before.len() > 0 {
        assert(s[0] == before[0]);
        assert(s.drop_first() =~= before.drop_first() + t + after);
        assert forall|i: int| 0 <= i < before.drop_first().len() implies #[trigger] before.drop_first()[i]
            == c by {
            assert(before[i + 1] == c);
        }
        law_trimmed_of_char(before.drop_first(), t, after, c);
    } else {
        assert(s[0] == t[0]);
        if after.len() > 0 {
            assert(s.last() == after[after.len() - 1]);
            assert(s.drop_last() =~= before + t + after.drop_last());
            assert((before + t + after.drop_last())[0] == t[0]);
            assert forall|i: int| 0 <= i < after.drop_last().len() implies #[trigger] after.drop_last()[i]
                == c by {
                assert(after[i] == c);
            }
            law_trimmed_of_char(before, t, after.drop_last(), c);
        } else {
            assert(s =~= t);
        }
    }
}

} // verus!
