//! The pieces of compact JSON texts.

use vstd::prelude::*;
use vstd::string::StringExecFns;
use crate::primitives::{number, text};

verus! {

/// A hexadecimal digit, as escapes are written with.
pub open spec fn hex_digit(n: int) -> char {
    if n < 10 {
        (0x30 + n) as char
    } else {
        (0x57 + n) as char
    }
}

/// A character inside a JSON string: a quotation mark, a backslash and the
/// control characters are escaped, and any other stands for itself.
pub open spec fn escaped_char(c: char) -> Seq<char> {
    if c == '"' {
        seq!['\\', '"']
    } else if c == '\\' {
        seq!['\\', '\\']
    } else if c as u32 == 0x08 {
        seq!['\\', 'b']
    } else if c as u32 == 0x09 {
        seq!['\\', 't']
    } else if c as u32 == 0x0a {
        seq!['\\', 'n']
    } else if c as u32 == 0x0c {
        seq!['\\', 'f']
    } else if c as u32 == 0x0d {
        seq!['\\', 'r']
    } else if (c as u32) < 0x20 {
        seq!['\\', 'u', '0', '0', hex_digit(c as int / 16), hex_digit(c as int % 16)]
    } else {
        seq![c]
    }
}

/// The characters of a text, each escaped as need be.
pub open spec fn escaped(s: Seq<char>) -> Seq<char>
    decreases s.len(),
{
    if s.len() == 0 {
        Seq::empty()
    } else {
        escaped_char(s[0]) + escaped(s.drop_first())
    }
}

/// `s` as a JSON string, quoted and escaped.
pub open spec fn json_string_text(s: Seq<char>) -> Seq<char> {
    seq!['"'] + (escaped(s) + seq!['"'])
}

/// `serde_json::Value::to_string` on a string: the JSON form, in quotation
/// marks and with the escapes that [`escaped_char`] gives.
#[verifier::external_body]
pub(crate) fn json_string(s: &str) -> (r: String)
    ensures
        r@ == json_string_text(s@),
{
    serde_json::Value::String(s.to_owned()).to_string()
}

/// Items with commas between them.
pub open spec fn comma_joined(items: Seq<Seq<char>>) -> Seq<char>
    decreases items.len(),
{
    if items.len() == 0 {
        Seq::empty()
    } else if items.len() == 1 {
        items[0]
    } else {
        comma_joined(items.drop_last()) + ","@ + items.last()
    }
}

/// A JSON array of rendered items.
pub open spec fn json_array(items: Seq<Seq<char>>) -> Seq<char> {
    "["@ + comma_joined(items) + "]"@
}

/// A JSON array of strings.
pub open spec fn json_strings(items: Seq<String>) -> Seq<char> {
    json_array(items.map_values(|s: String| json_string_text(s@)))
}

/// Render a JSON array of rendered items.
pub fn array_text(items: &Vec<String>) -> (r: String)
    ensures
        r@ == json_array(items@.map_values(|s: String| s@)),
{
    let ghost models = items@.map_values(|s: String| s@);
    let mut inner = String::new();
    let mut i: usize = 0;
    assert(models.take(0) =~= Seq::<Seq<char>>::empty());
    while i < items.len()
        invariant
            i <= items@.len(),
            models == items@.map_values(|s: String| s@),
            inner@ == comma_joined(models.take(i as int)),
        decreases items@.len() - i,
    {
        proof {
            assert(models.take(i + 1).drop_last() =~= models.take(i as int));
            assert(models.take(i + 1).last() == items@[i as int]@);
        }
        if i > 0 {
            inner.append(",");
        }
        inner.append(items[i].as_str());
        proof {
            if i == 0 {
                assert(inner@ =~= models.take(1)[0]);
            }
        }
        i += 1;
    }
    assert(models.take(i as int) =~= models);
    let mut r = String::new();
    r.append("[");
    r.append(inner.as_str());
    r.append("]");
    assert(r@ =~= json_array(models));
    r
}

/// Render a JSON array of strings.
pub fn strings_text(items: &Vec<String>) -> (r: String)
    ensures
        r@ == json_strings(items@),
{
    let mut rendered: Vec<String> = Vec::new();
    let mut i: usize = 0;
    while i < items.len()
        invariant
            i <= items@.len(),
            rendered@.len() == i,
            forall|j: int| 0 <= j < i ==> (#[trigger] rendered@[j])@ == json_string_text(items@[j]@),
        decreases items@.len() - i,
    {
        rendered.push(json_string(items[i].as_str()));
        i += 1;
    }
    assert(rendered@.map_values(|s: String| s@) =~= items@.map_values(
        |s: String| json_string_text(s@),
    ));
    array_text(&rendered)
}

/// Whether two texts are the same or differ at a position that both have, so
/// that whatever follows them, the longer texts differ where these do.
pub open spec fn apart(p: Seq<char>, q: Seq<char>) -> bool {
    p == q || exists|k: int|
        0 <= k < p.len() && k < q.len() && #[trigger] p[k] != #[trigger] q[k]
}

/// Texts that are apart can be split off from what follows them.
pub proof fn lemma_split(p: Seq<char>, x: Seq<char>, q: Seq<char>, y: Seq<char>)
    requires
        apart(p, q),
        p + x == q + y,
    ensures
        p == q,
        x == y,
{
    let w = p + x;
    if p != q {
        let k = choose|k: int| 0 <= k < p.len() && k < q.len() && #[trigger] p[k] != #[trigger] q[k];
        assert(w[k] == p[k]);
        assert((q + y)[k] == q[k]);
    }
    assert(w.skip(p.len() as int) =~= x);
    assert((q + y).skip(q.len() as int) =~= y);
}

/// What differs goes on to differ, whatever follows.
proof fn lemma_apart_front(p: Seq<char>, q: Seq<char>, x: Seq<char>, y: Seq<char>)
    requires
        apart(p, q),
        p != q,
    ensures
        apart(p + x, q + y),
        p + x != q + y,
{
    let k = choose|k: int| 0 <= k < p.len() && k < q.len() && #[trigger] p[k] != #[trigger] q[k];
    assert((p + x)[k] == p[k]);
    assert((q + y)[k] == q[k]);
}

/// The same text in front changes nothing.
proof fn lemma_apart_behind(p: Seq<char>, x: Seq<char>, y: Seq<char>)
    requires
        apart(x, y),
    ensures
        apart(p + x, p + y),
        p + x == p + y ==> x == y,
{
    if x != y {
        let k = choose|k: int| 0 <= k < x.len() && k < y.len() && #[trigger] x[k] != #[trigger] y[k];
        assert((p + x)[p.len() + k] == x[k]);
        assert((p + y)[p.len() + k] == y[k]);
    }
}

/// Texts that are apart stay so with texts that are apart behind them, and what
/// they are made of can be told from them.
pub proof fn lemma_apart_fields(p: Seq<char>, x: Seq<char>, q: Seq<char>, y: Seq<char>)
    requires
        apart(p, q),
        apart(x, y),
    ensures
        apart(p + x, q + y),
        p + x == q + y ==> p == q && x == y,
{
    if p == q {
        lemma_apart_behind(p, x, y);
    } else {
        lemma_apart_front(p, q, x, y);
    }
}

proof fn lemma_chars_apart(c: char, d: char)
    ensures
        apart(escaped_char(c), escaped_char(d)),
        escaped_char(c) == escaped_char(d) ==> c == d,
        escaped_char(c).len() > 0,
        escaped_char(c)[0] != '"',
{
    let p = escaped_char(c);
    let q = escaped_char(d);
    if c != d {
        if p[0] == q[0] {
            assert(p[0] == '\\' && q[0] == '\\');
            if p[1] == q[1] {
                assert(p.len() == 6 && q.len() == 6);
                let (m, n) = (c as int, d as int);
                assert(m == m / 16 * 16 + m % 16 && n == n / 16 * 16 + n % 16);
                if m / 16 != n / 16 {
                    assert(p[4] != q[4]);
                } else {
                    assert(m % 16 != n % 16);
                    assert(p[5] != q[5]);
                }
            }
        }
    }
}

proof fn lemma_escaped_apart(a: Seq<char>, b: Seq<char>)
    ensures
        apart(escaped(a) + seq!['"'], escaped(b) + seq!['"']),
        escaped(a) + seq!['"'] == escaped(b) + seq!['"'] ==> a == b,
    decreases a.len() + b.len(),
{
    let quote = seq!['"'];
    let x = escaped(a) + quote;
    let y = escaped(b) + quote;
    if a.len() > 0 {
        lemma_chars_apart(a[0], a[0]);
        assert(x =~= escaped_char(a[0]) + (escaped(a.drop_first()) + quote));
        assert(x[0] == escaped_char(a[0])[0]);
    } else {
        assert(x[0] == '"');
    }
    if b.len() > 0 {
        lemma_chars_apart(b[0], b[0]);
        assert(y =~= escaped_char(b[0]) + (escaped(b.drop_first()) + quote));
        assert(y[0] == escaped_char(b[0])[0]);
    } else {
        assert(y[0] == '"');
    }
    if a.len() == 0 && b.len() == 0 {
        assert(a =~= b);
    } else if a.len() == 0 || b.len() == 0 {
        assert(x[0] != y[0]);
    } else {
        let (p, q) = (escaped_char(a[0]), escaped_char(b[0]));
        let (u, v) = (escaped(a.drop_first()) + quote, escaped(b.drop_first()) + quote);
        lemma_chars_apart(a[0], b[0]);
        if p != q {
            lemma_apart_front(p, q, u, v);
        } else {
            lemma_escaped_apart(a.drop_first(), b.drop_first());
            lemma_apart_behind(p, u, v);
            if x == y {
                assert(a =~= seq![a[0]] + a.drop_first());
                assert(b =~= seq![b[0]] + b.drop_first());
            }
        }
    }
}

/// JSON strings of different texts are apart, and a JSON string stands for one
/// text only.
pub proof fn lemma_strings_apart(a: Seq<char>, b: Seq<char>)
    ensures
        apart(json_string_text(a), json_string_text(b)),
        json_string_text(a) == json_string_text(b) ==> a == b,
        json_string_text(a).len() > 0,
        json_string_text(a)[0] == '"',
{
    lemma_escaped_apart(a, b);
    lemma_apart_behind(seq!['"'], escaped(a) + seq!['"'], escaped(b) + seq!['"']);
}

/// Reading a JSON string off the front of a text gives one text, and what
/// follows it.
pub proof fn lemma_string_field(a: Seq<char>, x: Seq<char>, b: Seq<char>, y: Seq<char>)
    requires
        json_string_text(a) + x == json_string_text(b) + y,
    ensures
        a == b,
        x == y,
{
    lemma_strings_apart(a, b);
    lemma_split(json_string_text(a), x, json_string_text(b), y);
}

/// The same text in front can be taken off.
pub proof fn lemma_literal(p: Seq<char>, x: Seq<char>, y: Seq<char>)
    requires
        p + x == p + y,
    ensures
        x == y,
{
    lemma_split(p, x, p, y);
}

/// How texts in a row are grouped does not matter.
pub proof fn lemma_grouping(a: Seq<char>, b: Seq<char>, c: Seq<char>)
    ensures
        (a + b) + c == a + (b + c),
{
    assert((a + b) + c =~= a + (b + c));
}

/// Whether a character can stand in a decimal number.
pub open spec fn in_number(c: char) -> bool {
    '0' <= c <= '9' || c == '-'
}

/// Reading a number off the front of a text gives one number, and what follows
/// it, if that cannot go on with a number.
pub proof fn lemma_number_field(m: nat, x: Seq<char>, n: nat, y: Seq<char>)
    requires
        text::decimal(m) + x == text::decimal(n) + y,
        x.len() > 0 && !in_number(x[0]),
        y.len() > 0 && !in_number(y[0]),
    ensures
        m == n,
        x == y,
{
    number::lemma_decimal_value(m);
    number::lemma_decimal_value(n);
    lemma_same_run(text::decimal(m), x, text::decimal(n), y);
}

/// Reading a signed number off the front of a text gives one number, and what
/// follows it, if that cannot go on with a number.
pub proof fn lemma_signed_field(m: i64, x: Seq<char>, n: i64, y: Seq<char>)
    requires
        text::signed_decimal(m as int) + x == text::signed_decimal(n as int) + y,
        x.len() > 0 && !in_number(x[0]),
        y.len() > 0 && !in_number(y[0]),
    ensures
        m == n,
        x == y,
{
    let p = text::signed_decimal(m as int);
    let q = text::signed_decimal(n as int);
    number::lemma_signed_parses(m);
    number::lemma_signed_parses(n);
    number::lemma_decimal_value(if m < 0 {
        (-(m as int)) as nat
    } else {
        m as nat
    });
    number::lemma_decimal_value(if n < 0 {
        (-(n as int)) as nat
    } else {
        n as nat
    });
    lemma_same_run(p, x, q, y);
}

proof fn lemma_same_run(p: Seq<char>, x: Seq<char>, q: Seq<char>, y: Seq<char>)
    requires
        p + x == q + y,
        forall|i: int| 0 <= i < p.len() ==> in_number(#[trigger] p[i]),
        forall|i: int| 0 <= i < q.len() ==> in_number(#[trigger] q[i]),
        x.len() > 0 && !in_number(x[0]),
        y.len() > 0 && !in_number(y[0]),
    ensures
        p == q,
        x == y,
{
    let w = p + x;
    assert(w[p.len() as int] == x[0]);
    assert((q + y)[q.len() as int] == y[0]);
    if p.len() < q.len() {
        assert((q + y)[p.len() as int] == q[p.len() as int]);
    }
    if q.len() < p.len() {
        assert(w[q.len() as int] == p[q.len() as int]);
    }
    assert(w.take(p.len() as int) =~= p);
    assert((q + y).take(q.len() as int) =~= q);
    assert(w.skip(p.len() as int) =~= x);
    assert((q + y).skip(q.len() as int) =~= y);
}

proof fn lemma_joined_front(items: Seq<Seq<char>>)
    requires
        items.len() >= 2,
    ensures
        comma_joined(items) == items[0] + (","@ + comma_joined(items.drop_first())),
    decreases items.len(),
{
    let front = items.drop_last();
    let back = items.drop_first();
    if items.len() == 2 {
        assert(comma_joined(front) == items[0]);
        assert(comma_joined(back) == items[1]);
        assert(comma_joined(items) =~= items[0] + (","@ + comma_joined(back)));
    } else {
        lemma_joined_front(front);
        assert(front.drop_first() =~= back.drop_last());
        assert(back.last() == items.last());
        assert(comma_joined(back) == comma_joined(back.drop_last()) + ","@ + items.last());
        assert(comma_joined(items) =~= items[0] + (","@ + comma_joined(back)));
    }
}

proof fn lemma_joined_items(a: Seq<Seq<char>>, x: Seq<char>, b: Seq<Seq<char>>, y: Seq<char>)
    requires
        comma_joined(a) + ("]"@ + x) == comma_joined(b) + ("]"@ + y),
        forall|i: int, j: int|
            0 <= i < a.len() && 0 <= j < b.len() ==> apart(#[trigger] a[i], #[trigger] b[j]),
        forall|i: int| 0 <= i < a.len() ==> (#[trigger] a[i]).len() > 0 && a[i][0] != ']',
        forall|i: int| 0 <= i < b.len() ==> (#[trigger] b[i]).len() > 0 && b[i][0] != ']',
    ensures
        a == b,
        x == y,
    decreases a.len() + b.len(),
{
    reveal_strlit("]");
    reveal_strlit(",");
    let u = comma_joined(a) + ("]"@ + x);
    let v = comma_joined(b) + ("]"@ + y);
    let ra = if a.len() >= 2 {
        ","@ + comma_joined(a.drop_first()) + ("]"@ + x)
    } else {
        "]"@ + x
    };
    let rb = if b.len() >= 2 {
        ","@ + comma_joined(b.drop_first()) + ("]"@ + y)
    } else {
        "]"@ + y
    };
    if a.len() > 0 {
        if a.len() >= 2 {
            lemma_joined_front(a);
        }
        assert(u =~= a[0] + ra);
        assert(u[0] == a[0][0]);
    } else {
        assert(u[0] == ']');
    }
    if b.len() > 0 {
        if b.len() >= 2 {
            lemma_joined_front(b);
        }
        assert(v =~= b[0] + rb);
        assert(v[0] == b[0][0]);
    } else {
        assert(v[0] == ']');
    }
    if a.len() == 0 {
        assert(b.len() == 0);
        assert(a =~= b);
        assert(u =~= "]"@ + x);
        assert(v =~= "]"@ + y);
        lemma_literal("]"@, x, y);
    } else {
        assert(b.len() > 0);
        assert(apart(a[0], b[0]));
        lemma_split(a[0], ra, b[0], rb);
        if a.len() >= 2 {
            assert(ra[0] == ',');
        } else {
            assert(ra[0] == ']');
        }
        if b.len() >= 2 {
            assert(rb[0] == ',');
        } else {
            assert(rb[0] == ']');
        }
        if a.len() == 1 {
            assert(b.len() == 1);
            assert(a =~= b);
            lemma_literal("]"@, x, y);
        } else {
            let (ta, tb) = (a.drop_first(), b.drop_first());
            assert(ra =~= ","@ + (comma_joined(ta) + ("]"@ + x)));
            assert(rb =~= ","@ + (comma_joined(tb) + ("]"@ + y)));
            lemma_literal(
                ","@,
                comma_joined(ta) + ("]"@ + x),
                comma_joined(tb) + ("]"@ + y),
            );
            lemma_joined_items(ta, x, tb, y);
            assert(a =~= seq![a[0]] + ta);
            assert(b =~= seq![b[0]] + tb);
        }
    }
}

/// Reading an array off the front of a text gives its items, and what follows
/// it.
pub proof fn lemma_array_field(a: Seq<Seq<char>>, x: Seq<char>, b: Seq<Seq<char>>, y: Seq<char>)
    requires
        json_array(a) + x == json_array(b) + y,
        forall|i: int, j: int|
            0 <= i < a.len() && 0 <= j < b.len() ==> apart(#[trigger] a[i], #[trigger] b[j]),
        forall|i: int| 0 <= i < a.len() ==> (#[trigger] a[i]).len() > 0 && a[i][0] != ']',
        forall|i: int| 0 <= i < b.len() ==> (#[trigger] b[i]).len() > 0 && b[i][0] != ']',
    ensures
        a == b,
        x == y,
{
    assert(json_array(a) + x =~= "["@ + (comma_joined(a) + ("]"@ + x)));
    assert(json_array(b) + y =~= "["@ + (comma_joined(b) + ("]"@ + y)));
    lemma_literal("["@, comma_joined(a) + ("]"@ + x), comma_joined(b) + ("]"@ + y));
    lemma_joined_items(a, x, b, y);
}

/// Whether two lists hold the same texts in the same order.
pub open spec fn same_texts(a: Seq<String>, b: Seq<String>) -> bool {
    a.len() == b.len() && forall|i: int| 0 <= i < a.len() ==> (#[trigger] a[i])@ == b[i]@
}

/// Reading an array of strings off the front of a text gives its texts, and
/// what follows it.
pub proof fn lemma_strings_field(a: Seq<String>, x: Seq<char>, b: Seq<String>, y: Seq<char>)
    requires
        json_strings(a) + x == json_strings(b) + y,
    ensures
        same_texts(a, b),
        x == y,
{
    let f = |s: String| json_string_text(s@);
    let (p, q) = (a.map_values(f), b.map_values(f));
    assert forall|i: int, j: int| 0 <= i < p.len() && 0 <= j < q.len() implies apart(
        #[trigger] p[i],
        #[trigger] q[j],
    ) by {
        lemma_strings_apart(a[i]@, b[j]@);
    }
    assert forall|i: int| 0 <= i < p.len() implies (#[trigger] p[i]).len() > 0 && p[i][0] != ']' by {
        lemma_strings_apart(a[i]@, a[i]@);
    }
    assert forall|i: int| 0 <= i < q.len() implies (#[trigger] q[i]).len() > 0 && q[i][0] != ']' by {
        lemma_strings_apart(b[i]@, b[i]@);
    }
    lemma_array_field(p, x, q, y);
    assert forall|i: int| 0 <= i < a.len() implies (#[trigger] a[i])@ == b[i]@ by {
        assert(p[i] == q[i]);
        lemma_strings_apart(a[i]@, b[i]@);
    }
}

/// A text determines its UTF-8 form, and the form the text.
pub proof fn lemma_utf8_injective(a: Seq<char>, b: Seq<char>)
    requires
        vstd::utf8::encode_utf8(a) == vstd::utf8::encode_utf8(b),
    ensures
        a == b,
{
    broadcast use vstd::utf8::encode_utf8_decode_utf8;

    assert(vstd::utf8::decode_utf8(vstd::utf8::encode_utf8(a)) == a);
    assert(vstd::utf8::decode_utf8(vstd::utf8::encode_utf8(b)) == b);
}

} // verus!
