//! The part of ASN.1 DER that the composite signature uses: tag, definite
//! length of minimal form, contents.

use vstd::prelude::*;
use vstd::slice::slice_subrange;

verus! {

/// The longest contents that are encoded or decoded.
pub const MAX_LENGTH: usize = 0x0FFF_FFFF;

/// Tag of a `SEQUENCE`.
pub const TAG_SEQUENCE: u8 = 0x30;

/// Tag of an `OBJECT IDENTIFIER`.
pub const TAG_OID: u8 = 0x06;

/// Tag of an `OCTET STRING`.
pub const TAG_OCTET_STRING: u8 = 0x04;

/// The length octets of contents of `n` bytes.
pub open spec fn length_octets(n: nat) -> Seq<u8> {
    if n < 0x80 {
        seq![n as u8]
    } else if n < 0x100 {
        seq![0x81u8, n as u8]
    } else if n < 0x1_0000 {
        seq![0x82u8, (n / 0x100) as u8, (n % 0x100) as u8]
    } else if n < 0x100_0000 {
        seq![0x83u8, (n / 0x1_0000) as u8, (n / 0x100 % 0x100) as u8, (n % 0x100) as u8]
    } else {
        seq![
            0x84u8,
            (n / 0x100_0000) as u8,
            (n / 0x1_0000 % 0x100) as u8,
            (n / 0x100 % 0x100) as u8,
            (n % 0x100) as u8,
        ]
    }
}

/// One element: its tag, its length, its contents.
pub open spec fn element(tag: u8, contents: Seq<u8>) -> Seq<u8> {
    seq![tag] + length_octets(contents.len()) + contents
}

/// The length that `b` starts with and the bytes after it. A length that is
/// not of the shortest form, or beyond [`MAX_LENGTH`], is none.
pub open spec fn read_length(b: Seq<u8>) -> Option<(nat, Seq<u8>)> {
    if b.len() == 0 {
        None
    } else if b[0] < 0x80 {
        Some((b[0] as nat, b.skip(1)))
    } else if b[0] == 0x81 && b.len() >= 2 && b[1] >= 0x80 {
        Some((b[1] as nat, b.skip(2)))
    } else if b[0] == 0x82 && b.len() >= 3 && b[1] > 0 {
        Some(((0x100 * b[1] + b[2]) as nat, b.skip(3)))
    } else if b[0] == 0x83 && b.len() >= 4 && b[1] > 0 {
        Some(((0x1_0000 * b[1] + 0x100 * b[2] + b[3]) as nat, b.skip(4)))
    } else if b[0] == 0x84 && b.len() >= 5 && 0 < b[1] <= 0x0F {
        Some(
            (
                (0x100_0000 * b[1] + 0x1_0000 * b[2] + 0x100 * b[3] + b[4]) as nat,
                b.skip(5),
            ),
        )
    } else {
        None
    }
}

/// The contents of the element with tag `tag` that `b` starts with, and the
/// bytes after it.
pub open spec fn read_element(b: Seq<u8>, tag: u8) -> Option<(Seq<u8>, Seq<u8>)> {
    if b.len() == 0 || b[0] != tag {
        None
    } else {
        match read_length(b.skip(1)) {
            None => None,
            Some((n, rest)) => if rest.len() < n {
                None
            } else {
                Some((rest.subrange(0, n as int), rest.skip(n as int)))
            },
        }
    }
}

/// The dotted notation of an object identifier, if the octets are one.
pub uninterp spec fn oid_notation(octets: Seq<u8>) -> Option<Seq<char>>;

/// `der::asn1::ObjectIdentifier::from_bytes` on the contents of an `OBJECT
/// IDENTIFIER`, and the identifier in its `Display` form; nothing for octets
/// that it refuses. A function of the octets.
#[verifier::external_body]
pub(crate) fn oid_text(octets: &[u8]) -> (r: Option<String>)
    ensures
        match r {
            Some(t) => oid_notation(octets@) == Some(t@),
            None => oid_notation(octets@) is None,
        },
{
    ::der::asn1::ObjectIdentifier::from_bytes(octets).ok().map(|oid| oid.to_string())
}

proof fn lemma_three_bytes(n: nat, b1: u8, b2: u8, b3: u8)
    requires
        n == 0x1_0000 * b1 + 0x100 * b2 + b3,
    ensures
        n / 0x1_0000 == b1,
        n / 0x100 % 0x100 == b2,
        n % 0x100 == b3,
{
    assert(n / 0x100 == 0x100 * b1 + b2);
}

proof fn lemma_four_bytes(n: nat, b1: u8, b2: u8, b3: u8, b4: u8)
    requires
        n == 0x100_0000 * b1 + 0x1_0000 * b2 + 0x100 * b3 + b4,
    ensures
        n / 0x100_0000 == b1,
        n / 0x1_0000 % 0x100 == b2,
        n / 0x100 % 0x100 == b3,
        n % 0x100 == b4,
{
    assert(n / 0x1_0000 == 0x100 * b1 + b2);
    assert(n / 0x100 == 0x1_0000 * b1 + 0x100 * b2 + b3);
}

/// A length is read back, and only from its octets.
pub proof fn lemma_length(b: Seq<u8>, n: nat, rest: Seq<u8>)
    ensures
        n <= MAX_LENGTH ==> read_length(length_octets(n) + rest) == Some((n, rest)),
        read_length(b) == Some((n, rest)) ==> n <= MAX_LENGTH && b == length_octets(n) + rest,
{
    if n <= MAX_LENGTH {
        let e = length_octets(n) + rest;
        if n < 0x80 {
            assert(e.skip(1) =~= rest);
        } else if n < 0x100 {
            assert(e.skip(2) =~= rest);
        } else if n < 0x1_0000 {
            assert(e.skip(3) =~= rest);
        } else if n < 0x100_0000 {
            assert(e.skip(4) =~= rest);
            lemma_three_bytes(n, e[1], e[2], e[3]);
        } else {
            assert(e.skip(5) =~= rest);
            assert(n / 0x100_0000 <= 0x0F);
            lemma_four_bytes(n, e[1], e[2], e[3], e[4]);
        }
    }
    if read_length(b) == Some((n, rest)) {
        if b[0] < 0x80 || b[0] == 0x81 || b[0] == 0x82 {
            assert(b =~= length_octets(n) + rest);
        } else if b[0] == 0x83 {
            lemma_three_bytes(n, b[1], b[2], b[3]);
            assert(b =~= length_octets(n) + rest);
        } else {
            lemma_four_bytes(n, b[1], b[2], b[3], b[4]);
            assert(b =~= length_octets(n) + rest);
        }
    }
}

/// An element is read back, and only from its encoding.
pub proof fn lemma_element(b: Seq<u8>, tag: u8, contents: Seq<u8>, rest: Seq<u8>)
    ensures
        contents.len() <= MAX_LENGTH ==> read_element(element(tag, contents) + rest, tag) == Some(
            (contents, rest),
        ),
        read_element(b, tag) == Some((contents, rest)) ==> contents.len() <= MAX_LENGTH && b
            == element(tag, contents) + rest,
{
    let e = element(tag, contents) + rest;
    if contents.len() <= MAX_LENGTH {
        assert(e.skip(1) =~= length_octets(contents.len()) + (contents + rest));
        lemma_length(b, contents.len(), contents + rest);
        assert((contents + rest).subrange(0, contents.len() as int) =~= contents);
        assert((contents + rest).skip(contents.len() as int) =~= rest);
        assert(e[0] == tag);
    }
    if read_element(b, tag) == Some((contents, rest)) {
        let tail = b.skip(1);
        let (n, after) = read_length(tail)->0;
        lemma_length(tail, n, after);
        assert(after =~= contents + rest);
        assert(contents.len() == n);
        assert(b =~= seq![tag] + tail);
        assert(b =~= e);
    }
}

/// Append one element to `out`.
pub fn push_element(out: &mut Vec<u8>, tag: u8, contents: &[u8])
    requires
        contents@.len() <= MAX_LENGTH,
    ensures
        final(out)@ == old(out)@ + element(tag, contents@),
{
    let n: usize = contents.len();
    out.push(tag);
    if n < 0x80 {
        out.push(n as u8);
    } else if n < 0x100 {
        out.push(0x81);
        out.push(n as u8);
    } else if n < 0x1_0000 {
        out.push(0x82);
        out.push((n / 0x100) as u8);
        out.push((n % 0x100) as u8);
    } else if n < 0x100_0000 {
        out.push(0x83);
        out.push((n / 0x1_0000) as u8);
        out.push((n / 0x100 % 0x100) as u8);
        out.push((n % 0x100) as u8);
    } else {
        out.push(0x84);
        out.push((n / 0x100_0000) as u8);
        out.push((n / 0x1_0000 % 0x100) as u8);
        out.push((n / 0x100 % 0x100) as u8);
        out.push((n % 0x100) as u8);
    }
    assert(out@ =~= old(out)@ + (seq![tag] + length_octets(n as nat)));
    out.extend_from_slice(contents);
    assert(out@ =~= old(out)@ + element(tag, contents@));
}

/// Read the element with tag `tag` that `b` starts with.
pub fn take_element<'a>(b: &'a [u8], tag: u8) -> (r: Option<(&'a [u8], &'a [u8])>)
    ensures
        match r {
            Some((contents, rest)) => read_element(b@, tag) == Some((contents@, rest@)),
            None => read_element(b@, tag) is None,
        },
{
    let size: usize = b.len();
    if size < 2 || b[0] != tag {
        return None;
    }
    let ghost tail = b@.skip(1);
    let first: u8 = b[1];
    let head: usize;
    let n: usize;
    if first < 0x80 {
        head = 2;
        n = first as usize;
    } else if first == 0x81 && size >= 3 && b[2] >= 0x80 {
        head = 3;
        n = b[2] as usize;
    } else if first == 0x82 && size >= 4 && b[2] > 0 {
        head = 4;
        n = 0x100 * (b[2] as usize) + b[3] as usize;
    } else if first == 0x83 && size >= 5 && b[2] > 0 {
        head = 5;
        n = 0x1_0000 * (b[2] as usize) + 0x100 * (b[3] as usize) + b[4] as usize;
    } else if first == 0x84 && size >= 6 && b[2] > 0 && b[2] <= 0x0F {
        head = 6;
        n = 0x100_0000 * (b[2] as usize) + 0x1_0000 * (b[3] as usize) + 0x100 * (b[4] as usize)
            + b[5] as usize;
    } else {
        return None;
    }
    assert(read_length(tail) == Some((n as nat, tail.skip(head - 1))));
    assert(tail.skip(head - 1) =~= b@.skip(head as int));
    if size - head < n {
        return None;
    }
    let contents = slice_subrange(b, head, head + n);
    let rest = slice_subrange(b, head + n, size);
    assert(contents@ =~= b@.skip(head as int).subrange(0, n as int));
    assert(rest@ =~= b@.skip(head as int).skip(n as int));
    Some((contents, rest))
}

} // verus!
