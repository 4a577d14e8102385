//! Byte-sequence helpers.

use subtle::ConstantTimeEq;
use vstd::prelude::*;
use zeroize::Zeroize;

verus! {

/// Whether two byte slices hold the same bytes.
pub fn bytes_equal(a: &[u8], b: &[u8]) -> (r: bool)
    ensures
        r == (a@ == b@),
{
    if a.len() != b.len() {
        return false;
    }
    let mut i: usize = 0;
    while i < a.len()
        invariant
            a@.len() == b@.len(),
            i <= a@.len(),
            forall|j: int| 0 <= j < i ==> a@[j] == b@[j],
        decreases a@.len() - i,
    {
        if a[i] != b[i] {
            return false;
        }
        i += 1;
    }
    assert(a@ =~= b@);
    true
}

/// Whether two byte arrays are equal.
pub fn arrays_equal<const N: usize>(a: &[u8; N], b: &[u8; N]) -> (r: bool)
    ensures
        r == (*a == *b),
{
    let same = bytes_equal(a.as_slice(), b.as_slice());
    proof {
        if a@ == b@ {
            assert forall|i: int| 0 <= i < N implies a[i] == b[i] by {
                assert(a@[i] == b@[i]);
            }
            assert(*a =~= *b);
        }
    }
    same
}

/// `subtle::ConstantTimeEq::ct_eq` on slices: whether they hold the same bytes;
/// slices of different lengths do not. That the time taken does not depend on
/// the bytes is not part of the contract.
#[verifier::external_body]
pub(crate) fn ct_bytes_equal(a: &[u8], b: &[u8]) -> (r: bool)
    ensures
        r == (a@ == b@),
{
    a.ct_eq(b).into()
}

/// 32 zero bytes.
pub open spec fn zeros_32() -> Seq<u8> {
    Seq::new(32, |i: int| 0u8)
}

/// `zeroize::Zeroize::zeroize` on 32 bytes: all of them are zero afterwards. That
/// the writes are not optimised away is not part of the contract.
#[verifier::external_body]
pub(crate) fn wipe_32(b: &mut [u8; 32])
    ensures
        final(b)@ == zeros_32(),
    opens_invariants none
    no_unwind
{
    b.zeroize();
}

/// Arrays with equal views are equal.
pub proof fn lemma_array_view_injective<const N: usize>(a: [u8; N], b: [u8; N])
    requires
        a@ == b@,
    ensures
        a == b,
{
    assert forall|i: int| 0 <= i < N implies a[i] == b[i] by {
        assert(a@[i] == b@[i]);
    }
    assert(a =~= b);
}

/// The `N` bytes of `s` from position `at` on.
pub fn take_array<const N: usize>(s: &[u8], at: usize) -> (r: [u8; N])
    requires
        at + N <= s@.len(),
    ensures
        r@ == s@.subrange(at as int, at + N),
{
    let size: usize = s.len();
    let mut out: [u8; N] = [0u8; N];
    let mut i: usize = 0;
    while i < N
        invariant
            i <= N,
            at + N <= s@.len() == size,
            forall|j: int| 0 <= j < i ==> out@[j] == s@[at + j],
        decreases N - i,
    {
        out[i] = s[at + i];
        i += 1;
    }
    assert(out@ =~= s@.subrange(at as int, at + N));
    out
}

/// The big-endian bytes of a 64-bit number.
pub open spec fn be64(n: u64) -> Seq<u8> {
    Seq::new(8, |i: int| be64_byte(n, i))
}

/// Byte `i` of the big-endian form of `n`.
pub open spec fn be64_byte(n: u64, i: int) -> u8 {
    (n >> ((8 * (7 - i)) as u64)) as u8
}

/// The big-endian bytes of `n`.
pub fn u64_to_be(n: u64) -> (r: [u8; 8])
    ensures
        r@ == be64(n),
{
    let r: [u8; 8] = [
        (n >> 56) as u8,
        (n >> 48) as u8,
        (n >> 40) as u8,
        (n >> 32) as u8,
        (n >> 24) as u8,
        (n >> 16) as u8,
        (n >> 8) as u8,
        n as u8,
    ];
    assert((n >> 0u64) as u8 == n as u8) by (bit_vector);
    assert(r@ =~= be64(n));
    r
}

/// The big-endian form tells 64-bit numbers apart.
pub proof fn lemma_be64_injective(a: u64, b: u64)
    requires
        be64(a) == be64(b),
    ensures
        a == b,
{
    assert forall|i: int| 0 <= i < 8 implies be64_byte(a, i) == be64_byte(b, i) by {
        assert(be64(a)[i] == be64_byte(a, i));
        assert(be64(b)[i] == be64_byte(b, i));
    }
    assert(be64_byte(a, 0) == be64_byte(b, 0));
    assert(be64_byte(a, 1) == be64_byte(b, 1));
    assert(be64_byte(a, 2) == be64_byte(b, 2));
    assert(be64_byte(a, 3) == be64_byte(b, 3));
    assert(be64_byte(a, 4) == be64_byte(b, 4));
    assert(be64_byte(a, 5) == be64_byte(b, 5));
    assert(be64_byte(a, 6) == be64_byte(b, 6));
    assert(be64_byte(a, 7) == be64_byte(b, 7));
    assert(a == b) by (bit_vector)
        requires
            (a >> 56u64) as u8 == (b >> 56u64) as u8,
            (a >> 48u64) as u8 == (b >> 48u64) as u8,
            (a >> 40u64) as u8 == (b >> 40u64) as u8,
            (a >> 32u64) as u8 == (b >> 32u64) as u8,
            (a >> 24u64) as u8 == (b >> 24u64) as u8,
            (a >> 16u64) as u8 == (b >> 16u64) as u8,
            (a >> 8u64) as u8 == (b >> 8u64) as u8,
            (a >> 0u64) as u8 == (b >> 0u64) as u8,
    ;
}

/// The big-endian bytes of a signed 64-bit number, in two's complement.
pub open spec fn be64_signed(n: i64) -> Seq<u8> {
    be64(n as u64)
}

/// The big-endian bytes of a signed 64-bit number, in two's complement.
pub fn i64_to_be(n: i64) -> (r: [u8; 8])
    ensures
        r@ == be64_signed(n),
{
    u64_to_be(n as u64)
}

/// The big-endian form tells signed 64-bit numbers apart.
pub proof fn lemma_be64_signed_injective(a: i64, b: i64)
    requires
        be64_signed(a) == be64_signed(b),
    ensures
        a == b,
{
    lemma_be64_injective(a as u64, b as u64);
    assert(a == b) by (bit_vector)
        requires
            a as u64 == b as u64,
    ;
}

/// Bytes with their length before them.
pub open spec fn field(b: Seq<u8>) -> Seq<u8> {
    be64(b.len() as u64) + b
}

/// Append bytes, with their length before them.
pub fn push_field(out: &mut Vec<u8>, b: &[u8])
    ensures
        final(out)@ == old(out)@ + field(b@),
{
    let len: u64 = b.len() as u64;
    out.extend_from_slice(u64_to_be(len).as_slice());
    out.extend_from_slice(b);
    assert(out@ =~= old(out)@ + field(b@));
}

/// Where two texts that begin with fields are the same, so are the fields, and
/// what follows them.
pub proof fn lemma_field_injective(a: Seq<u8>, rest_a: Seq<u8>, b: Seq<u8>, rest_b: Seq<u8>)
    requires
        a.len() <= u64::MAX,
        b.len() <= u64::MAX,
        field(a) + rest_a == field(b) + rest_b,
    ensures
        a == b,
        rest_a == rest_b,
{
    let s = field(a) + rest_a;
    let t = field(b) + rest_b;
    assert(be64(a.len() as u64) =~= s.subrange(0, 8));
    assert(be64(b.len() as u64) =~= t.subrange(0, 8));
    lemma_be64_injective(a.len() as u64, b.len() as u64);
    let n = a.len() as int;
    assert(a =~= s.subrange(8, 8 + n));
    assert(b =~= t.subrange(8, 8 + n));
    assert(rest_a =~= s.skip(8 + n));
    assert(rest_b =~= t.skip(8 + n));
}

} // verus!
