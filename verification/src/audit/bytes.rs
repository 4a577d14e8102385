//! Fixed-size byte strings of audit records.

use vstd::prelude::*;
use crate::primitives::bytes::take_array;
use crate::primitives::cbor::{CborItem, CborModel};

verus! {

/// A digest of 48 bytes.
#[derive(Debug, Clone, Copy, PartialEq, Eq, Hash)]
pub struct Hash384(pub [u8; 48]);

/// An identifier of 16 bytes.
#[derive(Debug, Clone, Copy, PartialEq, Eq, Hash)]
pub struct Bytes16(pub [u8; 16]);

impl View for Hash384 {
    type V = Seq<u8>;

    open spec fn view(&self) -> Seq<u8> {
        self.0@
    }
}

impl View for Bytes16 {
    type V = Seq<u8>;

    open spec fn view(&self) -> Seq<u8> {
        self.0@
    }
}

impl From<[u8; 48]> for Hash384 {
    fn from(bytes: [u8; 48]) -> (r: Self) {
        Hash384(bytes)
    }
}

impl vstd::std_specs::convert::FromSpecImpl<[u8; 48]> for Hash384 {
    open spec fn obeys_from_spec() -> bool {
        true
    }

    open spec fn from_spec(bytes: [u8; 48]) -> Self {
        Hash384(bytes)
    }
}

impl From<[u8; 16]> for Bytes16 {
    fn from(bytes: [u8; 16]) -> (r: Self) {
        Bytes16(bytes)
    }
}

impl vstd::std_specs::convert::FromSpecImpl<[u8; 16]> for Bytes16 {
    open spec fn obeys_from_spec() -> bool {
        true
    }

    open spec fn from_spec(bytes: [u8; 16]) -> Self {
        Bytes16(bytes)
    }
}

/// The bytes that an item stands for: a byte string, or an array of numbers
/// below 256.
pub open spec fn octets(item: CborModel) -> Option<Seq<u8>> {
    match item {
        CborModel::Bytes(b) => Some(b),
        CborModel::Array(a) => if forall|i: int| 0 <= i < a.len() ==> is_octet(#[trigger] a[i]) {
            Some(a.map_values(|x: Option<i128>| x->0 as u8))
        } else {
            None
        },
        _ => None,
    }
}

/// Whether an array element is a number below 256.
pub open spec fn is_octet(x: Option<i128>) -> bool {
    x matches Some(n) && 0 <= n <= 255
}

/// The byte string of `n` bytes that an item stands for.
pub open spec fn fixed_octets(item: CborModel, n: nat) -> Option<Seq<u8>> {
    match octets(item) {
        Some(b) => if b.len() == n {
            Some(b)
        } else {
            None
        },
        None => None,
    }
}

/// The bytes that an item stands for.
pub fn item_octets(item: &CborItem) -> (r: Option<Vec<u8>>)
    ensures
        match r {
            Some(b) => octets(item@) == Some(b@),
            None => octets(item@) is None,
        },
{
    match item {
        CborItem::Bytes(b) => Some(vstd::slice::slice_to_vec(b.as_slice())),
        CborItem::Array(a) => {
            let mut out: Vec<u8> = Vec::new();
            let mut i: usize = 0;
            while i < a.len()
                invariant
                    item@ == CborModel::Array(a@),
                    i <= a@.len(),
                    out@.len() == i,
                    forall|j: int| 0 <= j < i ==> is_octet(#[trigger] a@[j]),
                    forall|j: int| 0 <= j < i ==> #[trigger] out@[j] == a@[j]->0 as u8,
                decreases a@.len() - i,
            {
                match a[i] {
                    Some(n) => {
                        if n < 0 || n > 255 {
                            assert(!is_octet(a@[i as int]));
                            return None;
                        }
                        out.push(n as u8);
                    },
                    None => {
                        assert(!is_octet(a@[i as int]));
                        return None;
                    },
                }
                i += 1;
            }
            assert(out@ =~= a@.map_values(|x: Option<i128>| x->0 as u8));
            Some(out)
        },
        _ => None,
    }
}

impl Hash384 {
    /// The digest that an item stands for.
    pub fn from_item(item: &CborItem) -> (r: Option<Self>)
        ensures
            match r {
                Some(h) => fixed_octets(item@, 48) == Some(h@),
                None => fixed_octets(item@, 48) is None,
            },
    {
        let b = item_octets(item)?;
        if b.len() != 48 {
            return None;
        }
        let h: [u8; 48] = take_array::<48>(b.as_slice(), 0);
        assert(h@ =~= b@);
        Some(Hash384(h))
    }

    /// The byte string of this digest.
    pub fn to_item(&self) -> (r: CborItem)
        ensures
            r@ == CborModel::Bytes(self@),
    {
        CborItem::Bytes(vstd::slice::slice_to_vec(self.0.as_slice()))
    }
}

impl Bytes16 {
    /// The identifier that an item stands for.
    pub fn from_item(item: &CborItem) -> (r: Option<Self>)
        ensures
            match r {
                Some(h) => fixed_octets(item@, 16) == Some(h@),
                None => fixed_octets(item@, 16) is None,
            },
    {
        let b = item_octets(item)?;
        if b.len() != 16 {
            return None;
        }
        let h: [u8; 16] = take_array::<16>(b.as_slice(), 0);
        assert(h@ =~= b@);
        Some(Bytes16(h))
    }

    /// The byte string of this identifier.
    pub fn to_item(&self) -> (r: CborItem)
        ensures
            r@ == CborModel::Bytes(self@),
    {
        CborItem::Bytes(vstd::slice::slice_to_vec(self.0.as_slice()))
    }
}

} // verus!
