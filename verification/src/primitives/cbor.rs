//! CBOR items, by the `ciborium` crate.

use ciborium::Value::{Array, Bytes, Integer, Text};
use ciborium::{from_reader, into_writer, Value};
use vstd::prelude::*;

verus! {

/// A CBOR item inside another, as far as records of this library need it.
#[derive(Debug, Clone, PartialEq, Eq)]
pub enum CborItem {
    /// An integer.
    Integer(i128),
    /// A byte string.
    Bytes(Vec<u8>),
    /// A text string.
    Text(String),
    /// An array: of each element, its value if it is an integer.
    Array(Vec<Option<i128>>),
    /// Anything else.
    Other,
}

/// The contents of a [`CborItem`].
#[verifier::ext_equal]
pub enum CborModel {
    Integer(i128),
    Bytes(Seq<u8>),
    Text(Seq<char>),
    Array(Seq<Option<i128>>),
    Other,
}

impl View for CborItem {
    type V = CborModel;

    open spec fn view(&self) -> CborModel {
        match self {
            CborItem::Integer(n) => CborModel::Integer(*n),
            CborItem::Bytes(b) => CborModel::Bytes(b@),
            CborItem::Text(t) => CborModel::Text(t@),
            CborItem::Array(a) => CborModel::Array(a@),
            CborItem::Other => CborModel::Other,
        }
    }
}

impl CborItem {
    /// A copy.
    pub fn duplicate(&self) -> (r: Self)
        ensures
            r@ == self@,
    {
        match self {
            CborItem::Integer(n) => CborItem::Integer(*n),
            CborItem::Bytes(b) => CborItem::Bytes(vstd::slice::slice_to_vec(b.as_slice())),
            CborItem::Text(t) => CborItem::Text(t.as_str().to_owned()),
            CborItem::Array(a) => CborItem::Array(vstd::slice::slice_to_vec(a.as_slice())),
            CborItem::Other => CborItem::Other,
        }
    }
}

/// A CBOR item that stands by itself.
#[derive(Debug, Clone, PartialEq, Eq)]
pub enum CborDoc {
    /// A map: its entries in their order.
    Entries(Vec<(CborItem, CborItem)>),
    /// An array: its elements in their order.
    Elements(Vec<CborItem>),
    /// Anything else.
    Other,
}

/// The contents of a [`CborDoc`].
#[verifier::ext_equal]
pub enum DocModel {
    Entries(Seq<(CborModel, CborModel)>),
    Elements(Seq<CborModel>),
    Other,
}

impl View for CborDoc {
    type V = DocModel;

    open spec fn view(&self) -> DocModel {
        match self {
            CborDoc::Entries(m) => DocModel::Entries(entries_view(m@)),
            CborDoc::Elements(a) => DocModel::Elements(items_view(a@)),
            CborDoc::Other => DocModel::Other,
        }
    }
}

/// The elements of an array that was read.
pub open spec fn items_view(items: Seq<CborItem>) -> Seq<CborModel> {
    items.map_values(|i: CborItem| i@)
}

/// Whether an item is one that records are written with: an integer of 64
/// bits, a byte string or a text.
pub open spec fn writable(item: CborModel) -> bool {
    match item {
        CborModel::Integer(n) => i64::MIN <= n <= u64::MAX,
        CborModel::Bytes(_) => true,
        CborModel::Text(_) => true,
        _ => false,
    }
}

/// The entries of a map that was read.
pub open spec fn entries_view(entries: Seq<(CborItem, CborItem)>) -> Seq<(CborModel, CborModel)> {
    entries.map_values(|e: (CborItem, CborItem)| (e.0@, e.1@))
}

/// The fields of a map to write.
pub open spec fn fields_view(fields: Seq<(&'static str, CborItem)>) -> Seq<(Seq<char>, CborModel)> {
    fields.map_values(|f: (&'static str, CborItem)| (f.0@, f.1@))
}

/// Fields as the entries of a map: each name is a text.
pub open spec fn as_entries(fields: Seq<(Seq<char>, CborModel)>) -> Seq<(CborModel, CborModel)> {
    fields.map_values(|f: (Seq<char>, CborModel)| (CborModel::Text(f.0), f.1))
}

/// What `ciborium::into_writer` writes for a map from text to integers, byte
/// strings and texts.
pub uninterp spec fn cbor_map_bytes(fields: Seq<(Seq<char>, CborModel)>) -> Seq<u8>;

/// What `ciborium::from_reader` reads from the front of some bytes: an item, or
/// what it says of bytes that hold none.
pub uninterp spec fn cbor_value(bytes: Seq<u8>) -> Result<DocModel, Seq<char>>;

/// `ciborium::into_writer` on a map, into a vector, which takes all bytes:
/// writing does not fail, and what was written is read back as it was.
#[verifier::external_body]
pub(crate) fn write_map(fields: Vec<(&'static str, CborItem)>) -> (r: Vec<u8>)
    requires
        forall|i: int| 0 <= i < fields@.len() ==> writable((#[trigger] fields@[i]).1@),
    ensures
        r@ == cbor_map_bytes(fields_view(fields@)),
        cbor_value(r@) is Ok,
        cbor_value(r@)->Ok_0 == DocModel::Entries(as_entries(fields_view(fields@))),
{
    let item = |v: CborItem| match v {
        CborItem::Integer(n) => Value::from(n),
        CborItem::Bytes(b) => Bytes(b),
        CborItem::Text(t) => Text(t),
        CborItem::Array(_) | CborItem::Other => Value::Null,
    };
    let map = fields.into_iter().map(|(k, v)| (Text(k.to_owned()), item(v))).collect();
    let mut out = Vec::new();
    into_writer(&Value::Map(map), &mut out).expect("a vector takes all bytes");
    out
}

/// `ciborium::from_reader` on bytes: the item that they begin with. How the fault of bytes that hold no item is worded, and how an item is
/// read that [`write_map`] would have written otherwise, is left to the name.
#[verifier::external_body]
pub(crate) fn read_item(bytes: &[u8]) -> (r: Result<CborDoc, String>)
    ensures
        match r {
            Ok(doc) => cbor_value(bytes@) == Ok::<_, Seq<char>>(doc@),
            Err(e) => cbor_value(bytes@) == Err::<DocModel, _>(e@),
        },
{
    let item = |v: Value| match v {
        Integer(n) => CborItem::Integer(n.into()),
        Bytes(b) => CborItem::Bytes(b),
        Text(t) => CborItem::Text(t),
        Array(a) => CborItem::Array(a.iter().map(|x| x.as_integer().map(i128::from)).collect()),
        _ => CborItem::Other,
    };
    Ok(match from_reader(bytes).map_err(|e| e.to_string())? {
        Value::Map(m) => CborDoc::Entries(m.into_iter().map(|(k, v)| (item(k), item(v))).collect()),
        Array(a) => CborDoc::Elements(a.into_iter().map(item).collect()),
        _ => CborDoc::Other,
    })
}

/// Whether an item names a field: the name as a text, or as the bytes of it.
pub open spec fn named(item: CborModel, name: Seq<char>) -> bool {
    match item {
        CborModel::Text(t) => t == name,
        CborModel::Bytes(b) => b == vstd::utf8::encode_utf8(name),
        _ => false,
    }
}

/// The values under a name, from entry `i` on.
pub open spec fn values_from(
    entries: Seq<(CborModel, CborModel)>,
    name: Seq<char>,
    i: nat,
) -> Seq<CborModel>
    decreases entries.len() - i,
{
    if i >= entries.len() {
        seq![]
    } else if named(entries[i as int].0, name) {
        seq![entries[i as int].1] + values_from(entries, name, i + 1)
    } else {
        values_from(entries, name, i + 1)
    }
}

/// The value of a field: there must be exactly one.
pub open spec fn field_of(entries: Seq<(CborModel, CborModel)>, name: Seq<char>) -> Option<
    CborModel,
> {
    let values = values_from(entries, name, 0);
    if values.len() == 1 {
        Some(values[0])
    } else {
        None
    }
}

/// Whether an item names a field.
pub fn is_named(item: &CborItem, name: &str) -> (r: bool)
    ensures
        r == named(item@, name@),
{
    match item {
        CborItem::Text(t) => crate::primitives::text::same_text(t.as_str(), name),
        CborItem::Bytes(b) => crate::primitives::bytes::bytes_equal(
            b.as_slice(),
            name.as_bytes(),
        ),
        _ => false,
    }
}

/// The value of a field, if the name stands for exactly one.
pub fn field<'a>(entries: &'a Vec<(CborItem, CborItem)>, name: &str) -> (r: Option<&'a CborItem>)
    ensures
        match r {
            Some(v) => field_of(entries_view(entries@), name@) == Some(v@),
            None => field_of(entries_view(entries@), name@) is None,
        },
{
    let ghost m = entries_view(entries@);
    let mut found: Option<&'a CborItem> = None;
    let mut i: usize = 0;
    while i < entries.len()
        invariant
            m == entries_view(entries@),
            i <= entries@.len(),
            match found {
                None => values_from(m, name@, 0) == values_from(m, name@, i as nat),
                Some(v) => values_from(m, name@, 0) == seq![v@] + values_from(m, name@, i as nat),
            },
        decreases entries@.len() - i,
    {
        assert(m[i as int] == (entries@[i as int].0@, entries@[i as int].1@));
        if is_named(&entries[i].0, name) {
            if found.is_some() {
                return None;
            }
            found = Some(&entries[i].1);
        }
        i += 1;
    }
    found
}

proof fn lemma_values_from(entries: Seq<(CborModel, CborModel)>, name: Seq<char>, i: nat)
    requires
        i <= entries.len(),
        forall|j: int| i <= j < entries.len() ==> !named((#[trigger] entries[j]).0, name),
    ensures
        values_from(entries, name, i).len() == 0,
    decreases entries.len() - i,
{
    if i < entries.len() {
        lemma_values_from(entries, name, i + 1);
    }
}

proof fn lemma_values_skip(entries: Seq<(CborModel, CborModel)>, name: Seq<char>, i: nat, k: nat)
    requires
        i <= k <= entries.len(),
        forall|j: int| i <= j < k ==> !named((#[trigger] entries[j]).0, name),
    ensures
        values_from(entries, name, i) == values_from(entries, name, k),
    decreases k - i,
{
    if i < k {
        assert(!named(entries[i as int].0, name));
        lemma_values_skip(entries, name, i + 1, k);
    }
}

/// A field that stands in a map once is found wherever it stands, and has its
/// own value.
pub proof fn law_field_found(entries: Seq<(CborModel, CborModel)>, name: Seq<char>, k: int)
    requires
        0 <= k < entries.len(),
        named(entries[k].0, name),
        forall|j: int|
            0 <= j < entries.len() && j != k ==> !named((#[trigger] entries[j]).0, name),
    ensures
        field_of(entries, name) == Some(entries[k].1),
{
    lemma_values_skip(entries, name, 0, k as nat);
    lemma_values_from(entries, name, (k + 1) as nat);
    assert(values_from(entries, name, k as nat) =~= seq![entries[k].1]);
}

/// A field that stands in a map nowhere, or twice, has no value.
pub proof fn law_field_refused(
    entries: Seq<(CborModel, CborModel)>,
    name: Seq<char>,
    i: int,
    j: int,
)
    ensures
        (forall|k: int| 0 <= k < entries.len() ==> !named((#[trigger] entries[k]).0, name))
            ==> field_of(entries, name) is None,
        0 <= i < j < entries.len() && named(entries[i].0, name) && named(entries[j].0, name)
            ==> field_of(entries, name) is None,
{
    if forall|k: int| 0 <= k < entries.len() ==> !named((#[trigger] entries[k]).0, name) {
        lemma_values_from(entries, name, 0);
    }
    if 0 <= i < j < entries.len() && named(entries[i].0, name) && named(entries[j].0, name) {
        lemma_values_count(entries, name, 0, i as nat);
        lemma_values_count(entries, name, (i + 1) as nat, j as nat);
    }
}

proof fn lemma_values_count(
    entries: Seq<(CborModel, CborModel)>,
    name: Seq<char>,
    from: nat,
    k: nat,
)
    requires
        from <= k < entries.len(),
        named(entries[k as int].0, name),
    ensures
        values_from(entries, name, from).len() >= 1 + values_from(entries, name, k + 1).len(),
    decreases k - from,
{
    if from < k {
        lemma_values_count(entries, name, from + 1, k);
    }
}

} // verus!
