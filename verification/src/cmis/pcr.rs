//! The aggregate digest of reported PCR values.

use vstd::prelude::*;
use crate::attest::tpm::{QuoteModel, SelectionModel, TPM_ALG_SHA384};
use crate::attest::verify;
use crate::primitives::hash;

verus! {

/// The value of one PCR among the first `n` reports: that of its last report,
/// and nothing without one.
pub open spec fn value_at(pcrs: Seq<(u8, Vec<u8>)>, index: int, n: int) -> Seq<u8>
    decreases n,
{
    if n <= 0 {
        Seq::empty()
    } else if pcrs[n - 1].0 == index {
        pcrs[n - 1].1@
    } else {
        value_at(pcrs, index, n - 1)
    }
}

/// The values of all PCRs below `limit`, in ascending order of index.
pub open spec fn values_below(pcrs: Seq<(u8, Vec<u8>)>, limit: int) -> Seq<u8>
    decreases limit,
{
    if limit <= 0 {
        Seq::empty()
    } else {
        values_below(pcrs, limit - 1) + value_at(pcrs, limit - 1, pcrs.len() as int)
    }
}

/// The aggregate digest of reported PCR values: SHA-384 of the values in
/// ascending order of index, the last report of an index standing for it.
pub open spec fn aggregate_of(pcrs: Seq<(u8, Vec<u8>)>) -> [u8; 48] {
    hash::sha384_of(values_below(pcrs, 256))
}

/// The aggregate digest of reported PCR values. Of several reports of one index
/// the last one counts.
pub fn aggregate_digest(pcrs: &[(u8, Vec<u8>)]) -> (r: [u8; 48])
    ensures
        r == aggregate_of(pcrs@),
{
    let mut values: Vec<u8> = Vec::new();
    let mut index: u16 = 0;
    while index < 256
        invariant
            index <= 256,
            values@ == values_below(pcrs@, index as int),
        decreases 256 - index,
    {
        let mut n: usize = pcrs.len();
        while n > 0 && pcrs[n - 1].0 as u16 != index
            invariant
                index < 256,
                n <= pcrs@.len(),
                value_at(pcrs@, index as int, pcrs@.len() as int) == value_at(
                    pcrs@,
                    index as int,
                    n as int,
                ),
            decreases n,
        {
            n -= 1;
        }
        if n > 0 {
            values.extend_from_slice(pcrs[n - 1].1.as_slice());
        }
        assert(values@ =~= values_below(pcrs@, index + 1));
        index += 1;
    }
    hash::sha384(values.as_slice())
}

/// Whether two lists report the same values in the same order.
pub open spec fn same_values(a: Seq<(u8, Vec<u8>)>, b: Seq<(u8, Vec<u8>)>) -> bool {
    &&& a.len() == b.len()
    &&& forall|i: int|
        0 <= i < a.len() ==> (#[trigger] a[i]).0 == (#[trigger] b[i]).0 && a[i].1@ == b[i].1@
}

proof fn lemma_value_at_same(a: Seq<(u8, Vec<u8>)>, b: Seq<(u8, Vec<u8>)>, index: int, n: int)
    requires
        same_values(a, b),
        n <= a.len(),
    ensures
        value_at(a, index, n) == value_at(b, index, n),
    decreases n,
{
    if n > 0 {
        lemma_value_at_same(a, b, index, n - 1);
        assert(a[n - 1].0 == b[n - 1].0);
    }
}

proof fn lemma_values_below_same(a: Seq<(u8, Vec<u8>)>, b: Seq<(u8, Vec<u8>)>, limit: int)
    requires
        same_values(a, b),
    ensures
        values_below(a, limit) == values_below(b, limit),
    decreases limit,
{
    if limit > 0 {
        lemma_values_below_same(a, b, limit - 1);
        lemma_value_at_same(a, b, limit - 1, a.len() as int);
    }
}

/// Reports as they come in, an index beyond the last taken for the last.
pub open spec fn capped(values: Seq<(u32, Vec<u8>)>) -> Seq<(u8, Vec<u8>)> {
    values.map_values(
        |v: (u32, Vec<u8>)|
            (if v.0 <= 255 {
                v.0 as u8
            } else {
                255u8
            }, v.1),
    )
}

/// The aggregate digest of reports as they come in.
pub fn reported_digest(values: &Vec<(u32, Vec<u8>)>) -> (r: [u8; 48])
    ensures
        r == aggregate_of(capped(values@)),
{
    let mut reports: Vec<(u8, Vec<u8>)> = Vec::new();
    let mut i: usize = 0;
    while i < values.len()
        invariant
            i <= values@.len(),
            reports@.len() == i,
            forall|j: int|
                0 <= j < i ==> (#[trigger] reports@[j]).0 == capped(values@)[j].0
                    && reports@[j].1@ == capped(values@)[j].1@,
        decreases values@.len() - i,
    {
        let index: u8 = if values[i].0 <= 255 {
            values[i].0 as u8
        } else {
            255
        };
        reports.push((index, vstd::slice::slice_to_vec(values[i].1.as_slice())));
        i += 1;
    }
    proof {
        lemma_values_below_same(reports@, capped(values@), 256);
    }
    aggregate_digest(reports.as_slice())
}

/// Whether no index is reported twice.
pub open spec fn distinct_indices(pcrs: Seq<(u8, Vec<u8>)>) -> bool {
    forall|i: int, j: int|
        0 <= i < j < pcrs.len() ==> (#[trigger] pcrs[i]).0 != (#[trigger] pcrs[j]).0
}

/// Whether two lists report the same values.
pub open spec fn same_reports(a: Seq<(u8, Vec<u8>)>, b: Seq<(u8, Vec<u8>)>) -> bool {
    &&& forall|i: int|
        0 <= i < a.len() ==> exists|j: int|
            0 <= j < b.len() && (#[trigger] b[j]).0 == (#[trigger] a[i]).0 && b[j].1@ == a[i].1@
    &&& forall|j: int|
        0 <= j < b.len() ==> exists|i: int|
            0 <= i < a.len() && (#[trigger] a[i]).0 == (#[trigger] b[j]).0 && b[j].1@ == a[i].1@
}

proof fn lemma_value_of_one(pcrs: Seq<(u8, Vec<u8>)>, k: int, n: int)
    requires
        distinct_indices(pcrs),
        0 <= k < n <= pcrs.len(),
    ensures
        value_at(pcrs, pcrs[k].0 as int, n) == pcrs[k].1@,
    decreases n,
{
    if n - 1 != k {
        assert(pcrs[k].0 != pcrs[n - 1].0);
        lemma_value_of_one(pcrs, k, n - 1);
    }
}

proof fn lemma_value_of_none(pcrs: Seq<(u8, Vec<u8>)>, index: int, n: int)
    requires
        0 <= n <= pcrs.len(),
        forall|i: int| 0 <= i < n ==> (#[trigger] pcrs[i]).0 != index,
    ensures
        value_at(pcrs, index, n) == Seq::<u8>::empty(),
    decreases n,
{
    if n > 0 {
        assert(pcrs[n - 1].0 != index);
        lemma_value_of_none(pcrs, index, n - 1);
    }
}

proof fn lemma_same_values(a: Seq<(u8, Vec<u8>)>, b: Seq<(u8, Vec<u8>)>, limit: int)
    requires
        distinct_indices(a),
        distinct_indices(b),
        same_reports(a, b),
    ensures
        values_below(a, limit) == values_below(b, limit),
    decreases limit,
{
    if limit > 0 {
        lemma_same_values(a, b, limit - 1);
        let index = limit - 1;
        if exists|i: int| 0 <= i < a.len() && (#[trigger] a[i]).0 == index {
            let i = choose|i: int| 0 <= i < a.len() && (#[trigger] a[i]).0 == index;
            let j = choose|j: int|
                0 <= j < b.len() && (#[trigger] b[j]).0 == a[i].0 && b[j].1@ == a[i].1@;
            assert(b[j].0 == a[i].0 && b[j].1@ == a[i].1@);
            lemma_value_of_one(a, i, a.len() as int);
            lemma_value_of_one(b, j, b.len() as int);
        } else {
            lemma_value_of_none(a, index, a.len() as int);
            assert forall|j: int| 0 <= j < b.len() implies (#[trigger] b[j]).0 != index by {
                if b[j].0 == index {
                    let i = choose|i: int|
                        0 <= i < a.len() && (#[trigger] a[i]).0 == b[j].0 && b[j].1@ == a[i].1@;
                    assert(a[i].0 == index);
                }
            }
            lemma_value_of_none(b, index, b.len() as int);
        }
    }
}

proof fn lemma_earlier_report(pcrs: Seq<(u8, Vec<u8>)>, i: int, j: int, index: int, n: int)
    requires
        0 <= i < j < pcrs.len(),
        pcrs[i].0 == pcrs[j].0,
        i < n <= pcrs.len(),
        n > j || index != pcrs[i].0,
    ensures
        value_at(pcrs.remove(i), index, n - 1) == value_at(pcrs, index, n),
    decreases n,
{
    let rest = pcrs.remove(i);
    if n - 1 == i {
        lemma_same_prefix(pcrs, rest, index, i);
    } else {
        assert(rest[n - 2] == pcrs[n - 1]);
        if pcrs[n - 1].0 != index {
            lemma_earlier_report(pcrs, i, j, index, n - 1);
        }
    }
}

proof fn lemma_same_prefix(a: Seq<(u8, Vec<u8>)>, b: Seq<(u8, Vec<u8>)>, index: int, n: int)
    requires
        n <= a.len(),
        n <= b.len(),
        forall|k: int| 0 <= k < n ==> a[k] == b[k],
    ensures
        value_at(a, index, n) == value_at(b, index, n),
    decreases n,
{
    if n > 0 {
        lemma_same_prefix(a, b, index, n - 1);
    }
}

proof fn lemma_earlier_reports(pcrs: Seq<(u8, Vec<u8>)>, i: int, j: int, limit: int)
    requires
        0 <= i < j < pcrs.len(),
        pcrs[i].0 == pcrs[j].0,
    ensures
        values_below(pcrs.remove(i), limit) == values_below(pcrs, limit),
    decreases limit,
{
    if limit > 0 {
        lemma_earlier_reports(pcrs, i, j, limit - 1);
        lemma_earlier_report(pcrs, i, j, limit - 1, pcrs.len() as int);
    }
}

/// Whether indices are reported in ascending order, each once.
pub open spec fn ascending(pcrs: Seq<(u8, Vec<u8>)>) -> bool {
    forall|i: int, j: int|
        0 <= i < j < pcrs.len() ==> (#[trigger] pcrs[i]).0 < (#[trigger] pcrs[j]).0
}

/// The values of reports, in the order in which they came.
pub open spec fn report_values(pcrs: Seq<(u8, Vec<u8>)>) -> Seq<Seq<u8>> {
    pcrs.map_values(|p: (u8, Vec<u8>)| p.1@)
}

/// Below `limit` stand exactly the first `n` of ascending reports.
proof fn lemma_values_in_order(pcrs: Seq<(u8, Vec<u8>)>, n: int, limit: int)
    requires
        ascending(pcrs),
        0 <= n <= pcrs.len(),
        0 <= limit,
        forall|i: int| 0 <= i < pcrs.len() ==> ((#[trigger] pcrs[i]).0 < limit <==> i < n),
    ensures
        values_below(pcrs, limit) == report_values(pcrs.take(n)).flatten(),
    decreases limit,
{
    let all = report_values(pcrs.take(n));
    if limit == 0 {
        if n > 0 {
            assert(pcrs[0].0 < limit);
        }
        assert(all =~= Seq::<Seq<u8>>::empty());
    } else {
        let index = limit - 1;
        if n > 0 && pcrs[n - 1].0 == index {
            assert forall|i: int| 0 <= i < pcrs.len() implies ((#[trigger] pcrs[i]).0 < index <==> i
                < n - 1) by {
                if i < n - 1 {
                    assert(pcrs[i].0 < pcrs[n - 1].0);
                }
            }
            lemma_values_in_order(pcrs, n - 1, index);
            assert(distinct_indices(pcrs));
            lemma_value_of_one(pcrs, n - 1, pcrs.len() as int);
            let before = report_values(pcrs.take(n - 1));
            assert(all =~= before.push(pcrs[n - 1].1@));
            before.lemma_flatten_push(pcrs[n - 1].1@);
        } else {
            assert forall|i: int| 0 <= i < pcrs.len() implies (#[trigger] pcrs[i]).0 != index by {
                if pcrs[i].0 == index {
                    assert(i < n);
                    if i < n - 1 {
                        assert(pcrs[i].0 < pcrs[n - 1].0);
                    }
                }
            }
            assert forall|i: int| 0 <= i < pcrs.len() implies ((#[trigger] pcrs[i]).0 < index <==> i
                < n) by {
                assert(pcrs[i].0 != index);
            }
            lemma_values_in_order(pcrs, n, index);
            lemma_value_of_none(pcrs, index, pcrs.len() as int);
            assert(values_below(pcrs, limit) =~= values_below(pcrs, index));
        }
    }
}

/// Every report counts, whatever its index: of reports in ascending order the
/// aggregate is the digest of all their values in a row.
pub proof fn law_every_report_counts(pcrs: Seq<(u8, Vec<u8>)>)
    requires
        ascending(pcrs),
    ensures
        aggregate_of(pcrs) == hash::sha384_of(report_values(pcrs).flatten()),
{
    lemma_values_in_order(pcrs, pcrs.len() as int, 256);
    assert(pcrs.take(pcrs.len() as int) =~= pcrs);
}

/// Every report counts as it comes in: of PCRs in ascending order the aggregate
/// is the digest of all their values in a row, so that a report of the PCRs that
/// were attested, unchanged, gives the digest that was attested.
pub proof fn law_incoming_reports_count(values: Seq<(u32, Vec<u8>)>)
    requires
        forall|i: int| 0 <= i < values.len() ==> (#[trigger] values[i]).0 <= 255,
        forall|i: int, j: int|
            0 <= i < j < values.len() ==> (#[trigger] values[i]).0 < (#[trigger] values[j]).0,
    ensures
        aggregate_of(capped(values)) == hash::sha384_of(
            values.map_values(|v: (u32, Vec<u8>)| v.1@).flatten(),
        ),
{
    let pcrs = capped(values);
    assert forall|i: int, j: int| 0 <= i < j < pcrs.len() implies (#[trigger] pcrs[i]).0 < (
    #[trigger] pcrs[j]).0 by {
        assert(values[i].0 < values[j].0);
    }
    law_every_report_counts(pcrs);
    assert(report_values(pcrs) =~= values.map_values(|v: (u32, Vec<u8>)| v.1@));
}

/// Whether a PCR is reported.
pub open spec fn reports(pcrs: Seq<(u8, Vec<u8>)>, p: u8) -> bool {
    exists|i: int| 0 <= i < pcrs.len() && (#[trigger] pcrs[i]).0 == p
}

/// The aggregate of reports is the one that quote verification accepts for the
/// same PCRs: reports of exactly the PCRs that a quote selects, in ascending
/// order, have the aggregate of the quote.
pub proof fn law_reports_match_quote(
    quote: QuoteModel,
    bitmap: Seq<u8>,
    pcrs: Seq<(u8, Vec<u8>)>,
    values: Map<u8, Seq<u8>>,
)
    requires
        quote.pcr_selection == seq![SelectionModel { hash_alg: TPM_ALG_SHA384, bitmap }],
        ascending(pcrs),
        forall|p: u8| #[trigger]
            reports(pcrs, p) <==> p as int / 8 < bitmap.len() && bitmap[p as int / 8] & (1u8 << (p
                % 8)) != 0,
        forall|i: int|
            0 <= i < pcrs.len() ==> values.dom().contains((#[trigger] pcrs[i]).0)
                && values[pcrs[i].0] == pcrs[i].1@,
    ensures
        verify::aggregate(quote, values) == Ok::<_, u8>(aggregate_of(pcrs)),
{
    let indices = pcrs.map_values(|p: (u8, Vec<u8>)| p.0);
    assert forall|p: u8| #[trigger] indices.contains(p) <==> p as int / 8 < bitmap.len()
        && bitmap[p as int / 8] & (1u8 << (p % 8)) != 0 by {
        if indices.contains(p) {
            let i = choose|i: int| 0 <= i < indices.len() && indices[i] == p;
            assert(pcrs[i].0 == p);
            assert(reports(pcrs, p));
        }
        if reports(pcrs, p) {
            let i = choose|i: int| 0 <= i < pcrs.len() && (#[trigger] pcrs[i]).0 == p;
            assert(indices[i] == p);
        }
    }
    verify::law_aggregate_covers_selection(quote, bitmap, values, indices);
    law_every_report_counts(pcrs);
    assert(indices.map_values(|i: u8| values[i]) =~= report_values(pcrs));
    assert forall|i: int| 0 <= i < indices.len() implies values.dom().contains(
        #[trigger] indices[i],
    ) by {
        assert(indices[i] == pcrs[i].0);
    }
    if let Err(i) = verify::aggregate(quote, values) {
        let k = choose|k: int| 0 <= k < indices.len() && indices[k] == i;
        assert(values.dom().contains(indices[k]));
    }
}

/// A report of a PCR that is reported again later does not matter: the last
/// report wins.
pub proof fn law_last_report_wins(pcrs: Seq<(u8, Vec<u8>)>, i: int, j: int)
    requires
        0 <= i < j < pcrs.len(),
        pcrs[i].0 == pcrs[j].0,
    ensures
        aggregate_of(pcrs.remove(i)) == aggregate_of(pcrs),
{
    lemma_earlier_reports(pcrs, i, j, 256);
}

/// The order in which distinct PCRs are reported does not matter.
pub proof fn law_aggregate_order_independent(a: Seq<(u8, Vec<u8>)>, b: Seq<(u8, Vec<u8>)>)
    requires
        distinct_indices(a),
        distinct_indices(b),
        same_reports(a, b),
    ensures
        aggregate_of(a) == aggregate_of(b),
{
    lemma_same_values(a, b, 256);
}

} // verus!
