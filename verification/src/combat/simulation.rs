//! The integer statistics of repeated combats: histogram bins of damage
//! samples, and the rank of a value among samples. The fractions and means
//! built on them are computed by the application.

use vstd::prelude::*;

use crate::combat::engine;
use crate::combat::dice;
use crate::combat::dice::DiceLog;
use crate::combat::engine::checked_resolve_combat_logged;
use crate::combat::types::CombatResult;
use crate::data::models::{CritEffect, Unit, Weapon};

verus! {

/// The width of histogram bins for samples up to `max_value`: 5 above 30,
/// 2 above 15, 1 otherwise.
pub open spec fn bin_size_for(max_value: nat) -> nat {
    if max_value > 30 {
        5
    } else if max_value > 15 {
        2
    } else {
        1
    }
}

/// The width of histogram bins for samples up to `max_value`.
pub fn histogram_bin_size(max_value: usize) -> (r: usize)
    ensures
        r == bin_size_for(max_value as nat),
{
    if max_value > 30 {
        5
    } else if max_value > 15 {
        2
    } else {
        1
    }
}

/// The largest sample (0 for none).
pub open spec fn max_sample(samples: Seq<usize>) -> nat
    decreases samples.len(),
{
    if samples.len() == 0 {
        0
    } else {
        let m = max_sample(samples.drop_last());
        if samples.last() > m { samples.last() as nat } else { m }
    }
}

/// The bin of a sample: the largest multiple of the bin width at or below it.
pub open spec fn bin_of(v: nat, size: nat) -> nat {
    (v / size) * size
}

/// The number of samples that fall in bin `b`.
pub open spec fn count_in_bin(samples: Seq<usize>, size: nat, b: nat) -> nat
    decreases samples.len(),
{
    if samples.len() == 0 {
        0
    } else {
        count_in_bin(samples.drop_last(), size, b) + if bin_of(samples.last() as nat, size) == b { 1nat } else { 0nat }
    }
}

/// A histogram bin: its lowest value and the number of samples in it.
#[derive(Debug, Clone, Copy, PartialEq, Eq)]
pub struct BinCount {
    pub value: usize,
    pub count: usize,
}

/// The bins of the samples: in increasing order, each with the number of
/// samples in it, every bin holding a sample present and no other.
pub open spec fn histogram_ok(samples: Seq<usize>, size: nat, bins: Seq<BinCount>) -> bool {
    &&& forall|i: int, j: int| 0 <= i < j < bins.len() ==> bins[i].value < bins[j].value
    &&& forall|j: int|
        0 <= j < bins.len() ==> (#[trigger] bins[j]).count == count_in_bin(samples, size, bins[j].value as nat)
            && bins[j].count > 0
    &&& forall|k: int|
        0 <= k < samples.len() ==> exists|j: int| 0 <= j < bins.len() && #[trigger] bins[j].value == bin_of(#[trigger] samples[k] as nat, size)
}

proof fn lemma_take_step(samples: Seq<usize>, i: int)
    requires
        0 <= i < samples.len(),
    ensures
        samples.take(i + 1).drop_last() == samples.take(i),
        samples.take(i + 1).last() == samples[i],
{
    assert(samples.take(i + 1).drop_last() =~= samples.take(i));
}

proof fn lemma_bin_count_positive(samples: Seq<usize>, size: nat, k: int)
    requires
        0 <= k < samples.len(),
    ensures
        count_in_bin(samples, size, bin_of(samples[k] as nat, size)) > 0,
    decreases samples.len(),
{
    if k < samples.len() - 1 {
        lemma_bin_count_positive(samples.drop_last(), size, k);
    }
}

proof fn lemma_bin_count_bound(samples: Seq<usize>, size: nat, b: nat)
    ensures
        count_in_bin(samples, size, b) <= samples.len(),
    decreases samples.len(),
{
    if samples.len() > 0 {
        lemma_bin_count_bound(samples.drop_last(), size, b);
    }
}

proof fn lemma_positive_count_has_sample(samples: Seq<usize>, size: nat, b: nat)
    requires
        count_in_bin(samples, size, b) > 0,
    ensures
        exists|k: int| 0 <= k < samples.len() && bin_of(samples[k] as nat, size) == b,
    decreases samples.len(),
{
    if bin_of(samples.last() as nat, size) == b {
        assert(bin_of(samples[samples.len() - 1] as nat, size) == b);
    } else {
        lemma_positive_count_has_sample(samples.drop_last(), size, b);
        let k = choose|k: int| 0 <= k < samples.drop_last().len() && bin_of(samples.drop_last()[k] as nat, size) == b;
        assert(samples[k] == samples.drop_last()[k]);
    }
}

/// The histogram bins of samples: the bin width is chosen from the largest
/// sample (see `bin_size_for`), and the bins come in increasing order with
/// the number of samples in each. No samples give no bins.
pub fn histogram_counts(samples: &[usize]) -> (r: Vec<BinCount>)
    ensures
        histogram_ok(samples@, bin_size_for(max_sample(samples@)), r@),
        samples@.len() == 0 ==> r@.len() == 0,
{
    let mut max_value: usize = 0;
    let mut i: usize = 0;
    while i < samples.len()
        invariant
            i <= samples@.len(),
            max_value as nat == max_sample(samples@.take(i as int)),
        decreases samples@.len() - i,
    {
        proof { lemma_take_step(samples@, i as int); }
        if samples[i] > max_value {
            max_value = samples[i];
        }
        i = i + 1;
    }
    assert(samples@.take(samples@.len() as int) =~= samples@);
    let size = histogram_bin_size(max_value);
    bins_of_width(samples, size)
}

/// The bins of a given width of the samples: in increasing order, each with
/// the number of samples in it. No samples give no bins.
pub fn bins_of_width(samples: &[usize], size: usize) -> (r: Vec<BinCount>)
    requires
        size >= 1,
    ensures
        histogram_ok(samples@, size as nat, r@),
        samples@.len() == 0 ==> r@.len() == 0,
{
    let ghost sz = size as nat;
    let mut bins: Vec<BinCount> = Vec::new();
    let mut i: usize = 0;
    while i < samples.len()
        invariant
            i <= samples@.len(),
            sz == size,
            size >= 1,
            histogram_ok(samples@.take(i as int), sz, bins@),
            forall|j: int| 0 <= j < bins@.len() ==> #[trigger] bins@[j].count <= i,
            i == 0 ==> bins@.len() == 0,
        decreases samples@.len() - i,
    {
        let ghost prev = samples@.take(i as int);
        let ghost next = samples@.take(i as int + 1);
        proof { lemma_take_step(samples@, i as int); }
        let v = samples[i];
        assert((v / size) * size <= v) by (nonlinear_arith)
            requires
                size >= 1;
        let b = (v / size) * size;
        assert(b as nat == bin_of(v as nat, sz)) by (nonlinear_arith)
            requires
                b == (v / size) * size,
                sz == size,
                size >= 1;
        // The first bin at or above `b`.
        let mut j: usize = 0;
        while j < bins.len() && bins[j].value < b
            invariant
                j <= bins@.len(),
                forall|t: int| 0 <= t < j ==> (#[trigger] bins@[t]).value < b,
            decreases bins@.len() - j,
        {
            j = j + 1;
        }
        proof {
            // Every bin keeps its count in the new prefix, but the bin of `v`.
            assert forall|t: int| 0 <= t < bins@.len() && bins@[t].value != b implies count_in_bin(
                next,
                sz,
                (#[trigger] bins@[t]).value as nat,
            ) == count_in_bin(prev, sz, bins@[t].value as nat) by {}
        }
        if j < bins.len() && bins[j].value == b {
            let ghost before = bins@;
            let c = bins[j].count + 1;
            bins.set(j, BinCount { value: b, count: c });
            proof {
                assert forall|t: int| 0 <= t < bins@.len() implies (#[trigger] bins@[t]).count == count_in_bin(
                    next,
                    sz,
                    bins@[t].value as nat,
                ) && bins@[t].count > 0 by {
                    if t != j {
                        assert(bins@[t] == before[t]);
                    }
                }
                assert forall|k: int| 0 <= k < next.len() implies exists|t: int|
                    0 <= t < bins@.len() && #[trigger] bins@[t].value == bin_of(#[trigger] next[k] as nat, sz) by {
                    if k < i {
                        assert(next[k] == prev[k]);
                        let t = choose|t: int| 0 <= t < before.len() && #[trigger] before[t].value == bin_of(prev[k] as nat, sz);
                        assert(bins@[t].value == before[t].value);
                    } else {
                        assert(bins@[j as int].value == bin_of(next[k] as nat, sz));
                    }
                }
            }
        } else {
            let ghost before = bins@;
            proof {
                // No bin holds `b` yet, so no earlier sample fell in it.
                if count_in_bin(prev, sz, b as nat) > 0 {
                    lemma_positive_count_has_sample(prev, sz, b as nat);
                    let k = choose|k: int| 0 <= k < prev.len() && bin_of(prev[k] as nat, sz) == b as nat;
                    let t = choose|t: int| 0 <= t < before.len() && #[trigger] before[t].value == bin_of(#[trigger] prev[k] as nat, sz);
                    if t < j {
                        assert(before[t].value < b);
                    } else if t > j {
                        assert(before[j as int].value < before[t].value);
                    }
                }
            }
            bins.insert(j, BinCount { value: b, count: 1 });
            proof {
                assert(bins@ == before.insert(j as int, BinCount { value: b, count: 1 }));
                assert forall|t: int| 0 <= t < bins@.len() implies (#[trigger] bins@[t]).count == count_in_bin(
                    next,
                    sz,
                    bins@[t].value as nat,
                ) && bins@[t].count > 0 by {
                    if t < j {
                        assert(bins@[t] == before[t]);
                    } else if t > j {
                        assert(bins@[t] == before[t - 1]);
                        assert(before[j as int].value > b || j == t - 1);
                    }
                }
                assert forall|u: int, w: int| 0 <= u < w < bins@.len() implies bins@[u].value < bins@[w].value by {
                    if w < j {
                    } else if u > j {
                        assert(bins@[u] == before[u - 1]);
                        assert(bins@[w] == before[w - 1]);
                    } else if u == j {
                        assert(bins@[w] == before[w - 1]);
                        assert(before[j as int].value >= b);
                        if w - 1 > j {
                            assert(before[j as int].value < before[w - 1].value);
                        }
                    } else if w == j {
                        assert(bins@[u] == before[u]);
                    } else {
                        assert(bins@[u] == before[u]);
                        assert(bins@[w] == before[w - 1]);
                    }
                }
                assert forall|k: int| 0 <= k < next.len() implies exists|t: int|
                    0 <= t < bins@.len() && #[trigger] bins@[t].value == bin_of(#[trigger] next[k] as nat, sz) by {
                    if k < i {
                        assert(next[k] == prev[k]);
                        let t = choose|t: int| 0 <= t < before.len() && #[trigger] before[t].value == bin_of(prev[k] as nat, sz);
                        if t < j {
                            assert(bins@[t].value == before[t].value);
                        } else {
                            assert(bins@[t + 1].value == before[t].value);
                        }
                    } else {
                        assert(bins@[j as int].value == bin_of(next[k] as nat, sz));
                    }
                }
            }
        }
        i = i + 1;
    }
    assert(samples@.take(samples@.len() as int) =~= samples@);
    bins
}

/// The sum of the counts of a list of bins.
pub open spec fn total_count(bins: Seq<BinCount>) -> nat
    decreases bins.len(),
{
    if bins.len() == 0 {
        0
    } else {
        total_count(bins.drop_last()) + bins.last().count as nat
    }
}

/// The samples counted in the bins listed, bin by bin.
spec fn counted(samples: Seq<usize>, size: nat, bins: Seq<BinCount>) -> nat
    decreases bins.len(),
{
    if bins.len() == 0 {
        0
    } else {
        counted(samples, size, bins.drop_last()) + count_in_bin(samples, size, bins.last().value as nat)
    }
}

/// The number of bins listed with value `b`.
spec fn occurrences(bins: Seq<BinCount>, b: nat) -> nat
    decreases bins.len(),
{
    if bins.len() == 0 {
        0
    } else {
        occurrences(bins.drop_last(), b) + if bins.last().value == b { 1nat } else { 0nat }
    }
}

proof fn lemma_occurrences_once(bins: Seq<BinCount>, b: nat)
    requires
        forall|i: int, j: int| 0 <= i < j < bins.len() ==> bins[i].value < bins[j].value,
    ensures
        (exists|j: int| 0 <= j < bins.len() && bins[j].value == b) ==> occurrences(bins, b) == 1,
        !(exists|j: int| 0 <= j < bins.len() && bins[j].value == b) ==> occurrences(bins, b) == 0,
    decreases bins.len(),
{
    if bins.len() > 0 {
        let rest = bins.drop_last();
        lemma_occurrences_once(rest, b);
        if bins.last().value == b {
            assert forall|j: int| 0 <= j < rest.len() implies rest[j].value != b by {
                assert(bins[j].value < bins[bins.len() - 1].value);
            }
        } else {
            if exists|j: int| 0 <= j < bins.len() && bins[j].value == b {
                let j = choose|j: int| 0 <= j < bins.len() && bins[j].value == b;
                assert(rest[j].value == b);
            }
            if exists|j: int| 0 <= j < rest.len() && rest[j].value == b {
                let j = choose|j: int| 0 <= j < rest.len() && rest[j].value == b;
                assert(bins[j].value == b);
            }
        }
    }
}

proof fn lemma_counted_step(samples: Seq<usize>, size: nat, bins: Seq<BinCount>)
    requires
        samples.len() > 0,
    ensures
        counted(samples, size, bins) == counted(samples.drop_last(), size, bins) + occurrences(
            bins,
            bin_of(samples.last() as nat, size),
        ),
    decreases bins.len(),
{
    if bins.len() > 0 {
        lemma_counted_step(samples, size, bins.drop_last());
    }
}

/// Bin `b` is listed.
spec fn bin_listed(bins: Seq<BinCount>, b: nat) -> bool {
    exists|j: int| 0 <= j < bins.len() && bins[j].value == b
}

/// Every sample falls in a listed bin.
spec fn bins_cover(samples: Seq<usize>, size: nat, bins: Seq<BinCount>) -> bool {
    forall|k: int| 0 <= k < samples.len() ==> bin_listed(bins, bin_of(#[trigger] samples[k] as nat, size))
}

proof fn lemma_counted_all(samples: Seq<usize>, size: nat, bins: Seq<BinCount>)
    requires
        forall|i: int, j: int| 0 <= i < j < bins.len() ==> bins[i].value < bins[j].value,
        bins_cover(samples, size, bins),
    ensures
        counted(samples, size, bins) == samples.len(),
    decreases samples.len(),
{
    if samples.len() == 0 {
        lemma_counted_empty(samples, size, bins);
    } else {
        let rest = samples.drop_last();
        assert(bins_cover(rest, size, bins)) by {
            assert forall|k: int| 0 <= k < rest.len() implies bin_listed(bins, bin_of(#[trigger] rest[k] as nat, size)) by {
                assert(rest[k] == samples[k]);
            }
        }
        lemma_counted_all(rest, size, bins);
        lemma_counted_step(samples, size, bins);
        let b = bin_of(samples.last() as nat, size);
        assert(bin_listed(bins, bin_of(samples[samples.len() - 1] as nat, size)));
        lemma_occurrences_once(bins, b);
    }
}

proof fn lemma_counted_empty(samples: Seq<usize>, size: nat, bins: Seq<BinCount>)
    requires
        samples.len() == 0,
    ensures
        counted(samples, size, bins) == 0,
    decreases bins.len(),
{
    if bins.len() > 0 {
        lemma_counted_empty(samples, size, bins.drop_last());
    }
}

proof fn lemma_total_is_counted(samples: Seq<usize>, size: nat, bins: Seq<BinCount>)
    requires
        forall|j: int| 0 <= j < bins.len() ==> (#[trigger] bins[j]).count == count_in_bin(samples, size, bins[j].value as nat),
    ensures
        total_count(bins) == counted(samples, size, bins),
    decreases bins.len(),
{
    if bins.len() > 0 {
        let rest = bins.drop_last();
        assert forall|j: int| 0 <= j < rest.len() implies (#[trigger] rest[j]).count == count_in_bin(
            samples,
            size,
            rest[j].value as nat,
        ) by {
            assert(rest[j] == bins[j]);
        }
        lemma_total_is_counted(samples, size, rest);
        assert(bins[bins.len() - 1] == bins.last());
    }
}

/// A histogram counts every sample once: the counts of its bins add up to
/// the number of samples.
pub proof fn law_histogram_counts_every_sample(samples: Seq<usize>, size: nat, bins: Seq<BinCount>)
    requires
        histogram_ok(samples, size, bins),
    ensures
        total_count(bins) == samples.len(),
{
    lemma_total_is_counted(samples, size, bins);
    assert forall|k: int| 0 <= k < samples.len() implies bin_listed(bins, bin_of(#[trigger] samples[k] as nat, size)) by {
        let j = choose|j: int| 0 <= j < bins.len() && #[trigger] bins[j].value == bin_of(samples[k] as nat, size);
    }
    lemma_counted_all(samples, size, bins);
}

/// The width of the bins of a histogram, as read from its first two bins.
pub fn bin_size(bins: &[BinCount]) -> (r: usize)
    ensures
        bins@.len() < 2 ==> r == 1,
        bins@.len() >= 2 ==> r == if bins@[1].value >= bins@[0].value { (bins@[1].value - bins@[0].value) as usize } else { 0 },
{
    if bins.len() < 2 {
        return 1;
    }
    bins[1].value.saturating_sub(bins[0].value)
}

proof fn lemma_bin_of_one(v: nat)
    ensures
        bin_of(v, 1) == v,
{
    assert((v / 1) * 1 == v) by (nonlinear_arith);
}

proof fn lemma_count_in_bin_one(samples: Seq<usize>, b: usize)
    ensures
        count_in_bin(samples, 1, b as nat) == count_equal(samples, b),
    decreases samples.len(),
{
    if samples.len() > 0 {
        lemma_count_in_bin_one(samples.drop_last(), b);
        lemma_bin_of_one(samples.last() as nat);
    }
}

/// A bin of value `v` is listed.
pub open spec fn value_listed(bins: Seq<BinCount>, v: usize) -> bool {
    exists|j: int| 0 <= j < bins.len() && bins[j].value == v
}

/// The number of samples of each distinct value, in increasing order of
/// value: one bar per value, with no grouping.
pub fn value_counts(samples: &[usize]) -> (r: Vec<BinCount>)
    ensures
        forall|i: int, j: int| 0 <= i < j < r@.len() ==> r@[i].value < r@[j].value,
        forall|j: int|
            0 <= j < r@.len() ==> (#[trigger] r@[j]).count == count_equal(samples@, r@[j].value) && r@[j].count > 0,
        forall|k: int| 0 <= k < samples@.len() ==> value_listed(r@, #[trigger] samples@[k]),
{
    let r = bins_of_width(samples, 1);
    proof {
        assert forall|j: int| 0 <= j < r@.len() implies (#[trigger] r@[j]).count == count_equal(samples@, r@[j].value)
            && r@[j].count > 0 by {
            lemma_count_in_bin_one(samples@, r@[j].value);
        }
        assert forall|k: int| 0 <= k < samples@.len() implies value_listed(r@, #[trigger] samples@[k]) by {
            lemma_bin_of_one(samples@[k] as nat);
            let j = choose|j: int| 0 <= j < r@.len() && #[trigger] r@[j].value == bin_of(samples@[k] as nat, 1);
            assert(r@[j].value == samples@[k]);
        }
    }
    r
}

/// The number of samples below `value`.
pub open spec fn count_less(samples: Seq<usize>, value: usize) -> nat
    decreases samples.len(),
{
    if samples.len() == 0 {
        0
    } else {
        count_less(samples.drop_last(), value) + if samples.last() < value { 1nat } else { 0nat }
    }
}

/// The number of samples equal to `value`.
pub open spec fn count_equal(samples: Seq<usize>, value: usize) -> nat
    decreases samples.len(),
{
    if samples.len() == 0 {
        0
    } else {
        count_equal(samples.drop_last(), value) + if samples.last() == value { 1nat } else { 0nat }
    }
}

proof fn lemma_less_equal_bound(samples: Seq<usize>, value: usize)
    ensures
        count_less(samples, value) + count_equal(samples, value) <= samples.len(),
    decreases samples.len(),
{
    if samples.len() > 0 {
        lemma_less_equal_bound(samples.drop_last(), value);
    }
}

/// The rank of a value among samples, ties counted at their midpoint: the
/// samples below it plus half (rounded down) of those equal to it. Divided
/// by the number of samples it gives the value's percentile.
pub fn midpoint_rank(samples: &[usize], value: usize) -> (r: usize)
    ensures
        r == count_less(samples@, value) + count_equal(samples@, value) / 2,
        r <= samples@.len(),
{
    let mut below: usize = 0;
    let mut equal: usize = 0;
    let mut i: usize = 0;
    while i < samples.len()
        invariant
            i <= samples@.len(),
            below == count_less(samples@.take(i as int), value),
            equal == count_equal(samples@.take(i as int), value),
            below + equal <= i,
        decreases samples@.len() - i,
    {
        proof { lemma_take_step(samples@, i as int); }
        if samples[i] < value {
            below = below + 1;
        } else if samples[i] == value {
            equal = equal + 1;
        }
        i = i + 1;
    }
    assert(samples@.take(samples@.len() as int) =~= samples@);
    proof { lemma_less_equal_bound(samples@, value); }
    below + equal / 2
}

/// Samples in non-decreasing order.
pub open spec fn sorted_values(s: Seq<usize>) -> bool {
    forall|i: int, j: int| 0 <= i <= j < s.len() ==> #[trigger] s[i] <= #[trigger] s[j]
}

/// The samples in non-decreasing order: the same values, each as often.
pub fn sorted_samples(samples: &[usize]) -> (r: Vec<usize>)
    ensures
        sorted_values(r@),
        r@.to_multiset() == samples@.to_multiset(),
{
    let mut out: Vec<usize> = Vec::new();
    let mut i: usize = 0;
    assert(out@.to_multiset() =~= samples@.take(0).to_multiset()) by {
        assert(out@ =~= samples@.take(0));
    }
    while i < samples.len()
        invariant
            i <= samples@.len(),
            out@.len() == i,
            sorted_values(out@),
            out@.to_multiset() == samples@.take(i as int).to_multiset(),
        decreases samples@.len() - i,
    {
        let v = samples[i];
        // The first position holding a value above `v`.
        let mut lo: usize = 0;
        let mut hi: usize = out.len();
        while lo < hi
            invariant
                lo <= hi <= out@.len(),
                sorted_values(out@),
                forall|j: int| 0 <= j < lo ==> #[trigger] out@[j] <= v,
                forall|j: int| hi <= j < out@.len() ==> #[trigger] out@[j] > v,
            decreases hi - lo,
        {
            let mid = lo + (hi - lo) / 2;
            if out[mid] <= v {
                lo = mid + 1;
            } else {
                hi = mid;
            }
        }
        let ghost before = out@;
        out.insert(lo, v);
        proof {
            assert(out@ == before.insert(lo as int, v));
            assert forall|a: int, b: int| 0 <= a <= b < out@.len() implies #[trigger] out@[a] <= #[trigger] out@[b] by {
                if b < lo {
                    assert(out@[a] == before[a] && out@[b] == before[b]);
                } else if b == lo {
                    if a < lo {
                        assert(out@[a] == before[a]);
                    }
                } else if a > lo {
                    assert(out@[a] == before[a - 1] && out@[b] == before[b - 1]);
                } else if a == lo {
                    assert(out@[b] == before[b - 1]);
                } else {
                    assert(out@[a] == before[a] && out@[b] == before[b - 1]);
                }
            }
            assert(samples@.take(i + 1) =~= samples@.take(i as int).push(v));
            vstd::seq_lib::to_multiset_insert(before, lo as int, v);
            vstd::seq_lib::to_multiset_build(samples@.take(i as int), v);
        }
        i = i + 1;
    }
    assert(samples@.take(samples@.len() as int) =~= samples@);
    out
}

/// The sum of the samples.
pub open spec fn sample_sum(samples: Seq<usize>) -> nat
    decreases samples.len(),
{
    if samples.len() == 0 {
        0
    } else {
        sample_sum(samples.drop_last()) + samples.last() as nat
    }
}

proof fn lemma_sample_sum_bound(samples: Seq<usize>)
    ensures
        sample_sum(samples) <= samples.len() * usize::MAX,
    decreases samples.len(),
{
    if samples.len() > 0 {
        lemma_sample_sum_bound(samples.drop_last());
        assert(sample_sum(samples) <= (samples.len() - 1) * usize::MAX + usize::MAX);
        assert((samples.len() - 1) * usize::MAX + usize::MAX == samples.len() * usize::MAX) by (nonlinear_arith);
    }
}

/// The sum of the samples, which the mean divides by their number.
pub fn sample_total(samples: &[usize]) -> (r: u128)
    ensures
        r == sample_sum(samples@),
{
    let mut total: u128 = 0;
    let mut i: usize = 0;
    while i < samples.len()
        invariant
            i <= samples@.len(),
            total == sample_sum(samples@.take(i as int)),
        decreases samples@.len() - i,
    {
        proof {
            lemma_take_step(samples@, i as int);
            lemma_sample_sum_bound(samples@.take(i + 1));
            assert((i + 1) * usize::MAX <= usize::MAX * usize::MAX) by (nonlinear_arith)
                requires
                    i + 1 <= usize::MAX;
            assert(usize::MAX * usize::MAX < u128::MAX) by (nonlinear_arith)
                requires
                    usize::MAX < 0x1_0000_0000_0000_0000;
        }
        total = total + samples[i] as u128;
        i = i + 1;
    }
    assert(samples@.take(samples@.len() as int) =~= samples@);
    total
}

/// One run of a simulation: the hits, the wounds and the final damage of a
/// combat rolled to the end with these inputs; `None` where the engine does
/// not accept them (see `combat_inputs_fit`).
pub fn simulation_sample(
    attacker: &Unit,
    defender: &Unit,
    weapon: &Weapon,
    num_models: usize,
    has_champion: bool,
    use_attack_override: bool,
    attack_override: usize,
    include_ward: bool,
    hit_modifier: i8,
    wound_modifier: i8,
    rend_modifier: i8,
    damage_modifier: i8,
    attack_modifier: i8,
    crit_effect_override: Option<CritEffect>,
) -> (r: Option<(usize, usize, usize)>)
    ensures
        ({
            let fits = engine::combat_inputs_fit(
                *defender,
                *weapon,
                num_models,
                has_champion,
                use_attack_override,
                attack_override,
                false,
                hit_modifier,
                wound_modifier,
                rend_modifier,
                damage_modifier,
                attack_modifier,
                crit_effect_override,
                None,
            );
            match r {
                None => !fits,
                Some(t) => fits && exists|c: CombatResult|
                    #[trigger] engine::combat_result_ok(
                        *attacker,
                        *defender,
                        *weapon,
                        num_models,
                        has_champion,
                        use_attack_override,
                        attack_override,
                        include_ward,
                        false,
                        hit_modifier,
                        wound_modifier,
                        rend_modifier,
                        damage_modifier,
                        attack_modifier,
                        crit_effect_override,
                        None,
                        c,
                    ) && t == (c.phases@[0].total_output, c.phases@[1].total_output, c.final_damage),
            }
        }),
{
    let mut log = DiceLog::new();
    simulation_sample_logged(
        attacker,
        defender,
        weapon,
        num_models,
        has_champion,
        use_attack_override,
        attack_override,
        include_ward,
        hit_modifier,
        wound_modifier,
        rend_modifier,
        damage_modifier,
        attack_modifier,
        crit_effect_override,
        &mut log,
    )
}

/// `simulation_sample`, drawing the dice of its combat into `log`: a sample
/// is the outcome of exactly one combat, whose dice are all the dice drawn.
pub fn simulation_sample_logged(
    attacker: &Unit,
    defender: &Unit,
    weapon: &Weapon,
    num_models: usize,
    has_champion: bool,
    use_attack_override: bool,
    attack_override: usize,
    include_ward: bool,
    hit_modifier: i8,
    wound_modifier: i8,
    rend_modifier: i8,
    damage_modifier: i8,
    attack_modifier: i8,
    crit_effect_override: Option<CritEffect>,
    log: &mut DiceLog,
) -> (r: Option<(usize, usize, usize)>)
    ensures
        dice::log_extends(old(log)@, final(log)@),
        ({
            let fits = engine::combat_inputs_fit(
                *defender,
                *weapon,
                num_models,
                has_champion,
                use_attack_override,
                attack_override,
                false,
                hit_modifier,
                wound_modifier,
                rend_modifier,
                damage_modifier,
                attack_modifier,
                crit_effect_override,
                None,
            );
            let drawn = dice::drawn_since(old(log)@, final(log)@);
            match r {
                None => !fits && drawn.len() == 0,
                Some(t) => fits && exists|c: CombatResult|
                    #[trigger] engine::combat_result_ok(
                        *attacker,
                        *defender,
                        *weapon,
                        num_models,
                        has_champion,
                        use_attack_override,
                        attack_override,
                        include_ward,
                        false,
                        hit_modifier,
                        wound_modifier,
                        rend_modifier,
                        damage_modifier,
                        attack_modifier,
                        crit_effect_override,
                        None,
                        c,
                    ) && engine::combat_drew(
                        c,
                        *weapon,
                        use_attack_override,
                        damage_modifier,
                        attack_modifier,
                        crit_effect_override,
                        None,
                        false,
                        drawn,
                    )
                        && t == (c.phases@[0].total_output, c.phases@[1].total_output, c.final_damage),
            }
        }),
{
    let result = checked_resolve_combat_logged(
        attacker,
        defender,
        weapon,
        num_models,
        has_champion,
        use_attack_override,
        attack_override,
        include_ward,
        false,
        hit_modifier,
        wound_modifier,
        rend_modifier,
        damage_modifier,
        attack_modifier,
        crit_effect_override,
        None,
        log,
    );
    match result {
        Some(c) => Some((c.phases[0].total_output, c.phases[1].total_output, c.final_damage)),
        None => None,
    }
}
} // verus!
