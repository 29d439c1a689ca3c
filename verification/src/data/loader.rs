//! The unit database, and the merging of unit lists from several files.

use vstd::prelude::*;

use crate::data::models::Unit;
use crate::text;
use crate::text::push_decimal;

verus! {

/// The contents of a units file.
#[derive(Debug, Clone)]
pub struct UnitDatabase {
    pub units: Vec<Unit>,
}

/// The number of units among the first `n` whose id is `id`.
pub open spec fn count_id(units: Seq<Unit>, id: Seq<char>, n: int) -> nat
    decreases n,
{
    if n <= 0 {
        0
    } else {
        count_id(units, id, n - 1) + if units[n - 1].id@ == id { 1nat } else { 0nat }
    }
}

/// The id a unit keeps when it is the `n`-th unit with its id: the same id
/// for the first, `id_n` for later ones.
pub open spec fn renamed_id(id: Seq<char>, n: nat) -> Seq<char> {
    if n > 1 {
        id + "_"@ + text::decimal(n)
    } else {
        id
    }
}

proof fn lemma_count_id_bound(units: Seq<Unit>, id: Seq<char>, n: int)
    requires
        0 <= n <= units.len(),
    ensures
        count_id(units, id, n) <= n,
    decreases n,
{
    if n > 0 {
        lemma_count_id_bound(units, id, n - 1);
    }
}

proof fn lemma_count_id_grows(units: Seq<Unit>, id: Seq<char>, i: int, j: int)
    requires
        0 <= i < j < units.len(),
        units[j].id@ == id,
    ensures
        count_id(units, id, i + 1) < count_id(units, id, j + 1),
{
    lemma_count_id_monotone(units, id, i + 1, j);
    assert(count_id(units, id, j + 1) == count_id(units, id, j) + 1);
}

proof fn lemma_count_id_monotone(units: Seq<Unit>, id: Seq<char>, a: int, b: int)
    requires
        0 <= a <= b,
    ensures
        count_id(units, id, a) <= count_id(units, id, b),
    decreases b - a,
{
    if a < b {
        lemma_count_id_monotone(units, id, a, b - 1);
    }
}

/// Units that shared an id are kept apart: the ids given to two positions
/// that had the same id differ.
pub proof fn law_renamed_ids_differ(units: Seq<Unit>, i: int, j: int)
    requires
        0 <= i < j < units.len(),
        units[i].id@ == units[j].id@,
    ensures
        renamed_id(units[i].id@, count_id(units, units[i].id@, i + 1)) != renamed_id(
            units[j].id@,
            count_id(units, units[j].id@, j + 1),
        ),
{
    let id = units[i].id@;
    let n = count_id(units, id, i + 1);
    let m = count_id(units, id, j + 1);
    lemma_count_id_grows(units, id, i, j);
    reveal_strlit("_");
    if renamed_id(id, n) == renamed_id(id, m) {
        if n > 1 {
            let a = id + "_"@ + text::decimal(n);
            let b = id + "_"@ + text::decimal(m);
            assert(a.subrange(id.len() as int + 1, a.len() as int) =~= text::decimal(n));
            assert(b.subrange(id.len() as int + 1, b.len() as int) =~= text::decimal(m));
            text::lemma_decimal_injective(n, m);
        } else {
            assert((id + "_"@ + text::decimal(m)).len() > id.len());
        }
    }
}

/// Gives duplicate ids a suffix, so that a list merged from several files
/// keeps every unit apart: the second unit with id `u1` becomes `u1_2`, the
/// third `u1_3`, and so on. Order and every other field are kept.
pub fn assign_unique_ids(units: Vec<Unit>) -> (r: Vec<Unit>)
    ensures
        r@.len() == units@.len(),
        forall|i: int|
            0 <= i < r@.len() ==> {
                &&& (#[trigger] r@[i]).id@ == renamed_id(units@[i].id@, count_id(units@, units@[i].id@, i + 1))
                &&& r@[i].name == units@[i].name
                &&& r@[i].faction == units@[i].faction
                &&& r@[i].save == units@[i].save
                &&& r@[i].ward == units@[i].ward
                &&& r@[i].weapons == units@[i].weapons
            },
{
    let ghost given = units@;
    let n = units.len();
    let mut ids: Vec<String> = Vec::new();
    let mut i: usize = 0;
    while i < n
        invariant
            n == units@.len(),
            i <= n,
            ids@.len() == i,
            forall|j: int| 0 <= j < i ==> (#[trigger] ids@[j])@ == units@[j].id@,
        decreases n - i,
    {
        ids.push(units[i].id.clone());
        i = i + 1;
    }
    let mut rest = units;
    let mut out: Vec<Unit> = Vec::new();
    let mut i: usize = 0;
    while i < n
        invariant
            n == given.len(),
            i <= n,
            ids@.len() == n,
            forall|j: int| 0 <= j < n ==> (#[trigger] ids@[j])@ == given[j].id@,
            rest@ == given.subrange(i as int, n as int),
            out@.len() == i,
            forall|j: int|
                0 <= j < i ==> {
                    &&& (#[trigger] out@[j]).id@ == renamed_id(given[j].id@, count_id(given, given[j].id@, j + 1))
                    &&& out@[j].name == given[j].name
                    &&& out@[j].faction == given[j].faction
                    &&& out@[j].save == given[j].save
                    &&& out@[j].ward == given[j].ward
                    &&& out@[j].weapons == given[j].weapons
                },
        decreases n - i,
    {
        // How many units up to this one share its id.
        let mut count: usize = 0;
        let mut j: usize = 0;
        while j <= i
            invariant
                i < n,
                j <= i + 1,
                ids@.len() == n,
                forall|t: int| 0 <= t < n ==> (#[trigger] ids@[t])@ == given[t].id@,
                count == count_id(given, given[i as int].id@, j as int),
                count <= j,
            decreases i + 1 - j,
        {
            if ids[j] == ids[i] {
                count = count + 1;
            }
            j = j + 1;
        }
        let mut unit = rest.remove(0);
        assert(unit == given[i as int]);
        if count > 1 {
            let mut id = String::from_str(ids[i].as_str());
            id.append("_");
            push_decimal(&mut id, count);
            unit.id = id;
        }
        out.push(unit);
        i = i + 1;
    }
    out
}

} // verus!
