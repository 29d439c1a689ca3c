//! The defender list: a search over unit names and factions, and the
//! defender's save and ward.

use vstd::prelude::*;

use crate::data::models::Unit;
use crate::text;
use crate::text::{push_decimal, text_contains_text};

verus! {

/// The lower-case form that `str::to_lowercase` gives of a text.
pub uninterp spec fn lowercase(s: Seq<char>) -> Seq<char>;

/// `str::to_lowercase`. Its result is named by `lowercase`; the Unicode case
/// mapping is not written out.
#[verifier::external_body]
fn lowercase_text(s: &str) -> (r: String)
    ensures
        r@ == lowercase(s@),
{
    s.to_lowercase()
}

/// A unit matches a search when the query, lower-cased, occurs in its
/// lower-cased name or faction.
pub open spec fn matches_search(unit: Unit, query: Seq<char>) -> bool {
    text::contains_text(lowercase(unit.name@), lowercase(query)) || text::contains_text(
        lowercase(unit.faction@),
        lowercase(query),
    )
}

/// The positions of the units that match the search, in order.
pub fn matching_units(units: &Vec<Unit>, query: &str) -> (r: Vec<usize>)
    ensures
        forall|i: int| 0 <= i < r@.len() ==> #[trigger] r@[i] < units@.len(),
        forall|i: int, j: int| 0 <= i < j < r@.len() ==> #[trigger] r@[i] < #[trigger] r@[j],
        forall|k: int|
            0 <= k < units@.len() ==> (r@.contains(k as usize) <==> matches_search(#[trigger] units@[k], query@)),
{
    let q = lowercase_text(query);
    let mut out: Vec<usize> = Vec::new();
    let mut i: usize = 0;
    while i < units.len()
        invariant
            i <= units@.len(),
            q@ == lowercase(query@),
            forall|j: int| 0 <= j < out@.len() ==> #[trigger] out@[j] < i,
            forall|a: int, b: int| 0 <= a < b < out@.len() ==> #[trigger] out@[a] < #[trigger] out@[b],
            forall|k: int| 0 <= k < i ==> (out@.contains(k as usize) <==> matches_search(#[trigger] units@[k], query@)),
        decreases units@.len() - i,
    {
        let name = lowercase_text(units[i].name.as_str());
        let faction = lowercase_text(units[i].faction.as_str());
        let hit = text_contains_text(name.as_str(), q.as_str()) || text_contains_text(faction.as_str(), q.as_str());
        let ghost before = out@;
        if hit {
            out.push(i);
        }
        proof {
            assert forall|k: int| 0 <= k < i + 1 implies (out@.contains(k as usize) <==> matches_search(
                #[trigger] units@[k],
                query@,
            )) by {
                if k < i {
                    if out@.contains(k as usize) {
                        let j = choose|j: int| 0 <= j < out@.len() && out@[j] == k as usize;
                        if j < before.len() {
                            assert(before[j] == k as usize);
                        }
                    }
                    if before.contains(k as usize) {
                        let j = choose|j: int| 0 <= j < before.len() && before[j] == k as usize;
                        assert(out@[j] == k as usize);
                    }
                } else {
                    if hit {
                        assert(out@[out@.len() - 1] == i);
                    } else {
                        assert(!before.contains(i));
                    }
                }
            }
        }
        i = i + 1;
    }
    out
}

/// The save line shown for the selected defender: `"Save: 4+"`.
pub open spec fn save_line(unit: Unit) -> Seq<char> {
    "Save: "@ + text::decimal(unit.save as nat) + "+"@
}

/// The ward line shown for the selected defender: `"Ward: 5+"`, or
/// `"Ward: None"`.
pub open spec fn ward_line(unit: Unit) -> Seq<char> {
    match unit.ward {
        Some(w) => "Ward: "@ + text::decimal(w as nat) + "+"@,
        None => "Ward: None"@,
    }
}

/// The save and ward lines shown for the selected defender.
pub fn defender_stats(unit: &Unit) -> (r: (String, String))
    ensures
        r.0@ == save_line(*unit),
        r.1@ == ward_line(*unit),
{
    let mut save = String::from_str("Save: ");
    push_decimal(&mut save, unit.save as usize);
    save.append("+");
    let ward = match unit.ward {
        Some(w) => {
            let mut t = String::from_str("Ward: ");
            push_decimal(&mut t, w as usize);
            t.append("+");
            t
        },
        None => String::from_str("Ward: None"),
    };
    proof {
        reveal_strlit("Save: ");
        reveal_strlit("Ward: ");
        reveal_strlit("Ward: None");
    }
    assert(save@ =~= save_line(*unit));
    assert(ward@ =~= ward_line(*unit));
    (save, ward)
}

} // verus!
