//! The attacker list: units grouped by faction, factions in alphabetical
//! order, and the weapons of the selected attacker.

use vstd::prelude::*;

use crate::data::models::{CritEffect, Unit, Weapon};
use crate::text;
use crate::text::{push_decimal, text_equals, text_less_than};

verus! {

/// The texts of a list of strings.
pub open spec fn texts(list: Seq<String>) -> Seq<Seq<char>> {
    list.map_values(|t: String| t@)
}

/// Every text comes before the next: sorted, with none twice.
pub open spec fn strictly_sorted(list: Seq<Seq<char>>) -> bool {
    forall|i: int, j: int| 0 <= i < j < list.len() ==> text::text_less(#[trigger] list[i], #[trigger] list[j])
}

/// Adds `item` to a strictly sorted list, where it is not there yet.
fn insert_sorted(list: &mut Vec<String>, item: &String)
    requires
        strictly_sorted(texts(old(list)@)),
    ensures
        strictly_sorted(texts(final(list)@)),
        forall|t: Seq<char>| texts(final(list)@).contains(t) <==> (texts(old(list)@).contains(t) || t == item@),
{
    let ghost before = texts(list@);
    let n = list.len();
    let mut p: usize = 0;
    while p < n && text_less_than(list[p].as_str(), item.as_str())
        invariant
            n == list@.len(),
            before == texts(list@),
            p <= n,
            forall|j: int| 0 <= j < p ==> text::text_less(#[trigger] before[j], item@),
        decreases n - p,
    {
        p = p + 1;
    }
    if p < n && text_equals(list[p].as_str(), item.as_str()) {
        assert forall|t: Seq<char>| before.contains(t) || t == item@ implies before.contains(t) by {
            if t == item@ {
                assert(before[p as int] == t);
            }
        }
        return;
    }
    proof {
        if p < n {
            text::lemma_text_less_order(before[p as int], item@);
        }
    }
    list.insert(p, item.clone());
    let ghost after = texts(list@);
    proof {
        assert(after =~= before.insert(p as int, item@));
        assert forall|i: int, j: int| 0 <= i < j < after.len() implies text::text_less(
            #[trigger] after[i],
            #[trigger] after[j],
        ) by {
            if j < p {
                assert(after[i] == before[i] && after[j] == before[j]);
            } else if j == p {
                assert(after[i] == before[i]);
            } else if i == p {
                assert(after[j] == before[j - 1]);
                if j - 1 > p {
                    assert(text::text_less(before[p as int], before[j - 1]));
                    text::lemma_text_less_transitive(item@, before[p as int], before[j - 1]);
                }
            } else if i < p {
                assert(after[i] == before[i] && after[j] == before[j - 1]);
                text::lemma_text_less_transitive(before[i], item@, before[p as int]);
                if j - 1 > p {
                    text::lemma_text_less_transitive(before[i], before[p as int], before[j - 1]);
                }
            } else {
                assert(after[i] == before[i - 1] && after[j] == before[j - 1]);
            }
        }
        assert forall|t: Seq<char>| after.contains(t) <==> (before.contains(t) || t == item@) by {
            if after.contains(t) {
                let k = choose|k: int| 0 <= k < after.len() && after[k] == t;
                if k < p {
                    assert(before[k] == t);
                } else if k > p {
                    assert(before[k - 1] == t);
                }
            }
            if before.contains(t) {
                let k = choose|k: int| 0 <= k < before.len() && before[k] == t;
                if k < p {
                    assert(after[k] == t);
                } else {
                    assert(after[k + 1] == t);
                }
            }
            if t == item@ {
                assert(after[p as int] == t);
            }
        }
    }
}

/// Whether `faction` is the faction of one of the units at `members`.
pub open spec fn faction_of_member(units: Seq<Unit>, members: Seq<usize>, faction: Seq<char>) -> bool {
    exists|i: int| 0 <= i < members.len() && (#[trigger] units[members[i] as int]).faction@ == faction
}

/// The factions of the units at `members`, in alphabetical (code-point)
/// order, each once: the headings the unit lists are grouped under.
pub fn faction_groups(units: &Vec<Unit>, members: &Vec<usize>) -> (r: Vec<String>)
    requires
        forall|i: int| 0 <= i < members@.len() ==> #[trigger] members@[i] < units@.len(),
    ensures
        strictly_sorted(texts(r@)),
        forall|t: Seq<char>| texts(r@).contains(t) <==> faction_of_member(units@, members@, t),
{
    let mut out: Vec<String> = Vec::new();
    let mut i: usize = 0;
    while i < members.len()
        invariant
            i <= members@.len(),
            forall|k: int| 0 <= k < members@.len() ==> #[trigger] members@[k] < units@.len(),
            strictly_sorted(texts(out@)),
            forall|t: Seq<char>|
                texts(out@).contains(t) <==> exists|k: int|
                    0 <= k < i && (#[trigger] units@[members@[k] as int]).faction@ == t,
        decreases members@.len() - i,
    {
        let ghost before = texts(out@);
        insert_sorted(&mut out, &units[members[i]].faction);
        proof {
            assert forall|t: Seq<char>| texts(out@).contains(t) <==> exists|k: int|
                0 <= k < i + 1 && (#[trigger] units@[members@[k] as int]).faction@ == t by {
                if texts(out@).contains(t) && t != units@[members@[i as int] as int].faction@ {
                    assert(before.contains(t));
                }
            }
        }
        i = i + 1;
    }
    out
}

/// The positions of all units, in order.
pub fn all_members(units: &Vec<Unit>) -> (r: Vec<usize>)
    ensures
        r@.len() == units@.len(),
        forall|i: int| 0 <= i < r@.len() ==> #[trigger] r@[i] == i,
{
    let mut out: Vec<usize> = Vec::new();
    let mut i: usize = 0;
    while i < units.len()
        invariant
            i <= units@.len(),
            out@.len() == i,
            forall|k: int| 0 <= k < i ==> #[trigger] out@[k] == k,
        decreases units@.len() - i,
    {
        out.push(i);
        i = i + 1;
    }
    out
}

/// The label of a weapon in the weapon list: `"Sword (A:2, Hit:3+)"`,
/// after `"[Override] "` when a critical effect override is active.
pub open spec fn weapon_label(weapon: Weapon, overridden: bool) -> Seq<char> {
    (if overridden { "[Override] "@ } else { Seq::empty() }) + weapon.name@ + " (A:"@ + weapon.attack@ + ", Hit:"@
        + text::decimal(weapon.to_hit as nat) + "+)"@
}

/// The label of a weapon in the weapon list (see `weapon_label`).
pub fn describe_weapon(weapon: &Weapon, overridden: bool) -> (r: String)
    ensures
        r@ == weapon_label(*weapon, overridden),
{
    let mut out = if overridden {
        String::from_str("[Override] ")
    } else {
        String::new()
    };
    proof {
        reveal_strlit("[Override] ");
    }
    out.append(weapon.name.as_str());
    out.append(" (A:");
    out.append(weapon.attack.as_str());
    out.append(", Hit:");
    push_decimal(&mut out, weapon.to_hit as usize);
    out.append("+)");
    assert(out@ =~= weapon_label(*weapon, overridden));
    out
}

/// The labels of the critical effect dropdown, in the order of its choices.
pub open spec fn crit_choice_label(choice: nat) -> Seq<char> {
    if choice == 0 {
        "Default (use weapon)"@
    } else if choice == 1 {
        "Auto Wound"@
    } else if choice == 2 {
        "Extra Hit"@
    } else {
        "Mortal Wounds"@
    }
}

/// The override chosen in the critical effect dropdown: none for the
/// weapon's own effect (choice 0), then Auto Wound, Extra Hit, and Mortal
/// Wounds, which deal the weapon's own mortal wounds value where it has one,
/// else its damage value.
pub open spec fn crit_choice_effect(choice: nat, weapon: Weapon) -> Option<CritEffect> {
    if choice == 0 {
        None
    } else if choice == 1 {
        Some(CritEffect::AutoWound)
    } else if choice == 2 {
        Some(CritEffect::ExtraHit)
    } else {
        match weapon.crit_hit {
            Some(CritEffect::MortalWounds(v)) => Some(CritEffect::MortalWounds(v)),
            _ => Some(CritEffect::MortalWounds(Some(weapon.damage))),
        }
    }
}

/// The number of choices of the critical effect dropdown.
pub const CRIT_CHOICES: usize = 4;

/// The label of a choice of the critical effect dropdown.
pub fn crit_choice_text(choice: usize) -> (r: &'static str)
    requires
        choice < CRIT_CHOICES,
    ensures
        r@ == crit_choice_label(choice as nat),
{
    if choice == 0 {
        "Default (use weapon)"
    } else if choice == 1 {
        "Auto Wound"
    } else if choice == 2 {
        "Extra Hit"
    } else {
        "Mortal Wounds"
    }
}

/// The override chosen in the critical effect dropdown (see
/// `crit_choice_effect`).
pub fn crit_choice(choice: usize, weapon: &Weapon) -> (r: Option<CritEffect>)
    requires
        choice < CRIT_CHOICES,
    ensures
        r == crit_choice_effect(choice as nat, *weapon),
{
    if choice == 0 {
        None
    } else if choice == 1 {
        Some(CritEffect::AutoWound)
    } else if choice == 2 {
        Some(CritEffect::ExtraHit)
    } else {
        match &weapon.crit_hit {
            Some(CritEffect::MortalWounds(Some(v))) => Some(CritEffect::MortalWounds(Some(v.clone()))),
            Some(CritEffect::MortalWounds(None)) => Some(CritEffect::MortalWounds(None)),
            _ => Some(CritEffect::MortalWounds(Some(weapon.damage.clone()))),
        }
    }
}

} // verus!
