//! The state of a rolling session: the loaded units, the current selection
//! and options, the log of results, and the recently used units.

use vstd::prelude::*;

use crate::combat::engine;
use crate::combat::engine::{combat_inputs_check, resolve_combat};
use crate::combat::types::CombatResult;
use crate::data::models::{CritEffect, Unit, Weapon};

verus! {

/// The first position below `n` that satisfies `pred`.
pub open spec fn first_where(n: int, pred: spec_fn(int) -> bool) -> Option<int> {
    if exists|i: int| 0 <= i < n && #[trigger] pred(i) {
        Some(choose|i: int| 0 <= i < n && #[trigger] pred(i) && forall|j: int| 0 <= j < i ==> !#[trigger] pred(j))
    } else {
        None
    }
}

proof fn lemma_first_where_exists(n: int, pred: spec_fn(int) -> bool, k: int)
    requires
        0 <= k < n,
        pred(k),
    ensures
        exists|i: int| 0 <= i < n && #[trigger] pred(i) && forall|j: int| 0 <= j < i ==> !#[trigger] pred(j),
    decreases k,
{
    if exists|j: int| 0 <= j < k && #[trigger] pred(j) {
        let j = choose|j: int| 0 <= j < k && #[trigger] pred(j);
        lemma_first_where_exists(n, pred, j);
    }
}

/// A position satisfying `pred` with none before it is the first one.
pub proof fn lemma_first_where(n: int, pred: spec_fn(int) -> bool, i: int)
    requires
        0 <= i < n,
        pred(i),
        forall|j: int| 0 <= j < i ==> !#[trigger] pred(j),
    ensures
        first_where(n, pred) == Some(i),
{
    lemma_first_where_exists(n, pred, i);
    let k = choose|k: int| 0 <= k < n && #[trigger] pred(k) && forall|j: int| 0 <= j < k ==> !#[trigger] pred(j);
    if k < i {
        assert(!pred(k));
    }
    if i < k {
        assert(!pred(i));
    }
}

/// The position of the first unit with this id.
pub open spec fn unit_with_id(units: Seq<Unit>, id: Seq<char>) -> Option<int> {
    first_where(units.len() as int, |i: int| units[i].id@ == id)
}

/// The position of the first unit with this name.
pub open spec fn unit_named(units: Seq<Unit>, name: Seq<char>) -> Option<int> {
    first_where(units.len() as int, |i: int| units[i].name@ == name)
}

/// The position of the first weapon with this name.
pub open spec fn weapon_named(weapons: Seq<Weapon>, name: Seq<char>) -> Option<int> {
    first_where(weapons.len() as int, |i: int| weapons[i].name@ == name)
}

/// The position of the first unit with id `id`.
pub fn find_unit_with_id(units: &Vec<Unit>, id: &String) -> (r: Option<usize>)
    ensures
        match r {
            Some(i) => i < units@.len() && unit_with_id(units@, id@) == Some(i as int),
            None => unit_with_id(units@, id@) is None,
        },
{
    let ghost pred = |i: int| units@[i].id@ == id@;
    let mut i: usize = 0;
    while i < units.len()
        invariant
            i <= units@.len(),
            pred == (|i: int| units@[i].id@ == id@),
            forall|j: int| 0 <= j < i ==> !#[trigger] pred(j),
        decreases units@.len() - i,
    {
        if units[i].id == *id {
            proof { lemma_first_where(units@.len() as int, pred, i as int); }
            return Some(i);
        }
        i = i + 1;
    }
    None
}

/// The position of the first unit named `name`.
pub fn find_unit_named(units: &Vec<Unit>, name: &String) -> (r: Option<usize>)
    ensures
        match r {
            Some(i) => i < units@.len() && unit_named(units@, name@) == Some(i as int),
            None => unit_named(units@, name@) is None,
        },
{
    let ghost pred = |i: int| units@[i].name@ == name@;
    let mut i: usize = 0;
    while i < units.len()
        invariant
            i <= units@.len(),
            pred == (|i: int| units@[i].name@ == name@),
            forall|j: int| 0 <= j < i ==> !#[trigger] pred(j),
        decreases units@.len() - i,
    {
        if units[i].name == *name {
            proof { lemma_first_where(units@.len() as int, pred, i as int); }
            return Some(i);
        }
        i = i + 1;
    }
    None
}

/// The position of the first weapon named `name`.
pub fn find_weapon_named(weapons: &Vec<Weapon>, name: &String) -> (r: Option<usize>)
    ensures
        match r {
            Some(i) => i < weapons@.len() && weapon_named(weapons@, name@) == Some(i as int),
            None => weapon_named(weapons@, name@) is None,
        },
{
    let ghost pred = |i: int| weapons@[i].name@ == name@;
    let mut i: usize = 0;
    while i < weapons.len()
        invariant
            i <= weapons@.len(),
            pred == (|i: int| weapons@[i].name@ == name@),
            forall|j: int| 0 <= j < i ==> !#[trigger] pred(j),
        decreases weapons@.len() - i,
    {
        if weapons[i].name == *name {
            proof { lemma_first_where(weapons@.len() as int, pred, i as int); }
            return Some(i);
        }
        i = i + 1;
    }
    None
}

/// The recently used units as (id, name) texts.
pub open spec fn recent_view(recent: Seq<(String, String)>) -> Seq<(Seq<char>, Seq<char>)> {
    recent.map_values(|p: (String, String)| (p.0@, p.1@))
}

/// The entries whose id is not `id`, in order.
pub open spec fn without_id(entries: Seq<(Seq<char>, Seq<char>)>, id: Seq<char>) -> Seq<(Seq<char>, Seq<char>)>
    decreases entries.len(),
{
    if entries.len() == 0 {
        Seq::empty()
    } else {
        let rest = without_id(entries.drop_last(), id);
        if entries.last().0 == id {
            rest
        } else {
            rest.push(entries.last())
        }
    }
}

/// A unit moved to the front of the recent list, any earlier entry of it
/// removed.
pub open spec fn touched(entries: Seq<(Seq<char>, Seq<char>)>, id: Seq<char>, name: Seq<char>) -> Seq<
    (Seq<char>, Seq<char>),
> {
    seq![(id, name)] + without_id(entries, id)
}

/// No id occurs twice in the recent list.
pub open spec fn ids_distinct(entries: Seq<(Seq<char>, Seq<char>)>) -> bool {
    forall|i: int, j: int| 0 <= i < j < entries.len() ==> entries[i].0 != entries[j].0
}

/// Moves a unit to the front of the recent list.
fn touch_recent(recent: &mut Vec<(String, String)>, id: &String, name: &String)
    ensures
        recent_view(final(recent)@) == touched(recent_view(old(recent)@), id@, name@),
{
    let ghost entries = recent_view(old(recent)@);
    let mut kept: Vec<(String, String)> = Vec::new();
    kept.push((id.clone(), name.clone()));
    let mut i: usize = 0;
    while i < recent.len()
        invariant
            entries == recent_view(recent@),
            i <= recent@.len(),
            kept@.len() >= 1,
            recent_view(kept@) == seq![(id@, name@)] + without_id(entries.take(i as int), id@),
        decreases recent@.len() - i,
    {
        proof {
            assert(entries.take(i + 1).drop_last() =~= entries.take(i as int));
            assert(entries.take(i + 1).last() == entries[i as int]);
        }
        if recent[i].0 != *id {
            let entry = (recent[i].0.clone(), recent[i].1.clone());
            let ghost before = kept@;
            kept.push(entry);
            proof {
                assert(recent_view(kept@) =~= recent_view(before).push(entries[i as int]));
            }
        }
        i = i + 1;
    }
    proof {
        assert(entries.take(recent@.len() as int) =~= entries);
    }
    *recent = kept;
}

/// Removing a unit's entries leaves only entries of other units, each taken
/// from the list, and keeps ids distinct.
pub proof fn lemma_without_id_keeps(entries: Seq<(Seq<char>, Seq<char>)>, id: Seq<char>)
    ensures
        forall|k: int| 0 <= k < without_id(entries, id).len() ==> (#[trigger] without_id(entries, id)[k]).0 != id,
        forall|k: int|
            0 <= k < without_id(entries, id).len() ==> exists|j: int| 0 <= j < entries.len() && entries[j] == #[trigger] without_id(entries, id)[k],
        ids_distinct(entries) ==> ids_distinct(without_id(entries, id)),
    decreases entries.len(),
{
    if entries.len() > 0 {
        let rest = entries.drop_last();
        lemma_without_id_keeps(rest, id);
        let w = without_id(entries, id);
        assert forall|k: int| 0 <= k < w.len() implies exists|j: int| 0 <= j < entries.len() && entries[j] == #[trigger] w[k] by {
            if k < without_id(rest, id).len() {
                let j = choose|j: int| 0 <= j < rest.len() && rest[j] == without_id(rest, id)[k];
                assert(entries[j] == rest[j]);
            } else {
                assert(entries[entries.len() - 1] == w[k]);
            }
        }
        if ids_distinct(entries) {
            assert(ids_distinct(rest)) by {
                assert forall|i: int, j: int| 0 <= i < j < rest.len() implies rest[i].0 != rest[j].0 by {
                    assert(rest[i] == entries[i] && rest[j] == entries[j]);
                }
            }
            assert forall|i: int, j: int| 0 <= i < j < w.len() implies w[i].0 != w[j].0 by {
                let wr = without_id(rest, id);
                if j < wr.len() {
                } else {
                    // `w[j]` is the last entry; `w[i]` comes from an earlier one.
                    let t = choose|t: int| 0 <= t < rest.len() && rest[t] == wr[i];
                    assert(entries[t] == rest[t]);
                    assert(entries[t].0 != entries[entries.len() - 1].0);
                }
            }
        }
    }
}

/// Moving a unit to the front keeps the ids of the recent list distinct.
pub proof fn lemma_touched_distinct(entries: Seq<(Seq<char>, Seq<char>)>, id: Seq<char>, name: Seq<char>)
    requires
        ids_distinct(entries),
    ensures
        ids_distinct(touched(entries, id, name)),
        touched(entries, id, name)[0] == (id, name),
{
    lemma_without_id_keeps(entries, id);
    let t = touched(entries, id, name);
    let w = without_id(entries, id);
    assert forall|i: int, j: int| 0 <= i < j < t.len() implies t[i].0 != t[j].0 by {
        if i == 0 {
            assert(t[j] == w[j - 1]);
        } else {
            assert(t[i] == w[i - 1] && t[j] == w[j - 1]);
        }
    }
}

/// Some position below `n` satisfies `pred` exactly when there is a first
/// one, which satisfies it.
pub proof fn lemma_first_where_some(n: int, pred: spec_fn(int) -> bool, k: int)
    requires
        0 <= k < n,
        pred(k),
    ensures
        first_where(n, pred) matches Some(i) && 0 <= i < n && pred(i),
{
    lemma_first_where_exists(n, pred, k);
}

/// A roll keeps each unit at most once in the recent list.
pub proof fn law_roll_keeps_recent_units_distinct(s: CombatSession, t: CombatSession)
    requires
        rolled(s, t),
        ids_distinct(recent_view(s.recent_units@)),
    ensures
        ids_distinct(recent_view(t.recent_units@)),
{
    if roll_error(s) is None {
        let attacker = s.units@[unit_with_id(s.units@, s.selected_attackers@[0]@)->0];
        let weapon = attacker.weapons@[weapon_named(attacker.weapons@, s.selected_weapon@)->0];
        let d = choose|d: Unit| #[trigger] defender_for_roll(s, d) && roll_result_ok(s, attacker, d, weapon, t.combat_log@.last())
            && recent_view(t.recent_units@) == recent_after_roll(recent_view(s.recent_units@), s.units@, attacker.name@, d.name@);
        let e0 = recent_view(s.recent_units@);
        let e1 = match unit_named(s.units@, d.name@) {
            Some(k) => touched(e0, s.units@[k].id@, s.units@[k].name@),
            None => e0,
        };
        if let Some(k) = unit_named(s.units@, d.name@) {
            lemma_touched_distinct(e0, s.units@[k].id@, s.units@[k].name@);
        }
        if let Some(k) = unit_named(s.units@, attacker.name@) {
            lemma_touched_distinct(e1, s.units@[k].id@, s.units@[k].name@);
        }
    }
}

/// What `first_where` finds satisfies the predicate, below `n`.
pub proof fn lemma_first_where_found(n: int, pred: spec_fn(int) -> bool)
    ensures
        first_where(n, pred) matches Some(i) ==> 0 <= i < n && pred(i),
{
    if exists|i: int| 0 <= i < n && #[trigger] pred(i) {
        let k = choose|i: int| 0 <= i < n && #[trigger] pred(i);
        lemma_first_where_exists(n, pred, k);
    }
}

/// A loaded unit's name finds a unit of that name.
proof fn lemma_unit_named_finds(units: Seq<Unit>, a: int)
    requires
        0 <= a < units.len(),
    ensures
        unit_named(units, units[a].name@) matches Some(k) && 0 <= k < units.len() && units[k].name@ == units[a].name@,
{
    let pred = |i: int| units[i].name@ == units[a].name@;
    lemma_first_where_some(units.len() as int, pred, a);
}

/// After a roll that went through, the unit named like the attacker heads
/// the recent list.
pub proof fn law_roll_puts_attacker_first(s: CombatSession, t: CombatSession)
    requires
        rolled(s, t),
        roll_error(s) is None,
    ensures
        recent_view(t.recent_units@).len() > 0,
        recent_view(t.recent_units@)[0].1 == s.units@[unit_with_id(s.units@, s.selected_attackers@[0]@)->0].name@,
{
    let a = unit_with_id(s.units@, s.selected_attackers@[0]@)->0;
    lemma_first_where_found(s.units@.len() as int, |i: int| s.units@[i].id@ == s.selected_attackers@[0]@);
    let attacker = s.units@[a];
    lemma_unit_named_finds(s.units@, a);
    let weapon = attacker.weapons@[weapon_named(attacker.weapons@, s.selected_weapon@)->0];
    let d = choose|d: Unit| #[trigger] defender_for_roll(s, d) && roll_result_ok(s, attacker, d, weapon, t.combat_log@.last())
        && recent_view(t.recent_units@) == recent_after_roll(recent_view(s.recent_units@), s.units@, attacker.name@, d.name@);
    let k = unit_named(s.units@, attacker.name@)->0;
    let e0 = recent_view(s.recent_units@);
    let e1 = match unit_named(s.units@, d.name@) {
        Some(j) => touched(e0, s.units@[j].id@, s.units@[j].name@),
        None => e0,
    };
    assert(recent_view(t.recent_units@) == touched(e1, s.units@[k].id@, s.units@[k].name@));
}

/// The stand-in defender used when the combat stops after the Wound phase
/// and no defender is selected.
pub open spec fn is_unselected_defender(d: Unit) -> bool {
    &&& d.id@ == "none"@
    &&& d.name@ == "Defender (not selected)"@
    &&& d.faction@ == "-"@
    &&& d.save == 7
    &&& d.ward is None
    &&& d.weapons@.len() == 0
}

/// The stand-in defender: no save, no ward, no weapons.
pub fn unselected_defender() -> (r: Unit)
    ensures
        is_unselected_defender(r),
{
    Unit {
        id: String::from_str("none"),
        name: String::from_str("Defender (not selected)"),
        faction: String::from_str("-"),
        save: 7,
        ward: None,
        weapons: Vec::new(),
    }
}

/// A result is one the combat engine gives for these units and the
/// session's options.
#[verifier::opaque]
pub open spec fn roll_result_ok(s: CombatSession, attacker: Unit, defender: Unit, weapon: Weapon, r: CombatResult) -> bool {
    engine::combat_result_ok(
        attacker,
        defender,
        weapon,
        s.num_models,
        s.has_champion,
        s.use_attack_override,
        s.attack_override,
        s.include_ward,
        s.stop_after_wound,
        s.hit_modifier,
        s.wound_modifier,
        s.rend_modifier,
        s.damage_modifier,
        s.attack_modifier,
        s.crit_effect_override,
        None,
        r,
    )
}

/// The engine accepts a roll with these units and the session's options.
#[verifier::opaque]
pub open spec fn roll_inputs_fit(s: CombatSession, defender: Unit, weapon: Weapon) -> bool {
    engine::combat_inputs_fit(
        defender,
        weapon,
        s.num_models,
        s.has_champion,
        s.use_attack_override,
        s.attack_override,
        s.stop_after_wound,
        s.hit_modifier,
        s.wound_modifier,
        s.rend_modifier,
        s.damage_modifier,
        s.attack_modifier,
        s.crit_effect_override,
        None,
    )
}

/// Whether a defender is the one a roll uses: the stand-in when the combat
/// stops after the Wound phase with none selected, else the first unit with
/// the selected id.
pub open spec fn defender_for_roll(s: CombatSession, d: Unit) -> bool {
    if s.stop_after_wound && s.selected_defender@.len() == 0 {
        is_unselected_defender(d)
    } else {
        unit_with_id(s.units@, s.selected_defender@) matches Some(k) && d == s.units@[k]
    }
}

/// Whether the selection names units that exist.
pub open spec fn defender_found(s: CombatSession) -> bool {
    (s.stop_after_wound && s.selected_defender@.len() == 0) || unit_with_id(s.units@, s.selected_defender@) is Some
}

/// The selection is complete: an attacker, a defender (unless the combat
/// stops after the Wound phase) and a weapon are selected.
pub open spec fn selection_complete(s: CombatSession) -> bool {
    &&& s.selected_attackers@.len() > 0
    &&& (s.selected_defender@.len() > 0 || s.stop_after_wound)
    &&& s.selected_weapon@.len() > 0
}

/// The engine accepts the roll that the session would make.
pub open spec fn roll_fits(s: CombatSession) -> bool {
    selection_complete(s) && defender_found(s) ==> match unit_with_id(s.units@, s.selected_attackers@[0]@) {
        Some(a) => match weapon_named(s.units@[a].weapons@, s.selected_weapon@) {
            Some(w) => forall|d: Unit| defender_for_roll(s, d) ==> roll_inputs_fit(s, d, s.units@[a].weapons@[w]),
            None => true,
        },
        None => true,
    }
}

/// The texts of the selected attackers' ids.
pub open spec fn selected_ids(s: CombatSession) -> Seq<Seq<char>> {
    s.selected_attackers@.map_values(|a: String| a@)
}

/// The position of the first loaded unit that is among the selected
/// attackers.
pub open spec fn shown_attacker(s: CombatSession) -> Option<int> {
    first_where(s.units@.len() as int, |i: int| selected_ids(s).contains(s.units@[i].id@))
}

/// The name of a unit's first weapon; empty where it has none.
pub open spec fn first_weapon_name(u: Unit) -> Seq<char> {
    if u.weapons@.len() > 0 {
        u.weapons@[0].name@
    } else {
        Seq::empty()
    }
}

fn first_weapon(u: &Unit) -> (r: String)
    ensures
        r@ == first_weapon_name(*u),
{
    if u.weapons.len() > 0 {
        u.weapons[0].name.clone()
    } else {
        String::new()
    }
}

/// Whether `d` is the unit at `index`, or the stand-in defender where there
/// is no index.
pub open spec fn defender_at(units: Seq<Unit>, index: Option<usize>, d: Unit) -> bool {
    match index {
        Some(k) => d == units[k as int],
        None => is_unselected_defender(d),
    }
}

/// The recent list after a roll: the unit named like the defender, then the
/// unit named like the attacker, each moved to the front where a unit of
/// that name is loaded.
pub open spec fn recent_after_roll(
    entries: Seq<(Seq<char>, Seq<char>)>,
    units: Seq<Unit>,
    attacker_name: Seq<char>,
    defender_name: Seq<char>,
) -> Seq<(Seq<char>, Seq<char>)> {
    let after_defender = match unit_named(units, defender_name) {
        Some(k) => touched(entries, units[k].id@, units[k].name@),
        None => entries,
    };
    match unit_named(units, attacker_name) {
        Some(k) => touched(after_defender, units[k].id@, units[k].name@),
        None => after_defender,
    }
}

/// The error that stops a roll request before any dice, or `None` where
/// the combat is rolled.
pub open spec fn roll_error(s: CombatSession) -> Option<Seq<char>> {
    if s.selected_attackers@.len() == 0 {
        Some("Select at least one attacker"@)
    } else if s.selected_defender@.len() == 0 && !s.stop_after_wound {
        Some("Select a defender"@)
    } else if s.selected_weapon@.len() == 0 {
        Some("Select a weapon"@)
    } else {
        match unit_with_id(s.units@, s.selected_attackers@[0]@) {
            Some(a) => if !defender_found(s) {
                Some("Selected units not found"@)
            } else if weapon_named(s.units@[a].weapons@, s.selected_weapon@) is None {
                Some("Selected weapon not found"@)
            } else {
                None
            },
            None => Some("Selected units not found"@),
        }
    }
}

/// Two sessions agree on the options of a roll, the critical effect
/// override aside.
pub open spec fn same_roll_options(a: CombatSession, b: CombatSession) -> bool {
    &&& a.num_models == b.num_models
    &&& a.has_champion == b.has_champion
    &&& a.use_attack_override == b.use_attack_override
    &&& a.attack_override == b.attack_override
    &&& a.include_ward == b.include_ward
    &&& a.stop_after_wound == b.stop_after_wound
    &&& a.hit_modifier == b.hit_modifier
    &&& a.wound_modifier == b.wound_modifier
    &&& a.rend_modifier == b.rend_modifier
    &&& a.damage_modifier == b.damage_modifier
    &&& a.attack_modifier == b.attack_modifier
}

/// Two sessions agree on everything but the selected units and weapon.
pub open spec fn same_but_selection(a: CombatSession, b: CombatSession) -> bool {
    &&& a.units == b.units
    &&& same_roll_options(a, b)
    &&& a.crit_effect_override == b.crit_effect_override
    &&& a.last_selected_weapon == b.last_selected_weapon
    &&& a.combat_log == b.combat_log
    &&& a.error_message == b.error_message
    &&& a.recent_units == b.recent_units
}

/// Two sessions agree on everything but the log, the error and the recent
/// list.
pub open spec fn same_selection(a: CombatSession, b: CombatSession) -> bool {
    &&& a.units == b.units
    &&& a.selected_attackers == b.selected_attackers
    &&& a.selected_weapon == b.selected_weapon
    &&& a.selected_defender == b.selected_defender
    &&& same_roll_options(a, b)
    &&& a.crit_effect_override == b.crit_effect_override
    &&& a.last_selected_weapon == b.last_selected_weapon
}

/// What a roll request leaves behind: on an error, only the error message
/// changes; otherwise one result that follows from the selected units and
/// options is appended to the log, the error is cleared, and the defender
/// then the attacker move to the front of the recent list.
pub open spec fn rolled(s: CombatSession, t: CombatSession) -> bool {
    &&& same_selection(s, t)
    &&& match roll_error(s) {
        Some(m) => {
            &&& t.error_message matches Some(e) && e@ == m
            &&& t.combat_log == s.combat_log
            &&& t.recent_units == s.recent_units
        },
        None => {
            let attacker = s.units@[unit_with_id(s.units@, s.selected_attackers@[0]@)->0];
            let weapon = attacker.weapons@[weapon_named(attacker.weapons@, s.selected_weapon@)->0];
            let r = t.combat_log@.last();
            &&& t.error_message is None
            &&& t.combat_log@.len() == s.combat_log@.len() + 1
            &&& t.combat_log@.drop_last() == s.combat_log@
            &&& exists|d: Unit| #[trigger] defender_for_roll(s, d) && roll_result_ok(s, attacker, d, weapon, r)
                && recent_view(t.recent_units@) == recent_after_roll(
                recent_view(s.recent_units@),
                s.units@,
                attacker.name@,
                d.name@,
            )
        },
    }
}

fn copy_crit_effect(c: &Option<CritEffect>) -> (r: Option<CritEffect>)
    ensures
        r == *c,
{
    match c {
        None => None,
        Some(CritEffect::AutoWound) => Some(CritEffect::AutoWound),
        Some(CritEffect::ExtraHit) => Some(CritEffect::ExtraHit),
        Some(CritEffect::MortalWounds(None)) => Some(CritEffect::MortalWounds(None)),
        Some(CritEffect::MortalWounds(Some(v))) => Some(CritEffect::MortalWounds(Some(v.clone()))),
    }
}

/// Moves the unit named `name`, where one is loaded, to the front of the
/// recent list.
fn touch_recent_named(recent: &mut Vec<(String, String)>, units: &Vec<Unit>, name: &String)
    ensures
        recent_view(final(recent)@) == match unit_named(units@, name@) {
            Some(k) => touched(recent_view(old(recent)@), units@[k].id@, units@[k].name@),
            None => recent_view(old(recent)@),
        },
{
    match find_unit_named(units, name) {
        Some(k) => touch_recent(recent, &units[k].id, &units[k].name),
        None => {},
    }
}

/// The state of a rolling session.
pub struct CombatSession {
    pub units: Vec<Unit>,
    /// Unit ids; the first one attacks.
    pub selected_attackers: Vec<String>,
    pub selected_weapon: String,
    pub selected_defender: String,
    /// Number of attacking models.
    pub num_models: usize,
    /// Adds +1 to total attacks.
    pub has_champion: bool,
    /// Toggles between models × attack and a fixed number of attacks.
    pub use_attack_override: bool,
    /// Fixed attack count when the override is enabled.
    pub attack_override: usize,
    pub include_ward: bool,
    pub stop_after_wound: bool,
    pub hit_modifier: i8,
    pub wound_modifier: i8,
    pub rend_modifier: i8,
    pub damage_modifier: i8,
    /// Modifies the per-model attack count (`"D6"` becomes `"D6+1"`, `"2"`
    /// becomes `"4"`); ignored when the attack override is used.
    pub attack_modifier: i8,
    /// Overrides the weapon's built-in critical effect when set.
    pub crit_effect_override: Option<CritEffect>,
    /// The weapon selected when the selection was last synchronised; when
    /// the selected weapon changes, the critical effect override is reset.
    pub last_selected_weapon: String,
    /// Every result so far; the last one is the current result.
    pub combat_log: Vec<CombatResult>,
    pub error_message: Option<String>,
    /// Recently used units (id, name), merged from both roles, most recent
    /// first, each unit once.
    pub recent_units: Vec<(String, String)>,
}

impl CombatSession {
    /// A session over loaded units, with the default options: one model,
    /// no champion, an attack override of 10 (not used), ward saves
    /// included, no modifiers, nothing selected.
    pub fn new(units: Vec<Unit>) -> (r: Self)
        ensures
            r.units == units,
            r.selected_attackers@.len() == 0,
            r.selected_weapon@.len() == 0,
            r.selected_defender@.len() == 0,
            r.num_models == 1,
            !r.has_champion,
            !r.use_attack_override,
            r.attack_override == 10,
            r.include_ward,
            !r.stop_after_wound,
            r.hit_modifier == 0 && r.wound_modifier == 0 && r.rend_modifier == 0,
            r.damage_modifier == 0 && r.attack_modifier == 0,
            r.crit_effect_override is None,
            r.last_selected_weapon@.len() == 0,
            r.combat_log@.len() == 0,
            r.error_message is None,
            r.recent_units@.len() == 0,
    {
        CombatSession {
            units,
            selected_attackers: Vec::new(),
            selected_weapon: String::new(),
            selected_defender: String::new(),
            num_models: 1,
            has_champion: false,
            use_attack_override: false,
            attack_override: 10,
            include_ward: true,
            stop_after_wound: false,
            hit_modifier: 0,
            wound_modifier: 0,
            rend_modifier: 0,
            damage_modifier: 0,
            attack_modifier: 0,
            crit_effect_override: None,
            last_selected_weapon: String::new(),
            combat_log: Vec::new(),
            error_message: None,
            recent_units: Vec::new(),
        }
    }

    /// The latest result: the last entry of the log.
    pub fn current_result(&self) -> (r: Option<&CombatResult>)
        ensures
            self.combat_log@.len() == 0 ==> r is None,
            self.combat_log@.len() > 0 ==> r == Some(&self.combat_log@.last()),
    {
        let n = self.combat_log.len();
        if n == 0 {
            None
        } else {
            Some(&self.combat_log[n - 1])
        }
    }

    /// The position of the first loaded unit that is among the selected
    /// attackers: the unit whose weapons are listed.
    pub fn attacker_shown(&self) -> (r: Option<usize>)
        ensures
            match r {
                Some(i) => i < self.units@.len() && shown_attacker(*self) == Some(i as int),
                None => shown_attacker(*self) is None,
            },
    {
        let ghost ids = selected_ids(*self);
        let ghost pred = |i: int| selected_ids(*self).contains(self.units@[i].id@);
        let mut i: usize = 0;
        while i < self.units.len()
            invariant
                i <= self.units@.len(),
                ids == selected_ids(*self),
                pred == (|i: int| selected_ids(*self).contains(self.units@[i].id@)),
                forall|j: int| 0 <= j < i ==> !#[trigger] pred(j),
            decreases self.units@.len() - i,
        {
            let mut k: usize = 0;
            while k < self.selected_attackers.len()
                invariant
                    i < self.units@.len(),
                    k <= self.selected_attackers@.len(),
                    ids == selected_ids(*self),
                    pred == (|i: int| selected_ids(*self).contains(self.units@[i].id@)),
                    forall|j: int| 0 <= j < i ==> !#[trigger] pred(j),
                    forall|t: int| 0 <= t < k ==> ids[t] != self.units@[i as int].id@,
                decreases self.selected_attackers@.len() - k,
            {
                if self.selected_attackers[k] == self.units[i].id {
                    proof {
                        assert(ids[k as int] == self.units@[i as int].id@);
                        assert(ids.contains(self.units@[i as int].id@));
                        assert(pred(i as int));
                        lemma_first_where(self.units@.len() as int, pred, i as int);
                    }
                    return Some(i);
                }
                k = k + 1;
            }
            proof {
                assert(!pred(i as int)) by {
                    if ids.contains(self.units@[i as int].id@) {
                        let t = choose|t: int| 0 <= t < ids.len() && ids[t] == self.units@[i as int].id@;
                    }
                }
            }
            i = i + 1;
        }
        None
    }

    /// Selects the loaded unit at `k` as the single attacker, as a click on
    /// it in the attacker list does, and selects its first weapon (none where
    /// it has no weapon). A click on the unit already selected does nothing.
    pub fn select_attacker(&mut self, k: usize)
        requires
            k < old(self).units@.len(),
        ensures
            ({
                let unit = old(self).units@[k as int];
                if old(self).selected_attackers@.map_values(|a: String| a@).contains(unit.id@) {
                    *final(self) == *old(self)
                } else {
                    &&& final(self).selected_attackers@.len() == 1
                    &&& final(self).selected_attackers@[0]@ == unit.id@
                    &&& final(self).selected_weapon@ == first_weapon_name(unit)
                    &&& final(self).selected_defender == old(self).selected_defender
                    &&& same_but_selection(*old(self), *final(self))
                }
            }),
    {
        let ghost ids = self.selected_attackers@.map_values(|a: String| a@);
        let mut i: usize = 0;
        while i < self.selected_attackers.len()
            invariant
                i <= self.selected_attackers@.len(),
                k < self.units@.len(),
                ids == self.selected_attackers@.map_values(|a: String| a@),
                forall|j: int| 0 <= j < i ==> ids[j] != self.units@[k as int].id@,
            decreases self.selected_attackers@.len() - i,
        {
            if self.selected_attackers[i] == self.units[k].id {
                assert(ids[i as int] == self.units@[k as int].id@);
                return;
            }
            i = i + 1;
        }
        let id = self.units[k].id.clone();
        let weapon = first_weapon(&self.units[k]);
        self.selected_attackers = vec![id];
        self.selected_weapon = weapon;
    }

    /// Makes the unit with id `id` the single attacker, from the recent
    /// list: the unit stops being the defender, and where it is loaded its
    /// first weapon is selected (none where it has no weapon).
    pub fn choose_recent_attacker(&mut self, id: &String)
        ensures
            final(self).selected_attackers@.len() == 1,
            final(self).selected_attackers@[0]@ == id@,
            final(self).selected_defender@ == if old(self).selected_defender@ == id@ {
                Seq::<char>::empty()
            } else {
                old(self).selected_defender@
            },
            final(self).selected_weapon@ == match unit_with_id(old(self).units@, id@) {
                Some(u) => first_weapon_name(old(self).units@[u]),
                None => old(self).selected_weapon@,
            },
            same_but_selection(*old(self), *final(self)),
    {
        self.selected_attackers = vec![id.clone()];
        if self.selected_defender == *id {
            self.selected_defender = String::new();
        }
        match find_unit_with_id(&self.units, id) {
            Some(u) => {
                let weapon = first_weapon(&self.units[u]);
                self.selected_weapon = weapon;
            },
            None => {},
        }
    }

    /// Makes the unit with id `id` the defender, from the recent list; it
    /// stops being an attacker.
    pub fn choose_recent_defender(&mut self, id: &String)
        ensures
            final(self).selected_defender@ == id@,
            final(self).selected_attackers@.map_values(|a: String| a@) == old(
                self,
            ).selected_attackers@.map_values(|a: String| a@).filter(|a: Seq<char>| a != id@),
            !final(self).selected_attackers@.map_values(|a: String| a@).contains(id@),
            final(self).selected_weapon == old(self).selected_weapon,
            same_but_selection(*old(self), *final(self)),
    {
        self.selected_defender = id.clone();
        let ghost ids = self.selected_attackers@.map_values(|a: String| a@);
        let mut kept: Vec<String> = Vec::new();
        let mut i: usize = 0;
        while i < self.selected_attackers.len()
            invariant
                i <= self.selected_attackers@.len(),
                ids == self.selected_attackers@.map_values(|a: String| a@),
                kept@.map_values(|a: String| a@) == ids.take(i as int).filter(|a: Seq<char>| a != id@),
            decreases self.selected_attackers@.len() - i,
        {
            proof {
                assert(ids.take(i + 1).drop_last() =~= ids.take(i as int));
                reveal(Seq::filter);
            }
            if self.selected_attackers[i] != *id {
                let a = self.selected_attackers[i].clone();
                let ghost before = kept@;
                kept.push(a);
                proof {
                    assert(kept@.map_values(|a: String| a@) =~= before.map_values(|a: String| a@).push(ids[i as int]));
                }
            }
            i = i + 1;
        }
        proof {
            assert(ids.take(self.selected_attackers@.len() as int) =~= ids);
            let kept_ids = kept@.map_values(|a: String| a@);
            if kept_ids.contains(id@) {
                let j = choose|j: int| 0 <= j < kept_ids.len() && kept_ids[j] == id@;
                ids.lemma_filter_pred(|a: Seq<char>| a != id@, j);
                assert(ids.filter(|a: Seq<char>| a != id@)[j] == id@);
            }
        }
        self.selected_attackers = kept;
    }

    /// Notes the selected weapon; where it differs from the one noted
    /// before, the critical effect override is reset.
    pub fn sync_weapon_selection(&mut self)
        ensures
            final(self).last_selected_weapon@ == old(self).selected_weapon@,
            final(self).crit_effect_override == if old(self).selected_weapon@ == old(self).last_selected_weapon@ {
                old(self).crit_effect_override
            } else {
                None
            },
            final(self).selected_weapon == old(self).selected_weapon,
            final(self).selected_attackers == old(self).selected_attackers,
            final(self).selected_defender == old(self).selected_defender,
            final(self).units == old(self).units,
            same_roll_options(*old(self), *final(self)),
            final(self).combat_log == old(self).combat_log,
            final(self).error_message == old(self).error_message,
            final(self).recent_units == old(self).recent_units,
    {
        if self.selected_weapon != self.last_selected_weapon {
            self.crit_effect_override = None;
            self.last_selected_weapon = self.selected_weapon.clone();
        }
    }

    /// Rolls the combat of the unit at `a` with its weapon at `w` against
    /// the unit at `defender_index`, or the stand-in defender, and records it.
    fn roll_with(&mut self, a: usize, w: usize, defender_index: Option<usize>)
        requires
            a < old(self).units@.len(),
            w < old(self).units@[a as int].weapons@.len(),
            defender_index matches Some(k) ==> k < old(self).units@.len(),
            forall|d: Unit|
                #[trigger] defender_at(old(self).units@, defender_index, d) ==> roll_inputs_fit(
                    *old(self),
                    d,
                    old(self).units@[a as int].weapons@[w as int],
                ),
        ensures
            same_selection(*old(self), *final(self)),
            final(self).error_message is None,
            final(self).combat_log@.len() == old(self).combat_log@.len() + 1,
            final(self).combat_log@.drop_last() == old(self).combat_log@,
            exists|d: Unit|
                #[trigger] defender_at(old(self).units@, defender_index, d) && roll_result_ok(
                    *old(self),
                    old(self).units@[a as int],
                    d,
                    old(self).units@[a as int].weapons@[w as int],
                    final(self).combat_log@.last(),
                ) && recent_view(final(self).recent_units@) == recent_after_roll(
                    recent_view(old(self).recent_units@),
                    old(self).units@,
                    old(self).units@[a as int].name@,
                    d.name@,
                ),
    {
        let ghost s = *self;
        let placeholder = unselected_defender();
        let defender: &Unit = match defender_index {
            Some(k) => &self.units[k],
            None => &placeholder,
        };
        assert(defender_at(s.units@, defender_index, *defender));
        proof {
            reveal(roll_inputs_fit);
            reveal(roll_result_ok);
        }
        let result = resolve_combat(
            &self.units[a],
            defender,
            &self.units[a].weapons[w],
            self.num_models,
            self.has_champion,
            self.use_attack_override,
            self.attack_override,
            self.include_ward,
            self.stop_after_wound,
            self.hit_modifier,
            self.wound_modifier,
            self.rend_modifier,
            self.damage_modifier,
            self.attack_modifier,
            copy_crit_effect(&self.crit_effect_override),
            None,
        );
        let defender_name = defender.name.clone();
        let attacker_name = self.units[a].name.clone();
        touch_recent_named(&mut self.recent_units, &self.units, &defender_name);
        touch_recent_named(&mut self.recent_units, &self.units, &attacker_name);
        self.combat_log.push(result);
        self.error_message = None;
        proof {
            assert(self.combat_log@.drop_last() =~= s.combat_log@);
        }
    }

    /// Rolls the combat for the current selection, as the ROLL COMBAT button
    /// does: the first selected attacker with the selected weapon against the
    /// selected defender (a stand-in with no save when the combat stops
    /// after the Wound phase and none is selected). An incomplete or unknown
    /// selection only sets the error message.
    #[verifier::rlimit(30)]
    pub fn roll_combat(&mut self)
        requires
            roll_fits(*old(self)),
        ensures
            rolled(*old(self), *final(self)),
    {
        if self.selected_attackers.len() == 0 {
            self.error_message = Some(String::from_str("Select at least one attacker"));
            proof { reveal_strlit("Select at least one attacker"); }
            return;
        }
        if self.selected_defender.as_str().is_empty() && !self.stop_after_wound {
            self.error_message = Some(String::from_str("Select a defender"));
            proof { reveal_strlit("Select a defender"); }
            return;
        }
        if self.selected_weapon.as_str().is_empty() {
            self.error_message = Some(String::from_str("Select a weapon"));
            proof { reveal_strlit("Select a weapon"); }
            return;
        }
        let attacker_index = find_unit_with_id(&self.units, &self.selected_attackers[0]);
        let stand_in = self.stop_after_wound && self.selected_defender.as_str().is_empty();
        let defender_index = if stand_in {
            None
        } else {
            find_unit_with_id(&self.units, &self.selected_defender)
        };
        let a = match attacker_index {
            Some(a) => a,
            None => {
                self.error_message = Some(String::from_str("Selected units not found"));
                proof { reveal_strlit("Selected units not found"); }
                return;
            },
        };
        if !stand_in && defender_index.is_none() {
            self.error_message = Some(String::from_str("Selected units not found"));
            proof { reveal_strlit("Selected units not found"); }
            return;
        }
        let w = match find_weapon_named(&self.units[a].weapons, &self.selected_weapon) {
            Some(w) => w,
            None => {
                self.error_message = Some(String::from_str("Selected weapon not found"));
                proof { reveal_strlit("Selected weapon not found"); }
                return;
            },
        };
        let ghost s = *self;
        proof {
            assert forall|d: Unit| defender_at(s.units@, defender_index, d) implies roll_inputs_fit(
                s,
                d,
                s.units@[a as int].weapons@[w as int],
            ) by {
                assert(defender_for_roll(s, d));
            }
        }
        self.roll_with(a, w, defender_index);
        proof {
            let d = choose|d: Unit| #[trigger] defender_at(s.units@, defender_index, d) && roll_result_ok(
                s,
                s.units@[a as int],
                d,
                s.units@[a as int].weapons@[w as int],
                self.combat_log@.last(),
            ) && recent_view(self.recent_units@) == recent_after_roll(
                recent_view(s.recent_units@),
                s.units@,
                s.units@[a as int].name@,
                d.name@,
            );
            assert(defender_for_roll(s, d));
        }
    }

    /// Whether the engine accepts the roll that `roll_combat` would make
    /// (see `roll_fits`).
    pub fn roll_is_possible(&self) -> (r: bool)
        ensures
            r == roll_fits(*self),
    {
        let stand_in = self.stop_after_wound && self.selected_defender.as_str().is_empty();
        if self.selected_attackers.len() == 0 || (self.selected_defender.as_str().is_empty() && !self.stop_after_wound)
            || self.selected_weapon.as_str().is_empty() {
            return true;
        }
        let defender_index = if stand_in {
            None
        } else {
            find_unit_with_id(&self.units, &self.selected_defender)
        };
        if !stand_in && defender_index.is_none() {
            return true;
        }
        let a = match find_unit_with_id(&self.units, &self.selected_attackers[0]) {
            Some(a) => a,
            None => return true,
        };
        let w = match find_weapon_named(&self.units[a].weapons, &self.selected_weapon) {
            Some(w) => w,
            None => return true,
        };
        let placeholder = unselected_defender();
        let defender: &Unit = match defender_index {
            Some(k) => &self.units[k],
            None => &placeholder,
        };
        let fits = combat_inputs_check(
            defender,
            &self.units[a].weapons[w],
            self.num_models,
            self.has_champion,
            self.use_attack_override,
            self.attack_override,
            self.stop_after_wound,
            self.hit_modifier,
            self.wound_modifier,
            self.rend_modifier,
            self.damage_modifier,
            self.attack_modifier,
            &self.crit_effect_override,
            None,
        );
        proof {
            reveal(roll_inputs_fit);
            assert(defender_for_roll(*self, *defender));
            if fits {
                assert forall|d: Unit| defender_for_roll(*self, d) implies roll_inputs_fit(
                    *self,
                    d,
                    self.units@[a as int].weapons@[w as int],
                ) by {
                    assert(d.save == defender.save);
                }
            }
        }
        fits
    }

    /// `roll_combat` where the engine accepts the roll; otherwise the session
    /// is left as it is and `false` returned.
    pub fn try_roll_combat(&mut self) -> (r: bool)
        ensures
            r == roll_fits(*old(self)),
            r ==> rolled(*old(self), *final(self)),
            !r ==> *final(self) == *old(self),
    {
        if self.roll_is_possible() {
            self.roll_combat();
            true
        } else {
            false
        }
    }
}

} // verus!
