//! The combat engine: the Hit, Wound, Save, Damage and Ward phases.

use vstd::prelude::*;

use crate::combat::dice;
use crate::combat::dice::{modifier_split, parse_i16_text, parse_modifier};
use crate::combat::types;
use crate::combat::types::{CombatResult, DiceRoll, Phase, PhaseResult, WardResult};
use crate::data::models::{CritEffect, Unit, Weapon};
use crate::text;
use crate::text::{decimal_string, push_modifier};
use crate::combat::describe;
use crate::combat::describe::{describe_fixed_hits, describe_model_hits};

verus! {

// ---------------------------------------------------------------------------
// Modified profile values.
// ---------------------------------------------------------------------------

/// A profile text after a signed modifier: unchanged for modifier 0; for a
/// numeric text (as `i16` reads it) the shifted number, floored at 1; for a
/// text that ends in a readable modifier (`"D6+2"`) that modifier combined
/// with the new one (`"D6+1"` after -1, just `"D6"` where they cancel); for
/// any other text the modifier appended (`"D3"` and +2 give `"D3+2"`, `"D6"`
/// and -1 give `"D6-1"`).
pub open spec fn modified_text(s: Seq<char>, m: int) -> Seq<char> {
    if m == 0 {
        s
    } else {
        match dice::i16_from_text(s) {
            Some(b) => text::decimal(if b + m < 1 { 1nat } else { (b + m) as nat }),
            None => {
                let split = dice::modifier_start(s);
                let base = s.subrange(0, split);
                let mod_part = s.subrange(split, s.len() as int);
                match dice::modifier_parse(mod_part) {
                    Ok(k) => if mod_part.len() > 0 {
                        if k + m == 0 { base } else { base + text::modifier_text(k + m) }
                    } else {
                        s + text::modifier_text(m)
                    },
                    Err(_) => s + text::modifier_text(m),
                }
            },
        }
    }
}

/// Shifting a numeric text stays within `i16`.
pub open spec fn modifier_fits(s: Seq<char>, m: int) -> bool {
    m == 0 || match dice::i16_from_text(s) {
        Some(b) => -32768 <= b + m <= 32767,
        None => true,
    }
}

/// Applies a signed modifier to a numeric or dice string, returning a new
/// string: `"D3"` + 2 gives `"D3+2"`, `"2"` + 1 gives `"3"`, `"2"` - 1
/// gives `"1"`, `"D6+2"` - 1 gives `"D6+1"`.
pub fn apply_modifier(value_str: &str, modifier: i8) -> (r: String)
    requires
        modifier_fits(value_str@, modifier as int),
    ensures
        r@ == modified_text(value_str@, modifier as int),
{
    if modifier == 0 {
        return String::from_str(value_str);
    }
    match parse_i16_text(value_str) {
        Ok(base) => {
            let shifted: i16 = base + modifier as i16;
            let v: i16 = if shifted < 1 { 1 } else { shifted };
            decimal_string(v as usize)
        },
        Err(_) => {
            let len = value_str.unicode_len();
            let split = modifier_split(value_str);
            let mod_part = value_str.substring_char(split, len);
            if mod_part.unicode_len() > 0 {
                if let Ok(k) = parse_modifier(mod_part) {
                    let base = value_str.substring_char(0, split);
                    let mut s = String::from_str(base);
                    let total: i32 = k + modifier as i32;
                    if total != 0 {
                        push_modifier(&mut s, total);
                    }
                    return s;
                }
            }
            let mut s = String::from_str(value_str);
            push_modifier(&mut s, modifier as i32);
            s
        },
    }
}

/// Applies a damage modifier to a damage string.
pub fn apply_damage_modifier(damage_str: &str, modifier: i8) -> (r: String)
    requires
        modifier_fits(damage_str@, modifier as int),
    ensures
        r@ == modified_text(damage_str@, modifier as int),
{
    apply_modifier(damage_str, modifier)
}

/// Applies an attack modifier to an attack string (`"D6"` + 1 gives
/// `"D6+1"`, `"2"` + 2 gives `"4"`, `"D6"` - 1 gives `"D6-1"`).
pub fn apply_attack_modifier(attack_str: &str, modifier: i8) -> (r: String)
    requires
        modifier_fits(attack_str@, modifier as int),
    ensures
        r@ == modified_text(attack_str@, modifier as int),
{
    apply_modifier(attack_str, modifier)
}

/// A `u8` profile value read as `i8`, as `value as i8` reads it.
pub open spec fn i8_of_u8(x: u8) -> int {
    if x < 128 { x as int } else { x as int - 256 }
}

fn i8_value_of(x: u8) -> (r: i16)
    ensures
        r as int == i8_of_u8(x),
{
    if x < 128 { x as i16 } else { x as i16 - 256 }
}

/// The save target arithmetic stays within `i8`.
pub open spec fn save_target_fits(save: u8, rend: i8, rend_modifier: i8) -> bool {
    &&& -128 <= i8_of_u8(save) - rend <= 127
    &&& -128 <= i8_of_u8(save) - rend + rend_modifier <= 127
}

/// The roll a save needs: the save, worsened by rend (stored as a negative
/// number) and by the rend modifier, never below 2+. A target above 6
/// cannot be met.
pub open spec fn save_target(save: u8, rend: i8, rend_modifier: i8) -> u8 {
    let t = i8_of_u8(save) - rend + rend_modifier;
    if t < 2 { 2u8 } else { t as u8 }
}

/// Calculates the save target number. A result above 6 means the save
/// auto-fails.
pub fn calculate_save_target(defender_save: u8, weapon_rend: i8, rend_modifier: i8) -> (r: u8)
    requires
        save_target_fits(defender_save, weapon_rend, rend_modifier),
    ensures
        r == save_target(defender_save, weapon_rend, rend_modifier),
{
    let target: i16 = i8_value_of(defender_save) - weapon_rend as i16 + rend_modifier as i16;
    if target < 2 { 2 } else { target as u8 }
}

/// A hit or wound characteristic after its modifier stays within `i8`.
pub open spec fn target_modifier_fits(stat: u8, modifier: i8) -> bool {
    -128 <= i8_of_u8(stat) - modifier <= 127
}

/// A hit or wound target after its modifier (positive modifiers make the
/// roll easier), clamped to `2..=6`: no modifier pushes a target below 2+.
pub open spec fn effective_target(stat: u8, modifier: i8) -> u8 {
    let t = i8_of_u8(stat) - modifier;
    if t < 2 { 2u8 } else if t > 6 { 6u8 } else { t as u8 }
}

fn effective_target_value(stat: u8, modifier: i8) -> (r: u8)
    requires
        target_modifier_fits(stat, modifier),
    ensures
        r == effective_target(stat, modifier),
{
    let t: i16 = i8_value_of(stat) - modifier as i16;
    if t < 2 { 2 } else if t > 6 { 6 } else { t as u8 }
}

// ---------------------------------------------------------------------------
// Counting dice.
// ---------------------------------------------------------------------------

/// Whether a die passes a target: at or above it, and not a natural 1,
/// which always fails.
pub open spec fn passes(v: u8, t: int) -> bool {
    v >= 2 && v >= t
}

/// The number of faces that pass `t`.
pub open spec fn count_passing(vals: Seq<u8>, t: int) -> nat
    decreases vals.len(),
{
    if vals.len() == 0 {
        0
    } else {
        count_passing(vals.drop_last(), t) + if passes(vals.last(), t) { 1nat } else { 0nat }
    }
}

/// The number of faces that fail `t`: below it, or a natural 1.
pub open spec fn count_failing(vals: Seq<u8>, t: int) -> nat
    decreases vals.len(),
{
    if vals.len() == 0 {
        0
    } else {
        count_failing(vals.drop_last(), t) + if !passes(vals.last(), t) { 1nat } else { 0nat }
    }
}

/// The number of sixes.
pub open spec fn count_sixes(vals: Seq<u8>) -> nat
    decreases vals.len(),
{
    if vals.len() == 0 {
        0
    } else {
        count_sixes(vals.drop_last()) + if vals.last() == 6 { 1nat } else { 0nat }
    }
}

/// Every die passes a target or fails it; there are no more sixes than
/// dice.
pub proof fn lemma_counts_bounded(vals: Seq<u8>, t: int)
    ensures
        count_passing(vals, t) + count_failing(vals, t) == vals.len(),
        count_sixes(vals) <= vals.len(),
    decreases vals.len(),
{
    if vals.len() > 0 {
        lemma_counts_bounded(vals.drop_last(), t);
    }
}

proof fn lemma_take_last(vals: Seq<u8>, i: int)
    requires
        0 <= i < vals.len(),
    ensures
        vals.take(i + 1).drop_last() == vals.take(i),
        vals.take(i + 1).last() == vals[i],
{
    assert(vals.take(i + 1).drop_last() =~= vals.take(i));
}

/// The dice that a phase uses: the ones provided, else `n` fresh D6.
pub open spec fn provided_or_rolled(provided: Option<&[u8]>, n: nat, vals: Seq<u8>) -> bool {
    match provided {
        Some(p) => vals == p@,
        None => vals.len() == n && dice::all_d6_faces(vals),
    }
}

/// Fresh D6 showing these faces, as a log records them.
pub open spec fn d6_draws(vals: Seq<u8>) -> Seq<(u8, u8)> {
    vals.map_values(|v: u8| (6u8, v))
}

/// The dice drawn for a phase whose dice show `vals`: none where its dice
/// were provided, else one D6 for each of its faces, in order.
pub open spec fn provided_draws(provided: Option<&[u8]>, vals: Seq<u8>) -> Seq<(u8, u8)> {
    match provided {
        Some(_) => Seq::empty(),
        None => d6_draws(vals),
    }
}

/// The dice `d` are those drawn for a phase whose dice show `vals`.
pub open spec fn drew_for(provided: Option<&[u8]>, vals: Seq<u8>, d: Seq<(u8, u8)>) -> bool {
    d == provided_draws(provided, vals)
}

/// The dice drawn for the Save, Damage and Ward phases `p` of a combat,
/// `text` being the damage text: a D6 per save die, then the damage's own
/// dice, then a D6 per ward die where there is a Ward phase.
pub open spec fn later_phases_drew(p: Seq<PhaseResult>, text: Seq<char>, d: Seq<(u8, u8)>) -> bool {
    let save_d = d6_draws(types::faces(p[0].rolls@));
    let ward_d = if p.len() > 2 { d6_draws(types::faces(p[2].rolls@)) } else { Seq::<(u8, u8)>::empty() };
    exists|dmg: Seq<(u8, u8)>|
        #[trigger] damage_drew(text, p[0].total_output as nat, types::faces(p[1].rolls@), dmg) && d == save_d + dmg + ward_d
}

/// The dice that reading the attack text drew: none with an attack
/// override; for a text with dice, a reading of its own for each model, one
/// after another, giving the recorded per-model values; else one reading.
pub open spec fn attack_drew(
    text: Seq<char>,
    use_attack_override: bool,
    variance: Option<types::VarianceStep>,
    d: Seq<(u8, u8)>,
) -> bool {
    if use_attack_override {
        d.len() == 0
    } else if has_dice_text(text) {
        match variance {
            Some(types::VarianceStep::AttackRoll { results, .. }) => dice::rolled_each(text, results@, d),
            _ => false,
        }
    } else {
        exists|v: u8| #[trigger] dice::text_value_rolled(text, d, v)
    }
}

/// The dice that the mortal wounds of `sixes` critical hits drew, `text`
/// being the mortal wounds' text: a reading of its own for each six, one
/// after another, whose values add up to `total`.
pub open spec fn mortal_drew(text: Option<Seq<char>>, sixes: nat, total: nat, d: Seq<(u8, u8)>) -> bool {
    match text {
        None => d.len() == 0,
        Some(t) => exists|mws: Seq<u8>|
            #[trigger] dice::rolled_each(t, mws, d) && mws.len() == sixes && dice::sum_faces(mws) == total,
    }
}

/// The dice that the hit roll drew: its hit dice (where they were not
/// provided), then those of its mortal wounds.
pub open spec fn hit_drew(
    provided: Option<&[u8]>,
    vals: Seq<u8>,
    text: Option<Seq<char>>,
    total: nat,
    d: Seq<(u8, u8)>,
) -> bool {
    exists|md: Seq<(u8, u8)>| #[trigger] mortal_drew(text, count_sixes(vals), total, md) && d == provided_draws(provided, vals) + md
}

/// The dice drawn after the Wound phase: none where the combat stopped
/// there, else those of the later phases.
pub open spec fn rest_drew(stop_after_wound: bool, p: Seq<PhaseResult>, text: Seq<char>, d: Seq<(u8, u8)>) -> bool {
    if stop_after_wound {
        d.len() == 0
    } else {
        later_phases_drew(p, text, d)
    }
}

/// The dice that the combat `c` drew, in the order drawn: those of the
/// attack counts, of the hit roll and its mortal wounds, a D6 per wound die,
/// then those of the later phases; every one of them shows in `c`.
pub open spec fn combat_drew(
    c: CombatResult,
    weapon: Weapon,
    use_attack_override: bool,
    damage_modifier: i8,
    attack_modifier: i8,
    crit_effect_override: Option<CritEffect>,
    provided: Option<&[u8]>,
    stop_after_wound: bool,
    d: Seq<(u8, u8)>,
) -> bool {
    let crit = effective_crit(crit_effect_override, weapon.crit_hit);
    let attack_text = modified_text(weapon.attack@, attack_modifier as int);
    let damage_text = modified_text(weapon.damage@, damage_modifier as int);
    let hit = c.phases@[0];
    exists|att_d: Seq<(u8, u8)>, hit_d: Seq<(u8, u8)>, rest: Seq<(u8, u8)>|
        #![trigger attack_drew(attack_text, use_attack_override, hit.variance_step, att_d), hit_drew(provided, types::faces(hit.rolls@), mortal_damage_text(crit, damage_modifier), c.mortal_wounds as nat, hit_d), rest_drew(stop_after_wound, c.phases@.skip(2), damage_text, rest)]
        {
            &&& attack_drew(attack_text, use_attack_override, hit.variance_step, att_d)
            &&& hit_drew(provided, types::faces(hit.rolls@), mortal_damage_text(crit, damage_modifier), c.mortal_wounds as nat, hit_d)
            &&& rest_drew(stop_after_wound, c.phases@.skip(2), damage_text, rest)
            &&& d == att_d + hit_d + d6_draws(types::faces(c.phases@[1].rolls@)) + rest
        }
}

/// The dice of a combat laid out as `combat_drew` says, given each part.
proof fn lemma_combat_drew(
    c: CombatResult,
    weapon: Weapon,
    use_attack_override: bool,
    damage_modifier: i8,
    attack_modifier: i8,
    crit_effect_override: Option<CritEffect>,
    provided: Option<&[u8]>,
    stop_after_wound: bool,
    att_d: Seq<(u8, u8)>,
    hit_d: Seq<(u8, u8)>,
    rest: Seq<(u8, u8)>,
    d: Seq<(u8, u8)>,
)
    requires
        attack_drew(modified_text(weapon.attack@, attack_modifier as int), use_attack_override, c.phases@[0].variance_step, att_d),
        hit_drew(
            provided,
            types::faces(c.phases@[0].rolls@),
            mortal_damage_text(effective_crit(crit_effect_override, weapon.crit_hit), damage_modifier),
            c.mortal_wounds as nat,
            hit_d,
        ),
        rest_drew(stop_after_wound, c.phases@.skip(2), modified_text(weapon.damage@, damage_modifier as int), rest),
        d == att_d + hit_d + d6_draws(types::faces(c.phases@[1].rolls@)) + rest,
    ensures
        combat_drew(
            c,
            weapon,
            use_attack_override,
            damage_modifier,
            attack_modifier,
            crit_effect_override,
            provided,
            stop_after_wound,
            d,
        ),
{
}

/// The provided dice, or `n` fresh D6 drawn into `log`.
fn dice_or_roll(provided: Option<&[u8]>, n: usize, log: &mut dice::DiceLog) -> (r: Vec<u8>)
    ensures
        provided_or_rolled(provided, n as nat, r@),
        dice::log_extends(old(log)@, final(log)@),
        drew_for(provided, r@, dice::drawn_since(old(log)@, final(log)@)),
{
    let ghost start = log@;
    proof { dice::lemma_log_same(start); }
    match provided {
        Some(p) => {
            let mut out: Vec<u8> = Vec::new();
            let mut i: usize = 0;
            while i < p.len()
                invariant
                    i <= p@.len(),
                    out@ == p@.take(i as int),
                decreases p@.len() - i,
            {
                out.push(p[i]);
                i = i + 1;
                assert(out@ =~= p@.take(i as int));
            }
            assert(out@ =~= p@);
            assert(dice::drawn_since(start, log@) =~= Seq::<(u8, u8)>::empty());
            out
        },
        None => {
            let mut out: Vec<u8> = Vec::new();
            let mut i: usize = 0;
            assert(d6_draws(out@) =~= Seq::<(u8, u8)>::empty());
            while i < n
                invariant
                    i <= n,
                    out@.len() == i,
                    dice::all_d6_faces(out@),
                    dice::log_extends(start, log@),
                    dice::drawn_since(start, log@) == d6_draws(out@),
                decreases n - i,
            {
                let ghost before = log@;
                let v = log.draw(6);
                proof {
                    assert(dice::log_extends(before, log@)) by {
                        assert(log@.take(before.len() as int) =~= before);
                    }
                    dice::lemma_log_chain(start, before, log@);
                    assert(dice::drawn_since(before, log@) =~= seq![(6u8, v)]);
                    assert(d6_draws(out@.push(v)) =~= d6_draws(out@) + seq![(6u8, v)]);
                }
                out.push(v);
                i = i + 1;
            }
            out
        },
    }
}

/// Dice that succeed where they pass a target, none of them critical.
pub open spec fn target_rolls(rolls: Seq<DiceRoll>, t: int) -> bool {
    forall|i: int| 0 <= i < rolls.len() ==> (#[trigger] rolls[i]).success == passes(rolls[i].value, t) && !rolls[i].is_crit
}

/// Save dice: a die succeeds (the wound gets through) where it fails the
/// target.
pub open spec fn save_rolls(rolls: Seq<DiceRoll>, t: int) -> bool {
    forall|i: int| 0 <= i < rolls.len() ==> (#[trigger] rolls[i]).success == !passes(rolls[i].value, t) && !rolls[i].is_crit
}

/// Scores dice against a target: each succeeds where it passes it.
fn score_at_least(vals: &Vec<u8>, t: u8) -> (r: (usize, Vec<DiceRoll>))
    ensures
        types::faces(r.1@) == vals@,
        target_rolls(r.1@, t as int),
        r.0 == count_passing(vals@, t as int),
{
    let mut count: usize = 0;
    let mut out: Vec<DiceRoll> = Vec::new();
    let mut i: usize = 0;
    while i < vals.len()
        invariant
            i <= vals@.len(),
            out@.len() == i,
            forall|j: int| 0 <= j < i ==> (#[trigger] out@[j]).value == vals@[j],
            target_rolls(out@, t as int),
            count == count_passing(vals@.take(i as int), t as int),
            count <= i,
        decreases vals@.len() - i,
    {
        proof { lemma_take_last(vals@, i as int); }
        let v = vals[i];
        let success = v >= 2 && v >= t;
        if success {
            count = count + 1;
        }
        out.push(DiceRoll { value: v, success, is_crit: false });
        i = i + 1;
    }
    assert(vals@.take(vals@.len() as int) =~= vals@);
    assert(types::faces(out@) =~= vals@);
    (count, out)
}

/// Resolves the wound phase: each die at or above the wound target wounds;
/// a natural 1 never does.
pub fn resolve_wounds(
    _weapon: &Weapon,
    wounds_to_roll: usize,
    effective_to_wound: u8,
    provided_rolls: Option<&[u8]>,
) -> (r: (usize, Vec<DiceRoll>))
    ensures
        provided_or_rolled(provided_rolls, wounds_to_roll as nat, types::faces(r.1@)),
        target_rolls(r.1@, effective_to_wound as int),
        r.0 == count_passing(types::faces(r.1@), effective_to_wound as int),
{
    let mut log = dice::DiceLog::new();
    resolve_wounds_in(_weapon, wounds_to_roll, effective_to_wound, provided_rolls, &mut log)
}

/// `resolve_wounds`, drawing its dice into `log`.
fn resolve_wounds_in(
    _weapon: &Weapon,
    wounds_to_roll: usize,
    effective_to_wound: u8,
    provided_rolls: Option<&[u8]>,
    log: &mut dice::DiceLog,
) -> (r: (usize, Vec<DiceRoll>))
    ensures
        provided_or_rolled(provided_rolls, wounds_to_roll as nat, types::faces(r.1@)),
        target_rolls(r.1@, effective_to_wound as int),
        r.0 == count_passing(types::faces(r.1@), effective_to_wound as int),
        dice::log_extends(old(log)@, final(log)@),
        drew_for(provided_rolls, types::faces(r.1@), dice::drawn_since(old(log)@, final(log)@)),
{
    let vals = dice_or_roll(provided_rolls, wounds_to_roll, log);
    score_at_least(&vals, effective_to_wound)
}
/// Resolves the save phase. A target above 6 auto-fails: every wound gets
/// through and nothing is rolled. Otherwise each die below the target, and
/// each natural 1, lets its wound through. Gives (unsaved wounds, dice,
/// auto-failed).
pub fn resolve_save(save_target: u8, wounds: usize, provided_rolls: Option<&[u8]>) -> (r: (
    usize,
    Vec<DiceRoll>,
    bool,
))
    ensures
        save_target > 6 ==> r.0 == wounds && r.1@.len() == 0 && r.2,
        save_target <= 6 ==> {
            &&& provided_or_rolled(provided_rolls, wounds as nat, types::faces(r.1@))
            &&& save_rolls(r.1@, save_target as int)
            &&& r.0 == count_failing(types::faces(r.1@), save_target as int)
            &&& !r.2
        },
{
    let mut log = dice::DiceLog::new();
    resolve_save_in(save_target, wounds, provided_rolls, &mut log)
}

/// `resolve_save`, drawing its dice into `log`.
fn resolve_save_in(save_target: u8, wounds: usize, provided_rolls: Option<&[u8]>, log: &mut dice::DiceLog) -> (r: (
    usize,
    Vec<DiceRoll>,
    bool,
))
    ensures
        save_target > 6 ==> r.0 == wounds && r.1@.len() == 0 && r.2,
        save_target <= 6 ==> {
            &&& provided_or_rolled(provided_rolls, wounds as nat, types::faces(r.1@))
            &&& save_rolls(r.1@, save_target as int)
            &&& r.0 == count_failing(types::faces(r.1@), save_target as int)
            &&& !r.2
        },
        dice::log_extends(old(log)@, final(log)@),
        drew_for(provided_rolls, types::faces(r.1@), dice::drawn_since(old(log)@, final(log)@)),
{
    if save_target > 6 {
        proof { dice::lemma_log_same(log@); }
        assert(d6_draws(Seq::<u8>::empty()) =~= Seq::<(u8, u8)>::empty());
        let none: Vec<DiceRoll> = Vec::new();
        assert(types::faces(none@) =~= Seq::<u8>::empty());
        return (wounds, none, true);
    }
    let vals = dice_or_roll(provided_rolls, wounds, log);
    let mut unsaved: usize = 0;
    let mut out: Vec<DiceRoll> = Vec::new();
    let mut i: usize = 0;
    while i < vals.len()
        invariant
            i <= vals@.len(),
            out@.len() == i,
            forall|j: int| 0 <= j < i ==> (#[trigger] out@[j]).value == vals@[j],
            save_rolls(out@, save_target as int),
            unsaved == count_failing(vals@.take(i as int), save_target as int),
            unsaved <= i,
        decreases vals@.len() - i,
    {
        proof { lemma_take_last(vals@, i as int); }
        let v = vals[i];
        let saved = v >= 2 && v >= save_target;
        if !saved {
            unsaved = unsaved + 1;
        }
        out.push(DiceRoll { value: v, success: !saved, is_crit: false });
        i = i + 1;
    }
    assert(vals@.take(vals@.len() as int) =~= vals@);
    assert(types::faces(out@) =~= vals@);
    (unsaved, out, false)
}
/// The provided ward dice save no more than the damage they face.
pub open spec fn ward_dice_fit(damage: usize, ward_target: u8, provided: Option<&[u8]>) -> bool {
    match provided {
        Some(p) => count_passing(p@, ward_target as int) <= damage,
        None => true,
    }
}

/// Resolves ward saves: one die per point of damage, each at or above the
/// ward target saves that point; a natural 1 never does.
pub fn resolve_ward(damage: usize, ward_target: u8, provided_rolls: Option<&[u8]>) -> (r: WardResult)
    requires
        ward_dice_fit(damage, ward_target, provided_rolls),
    ensures
        provided_or_rolled(provided_rolls, damage as nat, types::faces(r.rolls@)),
        target_rolls(r.rolls@, ward_target as int),
        r.wounds_saved == count_passing(types::faces(r.rolls@), ward_target as int),
        r.final_damage == damage - r.wounds_saved,
        r.final_damage + r.wounds_saved == damage,
{
    let mut log = dice::DiceLog::new();
    resolve_ward_in(damage, ward_target, provided_rolls, &mut log)
}

/// `resolve_ward`, drawing its dice into `log`.
fn resolve_ward_in(damage: usize, ward_target: u8, provided_rolls: Option<&[u8]>, log: &mut dice::DiceLog) -> (r: WardResult)
    requires
        ward_dice_fit(damage, ward_target, provided_rolls),
    ensures
        provided_or_rolled(provided_rolls, damage as nat, types::faces(r.rolls@)),
        target_rolls(r.rolls@, ward_target as int),
        r.wounds_saved == count_passing(types::faces(r.rolls@), ward_target as int),
        r.final_damage == damage - r.wounds_saved,
        r.final_damage + r.wounds_saved == damage,
        dice::log_extends(old(log)@, final(log)@),
        drew_for(provided_rolls, types::faces(r.rolls@), dice::drawn_since(old(log)@, final(log)@)),
{
    let vals = dice_or_roll(provided_rolls, damage, log);
    proof { lemma_counts_bounded(vals@, ward_target as int); }
    let (saved, rolls) = score_at_least(&vals, ward_target);
    WardResult { final_damage: damage - saved, wounds_saved: saved, rolls }
}
// ---------------------------------------------------------------------------
// The hit phase.
// ---------------------------------------------------------------------------

/// The critical effect in force: the override where one is given, else the
/// weapon's own.
pub open spec fn effective_crit(over: Option<CritEffect>, weapon_crit: Option<CritEffect>) -> Option<CritEffect> {
    match over {
        Some(c) => Some(c),
        None => weapon_crit,
    }
}

/// A six adds a normal hit when there is no critical effect, or with
/// `ExtraHit` (which adds an extra hit besides).
pub open spec fn six_adds_hit(crit: Option<CritEffect>) -> bool {
    match crit {
        None => true,
        Some(CritEffect::ExtraHit) => true,
        _ => false,
    }
}

/// Whether a hit die adds a normal hit.
pub open spec fn adds_hit(v: u8, to_hit: u8, crit: Option<CritEffect>) -> bool {
    if v == 6 { six_adds_hit(crit) } else { passes(v, to_hit as int) }
}

/// The number of normal hits among hit dice.
pub open spec fn count_hits(vals: Seq<u8>, to_hit: u8, crit: Option<CritEffect>) -> nat
    decreases vals.len(),
{
    if vals.len() == 0 {
        0
    } else {
        count_hits(vals.drop_last(), to_hit, crit) + if adds_hit(vals.last(), to_hit, crit) { 1nat } else { 0nat }
    }
}

/// Auto-wounds: one per six under `AutoWound`.
pub open spec fn auto_wound_count(vals: Seq<u8>, crit: Option<CritEffect>) -> nat {
    if crit == Some(CritEffect::AutoWound) { count_sixes(vals) } else { 0 }
}

/// Extra hits: one per six under `ExtraHit`.
pub open spec fn extra_hit_count(vals: Seq<u8>, crit: Option<CritEffect>) -> nat {
    if crit == Some(CritEffect::ExtraHit) { count_sixes(vals) } else { 0 }
}

/// The dice text of mortal wounds dealt per critical hit, if the effect
/// deals any.
pub open spec fn mortal_text(crit: Option<CritEffect>) -> Option<Seq<char>> {
    match crit {
        Some(CritEffect::MortalWounds(Some(d))) => Some(d@),
        _ => None,
    }
}

/// `total` is the sum of `sixes` values of the dice text `text`, each one a
/// possible value of `resolve_dice_string(text)`.
pub open spec fn mortal_wounds_from(text: Seq<char>, sixes: nat, total: nat) -> bool {
    exists|mws: Seq<u8>|
        mws.len() == sixes && (forall|k: int| 0 <= k < mws.len() ==> dice::possible_dice_value(text, #[trigger] mws[k]))
            && total == dice::sum_faces(mws)
}

/// The mortal wounds that hit dice deal, one value of `text` per six; none
/// without a text.
pub open spec fn mortal_total_text(vals: Seq<u8>, text: Option<Seq<char>>, total: nat) -> bool {
    match text {
        Some(d) => mortal_wounds_from(d, count_sixes(vals), total),
        None => total == 0,
    }
}

/// The mortal wounds that hit dice deal under a critical effect.
pub open spec fn mortal_total(vals: Seq<u8>, crit: Option<CritEffect>, total: nat) -> bool {
    mortal_total_text(vals, mortal_text(crit), total)
}

/// The dice text of mortal wounds in a combat: the critical effect's own
/// value with the damage modifier applied, as to the weapon's damage.
pub open spec fn mortal_damage_text(crit: Option<CritEffect>, damage_modifier: i8) -> Option<Seq<char>> {
    match mortal_text(crit) {
        Some(d) => Some(modified_text(d, damage_modifier as int)),
        None => None,
    }
}

/// Two critical effects of the same kind: they score hit dice alike.
pub open spec fn same_crit_kind(a: Option<CritEffect>, b: Option<CritEffect>) -> bool {
    &&& six_adds_hit(a) == six_adds_hit(b)
    &&& (a == Some(CritEffect::AutoWound)) == (b == Some(CritEffect::AutoWound))
    &&& (a == Some(CritEffect::ExtraHit)) == (b == Some(CritEffect::ExtraHit))
}

/// Critical effects of the same kind count hits, auto-wounds and extra hits
/// alike.
pub proof fn lemma_same_crit_kind_counts(vals: Seq<u8>, to_hit: u8, a: Option<CritEffect>, b: Option<CritEffect>)
    requires
        same_crit_kind(a, b),
    ensures
        count_hits(vals, to_hit, a) == count_hits(vals, to_hit, b),
        auto_wound_count(vals, a) == auto_wound_count(vals, b),
        extra_hit_count(vals, a) == extra_hit_count(vals, b),
    decreases vals.len(),
{
    if vals.len() > 0 {
        lemma_same_crit_kind_counts(vals.drop_last(), to_hit, a, b);
    }
}

/// Hit dice: a six is critical and always succeeds; any other face succeeds
/// where it passes the target (a natural 1 never does).
pub open spec fn hit_rolls(rolls: Seq<DiceRoll>, to_hit: u8) -> bool {
    forall|i: int|
        0 <= i < rolls.len() ==> (#[trigger] rolls[i]).is_crit == (rolls[i].value == 6) && rolls[i].success == (
        rolls[i].value == 6 || passes(rolls[i].value, to_hit as int))
}

/// The number of hit dice: the provided ones, else one per attack.
pub open spec fn hit_dice_count(attacks: usize, provided: Option<&[u8]>) -> nat {
    match provided {
        Some(p) => p@.len(),
        None => attacks as nat,
    }
}

/// Whether a six may come up among the hit dice.
pub open spec fn may_roll_six(attacks: usize, provided: Option<&[u8]>) -> bool {
    match provided {
        Some(p) => p@.contains(6u8),
        None => attacks > 0,
    }
}

/// Where sixes may deal mortal wounds from a dice text, that text stays
/// within range and their total fits a `usize`.
pub open spec fn mortal_text_fits(crit: Option<CritEffect>, attacks: usize, provided: Option<&[u8]>) -> bool {
    match mortal_text(crit) {
        Some(d) => may_roll_six(attacks, provided) ==> dice::dice_text_in_range(dice::normalized_dice_text(d))
            && hit_dice_count(attacks, provided) * 255 <= usize::MAX,
        None => true,
    }
}

proof fn lemma_sum_push(mws: Seq<u8>, v: u8)
    ensures
        dice::sum_faces(mws.push(v)) == dice::sum_faces(mws) + v as nat,
{
    assert(mws.push(v).drop_last() =~= mws);
}

proof fn lemma_sum_bound(mws: Seq<u8>)
    ensures
        dice::sum_faces(mws) <= 255 * mws.len(),
    decreases mws.len(),
{
    if mws.len() > 0 {
        lemma_sum_bound(mws.drop_last());
    }
}

/// What `resolve_hits` gives: the dice (the ones provided, else one fresh
/// D6 per attack), scored against the target, with the hits, auto-wounds,
/// extra hits and mortal wounds that the critical effect in force makes of
/// them.
pub open spec fn hit_roll_ok(
    weapon: Weapon,
    attacks: usize,
    effective_to_hit: u8,
    crit_effect_override: Option<CritEffect>,
    provided_rolls: Option<&[u8]>,
    r: (usize, usize, usize, usize, Vec<DiceRoll>),
) -> bool {
    let crit = effective_crit(crit_effect_override, weapon.crit_hit);
    let vals = types::faces(r.4@);
    &&& provided_or_rolled(provided_rolls, attacks as nat, vals)
    &&& hit_rolls(r.4@, effective_to_hit)
    &&& r.0 == count_hits(vals, effective_to_hit, crit)
    &&& r.1 == auto_wound_count(vals, crit)
    &&& r.2 == extra_hit_count(vals, crit)
    &&& mortal_total(vals, crit, r.3 as nat)
}

/// Resolves the hit phase for a given number of attacks.
/// Gives (hits, auto_wounds, extra_hits, mortal_wounds, rolls).
///
/// `crit_effect_override`: if `Some`, used instead of the weapon's own
/// critical effect.
pub fn resolve_hits(
    weapon: &Weapon,
    attacks: usize,
    effective_to_hit: u8,
    crit_effect_override: Option<CritEffect>,
    provided_rolls: Option<&[u8]>,
) -> (r: (usize, usize, usize, usize, Vec<DiceRoll>))
    requires
        mortal_text_fits(effective_crit(crit_effect_override, weapon.crit_hit), attacks, provided_rolls),
    ensures
        hit_roll_ok(*weapon, attacks, effective_to_hit, crit_effect_override, provided_rolls, r),
{
    let mut log = dice::DiceLog::new();
    resolve_hits_in(weapon, attacks, effective_to_hit, crit_effect_override, provided_rolls, &mut log)
}

/// `resolve_hits`, drawing its dice into `log`.
fn resolve_hits_in(
    weapon: &Weapon,
    attacks: usize,
    effective_to_hit: u8,
    crit_effect_override: Option<CritEffect>,
    provided_rolls: Option<&[u8]>,
    log: &mut dice::DiceLog,
) -> (r: (usize, usize, usize, usize, Vec<DiceRoll>))
    requires
        mortal_text_fits(effective_crit(crit_effect_override, weapon.crit_hit), attacks, provided_rolls),
    ensures
        hit_roll_ok(*weapon, attacks, effective_to_hit, crit_effect_override, provided_rolls, r),
        dice::log_extends(old(log)@, final(log)@),
        hit_drew(
            provided_rolls,
            types::faces(r.4@),
            mortal_text(effective_crit(crit_effect_override, weapon.crit_hit)),
            r.3 as nat,
            dice::drawn_since(old(log)@, final(log)@),
        ),
{
    let ghost start = log@;
    let ghost ec = effective_crit(crit_effect_override, weapon.crit_hit);
    let vals = dice_or_roll(provided_rolls, attacks, log);
    let ghost mid = log@;
    proof {
        dice::lemma_log_same(mid);
        assert(dice::rolled_each(Seq::<char>::empty(), Seq::<u8>::empty(), dice::drawn_since(mid, log@)));
    }
    let crit: Option<&CritEffect> = match &crit_effect_override {
        Some(c) => Some(c),
        None => match &weapon.crit_hit {
            Some(c) => Some(c),
            None => None,
        },
    };
    assert(match crit {
        Some(c) => ec == Some(*c),
        None => ec is None,
    });
    let mut hits: usize = 0;
    let mut auto_wounds: usize = 0;
    let mut extra_hits: usize = 0;
    let mut mortal_wounds: usize = 0;
    let ghost mut mws: Seq<u8> = Seq::empty();
    let mut dice_rolls: Vec<DiceRoll> = Vec::new();
    let mut i: usize = 0;
    while i < vals.len()
        invariant
            i <= vals@.len(),
            provided_or_rolled(provided_rolls, attacks as nat, vals@),
            mortal_text_fits(ec, attacks, provided_rolls),
            match crit {
                Some(c) => ec == Some(*c),
                None => ec is None,
            },
            dice_rolls@.len() == i,
            forall|j: int| 0 <= j < i ==> (#[trigger] dice_rolls@[j]).value == vals@[j],
            hit_rolls(dice_rolls@, effective_to_hit),
            hits == count_hits(vals@.take(i as int), effective_to_hit, ec),
            auto_wounds == auto_wound_count(vals@.take(i as int), ec),
            extra_hits == extra_hit_count(vals@.take(i as int), ec),
            hits <= i,
            auto_wounds <= i,
            extra_hits <= i,
            count_sixes(vals@.take(i as int)) <= i,
            match mortal_text(ec) {
                Some(d) => {
                    &&& mws.len() == count_sixes(vals@.take(i as int))
                    &&& forall|k: int| 0 <= k < mws.len() ==> dice::possible_dice_value(d, #[trigger] mws[k])
                    &&& mortal_wounds == dice::sum_faces(mws)
                },
                None => mortal_wounds == 0,
            },
            dice::log_extends(mid, log@),
            match mortal_text(ec) {
                Some(d) => dice::rolled_each(d, mws, dice::drawn_since(mid, log@)),
                None => dice::drawn_since(mid, log@).len() == 0,
            },
        decreases vals@.len() - i,
    {
        proof { lemma_take_last(vals@, i as int); }
        let roll = vals[i];
        let is_six = roll == 6;
        let is_hit = roll >= 2 && roll >= effective_to_hit;
        let mut success = false;
        if is_six {
            success = true;
            match crit {
                Some(CritEffect::AutoWound) => {
                    auto_wounds = auto_wounds + 1;
                },
                Some(CritEffect::ExtraHit) => {
                    hits = hits + 1;
                    extra_hits = extra_hits + 1;
                },
                Some(CritEffect::MortalWounds(opt_dmg)) => {
                    if let Some(dmg) = opt_dmg {
                        proof {
                            assert(vals@[i as int] == 6u8);
                            assert(vals@.contains(6u8));
                            lemma_sum_bound(mws);
                        }
                        let ghost before = log@;
                        let mw = dice::resolve_dice_string_logged(dmg.as_str(), log);
                        proof {
                            dice::lemma_log_chain(mid, before, log@);
                            dice::lemma_rolled_each_push(dmg@, mws, dice::drawn_since(mid, before), dice::drawn_since(before, log@), mw);
                            lemma_sum_push(mws, mw);
                            mws = mws.push(mw);
                        }
                        mortal_wounds = mortal_wounds + mw as usize;
                    }
                },
                None => {
                    hits = hits + 1;
                },
            }
        } else if is_hit {
            success = true;
            hits = hits + 1;
        }
        dice_rolls.push(DiceRoll { value: roll, success, is_crit: is_six });
        i = i + 1;
    }
    assert(vals@.take(vals@.len() as int) =~= vals@);
    assert(types::faces(dice_rolls@) =~= vals@);
    proof {
        dice::lemma_log_chain(start, mid, log@);
        let md = dice::drawn_since(mid, log@);
        assert(mortal_drew(mortal_text(ec), count_sixes(vals@), mortal_wounds as nat, md));
        assert(dice::drawn_since(start, log@) == provided_draws(provided_rolls, vals@) + md);
    }
    (hits, auto_wounds, extra_hits, mortal_wounds, dice_rolls)
}
// ---------------------------------------------------------------------------
// Attack counts.
// ---------------------------------------------------------------------------

/// Whether a profile text holds dice: its upper-case form contains a `D`.
pub open spec fn has_dice_text(s: Seq<char>) -> bool {
    dice::uppercase(s).contains('D')
}

/// Whether a profile text holds dice.
pub fn has_dice(s: &str) -> (r: bool)
    ensures
        r == has_dice_text(s@),
{
    let up = dice::uppercase_text(s);
    text::text_contains(up.as_str(), 'D')
}

/// The largest value `resolve_dice_string` can give for a text: its number
/// for a fixed number, 1 for a text that does not parse, 255 otherwise.
pub open spec fn dice_text_max(text: Seq<char>) -> nat {
    match dice::dice_parse(dice::normalized_dice_text(text)) {
        Ok(dice::DiceExpr::Fixed(v)) => v as nat,
        Ok(_) => 255,
        Err(_) => 1,
    }
}

/// A value a dice text can give is at most `dice_text_max` of it, itself at
/// most 255.
pub proof fn lemma_dice_value_at_most_max(text: Seq<char>, v: u8)
    requires
        dice::possible_dice_value(text, v),
    ensures
        v <= dice_text_max(text),
        dice_text_max(text) <= 255,
{
}

pub open spec fn sat_add(a: nat, b: nat) -> nat {
    if a + b > usize::MAX { usize::MAX as nat } else { a + b }
}

pub open spec fn sat_mul(a: nat, b: nat) -> nat {
    if a * b > usize::MAX { usize::MAX as nat } else { a * b }
}

pub open spec fn sat_sub(a: nat, b: nat) -> nat {
    if a < b { 0 } else { (a - b) as nat }
}

pub open spec fn champion_bonus(has_champion: bool) -> nat {
    if has_champion { 1 } else { 0 }
}

/// The number of attacks: the override where it is used; else, for an
/// attack text with dice, the sum of one roll per model (recorded as the
/// variance step); else the models times the text's number; plus one for a
/// champion.
pub open spec fn attacks_ok(
    attack_text: Seq<char>,
    num_models: nat,
    has_champion: bool,
    use_attack_override: bool,
    attack_override: nat,
    attacks: nat,
    variance: Option<types::VarianceStep>,
) -> bool {
    if use_attack_override {
        attacks == attack_override && variance is None
    } else if has_dice_text(attack_text) {
        match variance {
            Some(types::VarianceStep::AttackRoll { per_model, results, total }) => {
                &&& per_model@ == attack_text
                &&& results@.len() == num_models
                &&& forall|k: int| 0 <= k < results@.len() ==> dice::possible_dice_value(attack_text, #[trigger] results@[k])
                &&& total == dice::sum_faces(results@)
                &&& attacks == sat_add(total as nat, champion_bonus(has_champion))
            },
            _ => false,
        }
    } else {
        &&& variance is None
        &&& exists|fixed: u8|
            dice::possible_dice_value(attack_text, fixed) && attacks == sat_add(
                sat_mul(num_models, fixed as nat),
                champion_bonus(has_champion),
            )
    }
}

/// An upper bound of the number of attacks.
pub open spec fn attack_bound(
    attack_text: Seq<char>,
    num_models: nat,
    has_champion: bool,
    use_attack_override: bool,
    attack_override: nat,
) -> nat {
    if use_attack_override {
        attack_override
    } else {
        num_models * dice_text_max(attack_text) + champion_bonus(has_champion)
    }
}

/// The attack text is read within range wherever it is read, and a sum of
/// rolled attacks fits a `usize`.
pub open spec fn attack_text_fits(attack_text: Seq<char>, num_models: nat, use_attack_override: bool) -> bool {
    &&& (!use_attack_override && (num_models > 0 || !has_dice_text(attack_text))) ==> dice::dice_text_in_range(
        dice::normalized_dice_text(attack_text),
    )
    &&& (!use_attack_override && has_dice_text(attack_text)) ==> num_models * dice_text_max(attack_text) <= usize::MAX
}

/// Determines the number of attacks, its variance step and the Hit phase
/// description.
fn setup_attacks(
    weapon: &Weapon,
    attack_text: &String,
    num_models: usize,
    has_champion: bool,
    use_attack_override: bool,
    attack_override: usize,
    hit_modifier: i8,
    effective_to_hit: u8,
    log: &mut dice::DiceLog,
) -> (r: (usize, Option<types::VarianceStep>, String))
    requires
        attack_text_fits(attack_text@, num_models as nat, use_attack_override),
    ensures
        attacks_ok(
            attack_text@,
            num_models as nat,
            has_champion,
            use_attack_override,
            attack_override as nat,
            r.0 as nat,
            r.1,
        ),
        r.0 <= attack_bound(attack_text@, num_models as nat, has_champion, use_attack_override, attack_override as nat),
        r.2@ == if use_attack_override {
            describe::fixed_hit_description(weapon.to_hit, effective_to_hit, hit_modifier, attack_override as nat)
        } else {
            describe::model_hit_description(
                weapon.to_hit,
                effective_to_hit,
                hit_modifier,
                num_models as nat,
                attack_text@,
                has_champion,
                r.0 as nat,
            )
        },
        dice::log_extends(old(log)@, final(log)@),
        attack_drew(attack_text@, use_attack_override, r.1, dice::drawn_since(old(log)@, final(log)@)),
{
    let ghost start = log@;
    proof {
        dice::lemma_log_same(start);
        assert(dice::rolled_each(attack_text@, Seq::<u8>::empty(), dice::drawn_since(start, log@)));
    }
    if use_attack_override {
        let desc = describe_fixed_hits(weapon.to_hit, effective_to_hit, hit_modifier, attack_override);
        return (attack_override, None, desc);
    }
    let ghost max = dice_text_max(attack_text@);
    let (base_attacks, variance): (usize, Option<types::VarianceStep>) = if has_dice(attack_text.as_str()) {
        let mut results: Vec<u8> = Vec::new();
        let mut total: usize = 0;
        let mut i: usize = 0;
        while i < num_models
            invariant
                i <= num_models,
                attack_text_fits(attack_text@, num_models as nat, false),
                has_dice_text(attack_text@),
                max == dice_text_max(attack_text@),
                results@.len() == i,
                forall|k: int| 0 <= k < results@.len() ==> dice::possible_dice_value(attack_text@, #[trigger] results@[k]),
                total as nat == dice::sum_faces(results@),
                total <= i * max,
                dice::log_extends(start, log@),
                dice::rolled_each(attack_text@, results@, dice::drawn_since(start, log@)),
            decreases num_models - i,
        {
            let ghost before = log@;
            let v = dice::resolve_dice_string_logged(attack_text.as_str(), log);
            proof {
                dice::lemma_log_chain(start, before, log@);
                dice::lemma_rolled_each_push(
                    attack_text@,
                    results@,
                    dice::drawn_since(start, before),
                    dice::drawn_since(before, log@),
                    v,
                );
                lemma_dice_value_at_most_max(attack_text@, v);
                lemma_sum_push(results@, v);
                assert((i + 1) * max <= num_models * max) by (nonlinear_arith)
                    requires
                        i + 1 <= num_models,
                        0 <= max;
                assert((i + 1) * max == i * max + max) by (nonlinear_arith);
            }
            results.push(v);
            total = total + v as usize;
            i = i + 1;
        }
        let ghost res = results@;
        let variance = types::VarianceStep::AttackRoll {
            per_model: attack_text.clone(),
            results,
            total,
        };
        assert(res.len() == num_models);
        (total, Some(variance))
    } else {
        let fixed = dice::resolve_dice_string_logged(attack_text.as_str(), log);
        proof {
            lemma_dice_value_at_most_max(attack_text@, fixed);
            assert(dice::text_value_rolled(attack_text@, dice::drawn_since(start, log@), fixed));
        }
        let product: usize = match num_models.checked_mul(fixed as usize) {
            Some(p) => p,
            None => usize::MAX,
        };
        proof {
            assert(num_models * fixed <= num_models * max) by (nonlinear_arith)
                requires
                    fixed <= max;
            assert(product as nat == sat_mul(num_models as nat, fixed as nat));
        }
        (product, None)
    };
    let total_attacks: usize = if has_champion { base_attacks.saturating_add(1) } else { base_attacks };
    let desc = describe_model_hits(
        weapon.to_hit,
        effective_to_hit,
        hit_modifier,
        num_models,
        attack_text.as_str(),
        has_champion,
        total_attacks,
    );
    (total_attacks, variance, desc)
}

// ---------------------------------------------------------------------------
// The full combat sequence.
// ---------------------------------------------------------------------------

/// The Hit phase of a combat result.
#[verifier::opaque]
pub open spec fn hit_phase_ok(
    hit: PhaseResult,
    weapon: Weapon,
    attack_text: Seq<char>,
    num_models: usize,
    has_champion: bool,
    use_attack_override: bool,
    attack_override: usize,
    hit_modifier: i8,
    crit: Option<CritEffect>,
    provided_rolls: Option<&[u8]>,
) -> bool {
    let eh = effective_target(weapon.to_hit, hit_modifier);
    let vals = types::faces(hit.rolls@);
    let successes = count_hits(vals, eh, crit) + auto_wound_count(vals, crit) + extra_hit_count(vals, crit);
    &&& hit.phase == Phase::Hit
    &&& hit_rolls(hit.rolls@, eh)
    &&& hit.successes == successes
    &&& hit.total_output == successes
    &&& !hit.auto_fails
    &&& !hit.skipped
    &&& exists|attacks: nat|
        #![trigger attacks_ok(attack_text, num_models as nat, has_champion, use_attack_override, attack_override as nat, attacks, hit.variance_step)]
        {
            &&& attacks_ok(
                attack_text,
                num_models as nat,
                has_champion,
                use_attack_override,
                attack_override as nat,
                attacks,
                hit.variance_step,
            )
            &&& provided_or_rolled(provided_rolls, attacks, vals)
            &&& hit.failures == sat_sub(attacks, successes)
            &&& hit.description@ == if use_attack_override {
                describe::fixed_hit_description(weapon.to_hit, eh, hit_modifier, attack_override as nat)
            } else {
                describe::model_hit_description(
                    weapon.to_hit,
                    eh,
                    hit_modifier,
                    num_models as nat,
                    attack_text,
                    has_champion,
                    attacks,
                )
            }
        }
}

/// The Wound phase: one die per normal and extra hit, each wounding where it
/// passes the wound target (a natural 1 never does); auto-wounds are added to
/// its output.
#[verifier::opaque]
pub open spec fn wound_phase_ok(wound: PhaseResult, weapon: Weapon, wound_modifier: i8, to_roll: nat, auto_wounds: nat) -> bool {
    let ew = effective_target(weapon.to_wound, wound_modifier);
    let vals = types::faces(wound.rolls@);
    let wounds = count_passing(vals, ew as int);
    &&& wound.phase == Phase::Wound
    &&& vals.len() == to_roll
    &&& dice::all_d6_faces(vals)
    &&& target_rolls(wound.rolls@, ew as int)
    &&& wound.successes == wounds
    &&& wound.failures == to_roll - wounds
    &&& wound.total_output == wounds + auto_wounds
    &&& !wound.auto_fails
    &&& !wound.skipped
    &&& wound.description@ == describe::wound_description(weapon.to_wound, ew, wound_modifier)
    &&& wound.variance_step is None
}

/// A phase left to the defender: nothing rolled, marked skipped.
#[verifier::opaque]
pub open spec fn pending_phase_ok(p: PhaseResult, phase: Phase, description: Seq<char>) -> bool {
    &&& p.phase == phase
    &&& p.rolls@.len() == 0
    &&& p.successes == 0
    &&& p.failures == 0
    &&& p.total_output == 0
    &&& !p.auto_fails
    &&& p.skipped
    &&& p.description@ == description
    &&& p.variance_step is None
}

/// The Save phase: nothing to save when no wound was dealt; an auto-fail
/// when the target is above 6; else one die per wound, each below the target
/// (or a natural 1) letting its wound through.
#[verifier::opaque]
pub open spec fn save_phase_ok(save: PhaseResult, wounds: nat, target: u8, description: Seq<char>) -> bool {
    let vals = types::faces(save.rolls@);
    &&& save.phase == Phase::Save
    &&& if wounds == 0 {
        save.rolls@.len() == 0 && save.total_output == 0 && !save.auto_fails
    } else if target > 6 {
        save.rolls@.len() == 0 && save.total_output == wounds && save.auto_fails
    } else {
        &&& vals.len() == wounds
        &&& dice::all_d6_faces(vals)
        &&& save_rolls(save.rolls@, target as int)
        &&& save.total_output == count_failing(vals, target as int)
        &&& !save.auto_fails
    }
    &&& save.successes == save.total_output
    &&& save.failures == wounds - save.total_output
    &&& !save.skipped
    &&& save.description@ == description
    &&& save.variance_step is None
}

/// The damage of unsaved wounds: nothing without them; for a damage text
/// with dice, one roll per wound (recorded as the variance step and as the
/// dice); else the text's number per wound.
pub open spec fn damage_dice_ok(
    damage_text: Seq<char>,
    unsaved: nat,
    rolls: Seq<DiceRoll>,
    variance: Option<types::VarianceStep>,
    normal: nat,
) -> bool {
    if unsaved == 0 {
        rolls.len() == 0 && variance is None && normal == 0
    } else if has_dice_text(damage_text) {
        match variance {
            Some(types::VarianceStep::DamageRoll { per_wound, results, total }) => {
                &&& per_wound@ == damage_text
                &&& results@.len() == unsaved
                &&& forall|k: int| 0 <= k < results@.len() ==> dice::possible_dice_value(damage_text, #[trigger] results@[k])
                &&& total == dice::sum_faces(results@)
                &&& normal == total
                &&& rolls.len() == unsaved
                &&& forall|k: int| 0 <= k < rolls.len() ==> #[trigger] rolls[k] == (DiceRoll { value: results@[k], success: true, is_crit: false })
            },
            _ => false,
        }
    } else {
        &&& variance is None
        &&& rolls.len() == unsaved
        &&& exists|fixed: u8|
            {
                &&& dice::possible_dice_value(damage_text, fixed)
                &&& normal == unsaved * fixed
                &&& forall|k: int| 0 <= k < rolls.len() ==> #[trigger] rolls[k] == (DiceRoll { value: fixed, success: true, is_crit: false })
            }
    }
}

/// The Damage phase: the damage of unsaved wounds plus the mortal wounds.
#[verifier::opaque]
pub open spec fn damage_phase_ok(dmg: PhaseResult, damage_text: Seq<char>, unsaved: nat, mortal: nat, description: Seq<char>) -> bool {
    &&& dmg.phase == Phase::Damage
    &&& dmg.total_output >= mortal
    &&& damage_dice_ok(damage_text, unsaved, dmg.rolls@, dmg.variance_step, (dmg.total_output - mortal) as nat)
    &&& dmg.successes == dmg.total_output
    &&& dmg.failures == 0
    &&& !dmg.auto_fails
    &&& !dmg.skipped
    &&& dmg.description@ == description
}

/// The Ward phase: one die per point of damage, each passing the ward (a
/// natural 1 never does) saving its point.
#[verifier::opaque]
pub open spec fn ward_phase_ok(ward: PhaseResult, damage: nat, target: u8) -> bool {
    let vals = types::faces(ward.rolls@);
    let saved = count_passing(vals, target as int);
    &&& ward.phase == Phase::Ward
    &&& vals.len() == damage
    &&& dice::all_d6_faces(vals)
    &&& target_rolls(ward.rolls@, target as int)
    &&& ward.successes == saved
    &&& ward.failures == damage - saved
    &&& ward.total_output == damage - saved
    &&& !ward.auto_fails
    &&& !ward.skipped
    &&& ward.description@ == describe::ward_description(Some(target), false)
    &&& ward.variance_step is None
}

/// What `resolve_combat` gives, for whatever dice come up: every count,
/// description and phase follows from the inputs and the dice recorded in
/// the result.
pub open spec fn combat_result_ok(
    attacker: Unit,
    defender: Unit,
    weapon: Weapon,
    num_models: usize,
    has_champion: bool,
    use_attack_override: bool,
    attack_override: usize,
    include_ward: bool,
    stop_after_wound: bool,
    hit_modifier: i8,
    wound_modifier: i8,
    rend_modifier: i8,
    damage_modifier: i8,
    attack_modifier: i8,
    crit_effect_override: Option<CritEffect>,
    provided_rolls: Option<&[u8]>,
    r: CombatResult,
) -> bool {
    let attack_text = modified_text(weapon.attack@, attack_modifier as int);
    let damage_text = modified_text(weapon.damage@, damage_modifier as int);
    let crit = effective_crit(crit_effect_override, weapon.crit_hit);
    let vals = types::faces(r.phases@[0].rolls@);
    let hits = count_hits(vals, effective_target(weapon.to_hit, hit_modifier), crit);
    let auto = auto_wound_count(vals, crit);
    let extra = extra_hit_count(vals, crit);
    let wounds = r.phases@[1].successes;
    let base_target = save_target(defender.save, weapon.rend, 0);
    let target = save_target(defender.save, weapon.rend, rend_modifier);
    &&& r.attacker_name@ == attacker.name@
    &&& r.weapon_name@ == weapon.name@
    &&& r.defender_name@ == defender.name@
    &&& r.phases@.len() >= 4
    &&& hit_phase_ok(
        r.phases@[0],
        weapon,
        attack_text,
        num_models,
        has_champion,
        use_attack_override,
        attack_override,
        hit_modifier,
        crit,
        provided_rolls,
    )
    &&& wound_phase_ok(r.phases@[1], weapon, wound_modifier, hits + extra, auto)
    &&& mortal_total_text(vals, mortal_damage_text(crit, damage_modifier), r.mortal_wounds as nat)
    &&& if stop_after_wound {
        &&& r.phases@.len() == 5
        &&& pending_phase_ok(r.phases@[2], Phase::Save, describe::save_description(base_target, target, rend_modifier, true))
        &&& pending_phase_ok(
            r.phases@[3],
            Phase::Damage,
            describe::damage_description(weapon.damage@, damage_text, damage_modifier, true),
        )
        &&& pending_phase_ok(r.phases@[4], Phase::Ward, describe::ward_description(defender.ward, true))
        &&& r.final_damage == 0
        &&& r.stopped_after_wound
        &&& r.total_hits == hits + auto + extra
        &&& r.total_wounds == wounds + auto
    } else {
        let total_damage = r.phases@[3].total_output;
        &&& save_phase_ok(r.phases@[2], (wounds + auto) as nat, target, describe::save_description(base_target, target, rend_modifier, false))
        &&& damage_phase_ok(
            r.phases@[3],
            damage_text,
            r.phases@[2].total_output as nat,
            r.mortal_wounds as nat,
            describe::damage_description(weapon.damage@, damage_text, damage_modifier, false),
        )
        &&& if include_ward && total_damage > 0 && defender.ward is Some {
            &&& r.phases@.len() == 5
            &&& ward_phase_ok(r.phases@[4], total_damage as nat, defender.ward->0)
            &&& r.final_damage == r.phases@[4].total_output
        } else {
            r.phases@.len() == 4 && r.final_damage == total_damage
        }
        &&& !r.stopped_after_wound
        &&& r.total_hits == 0
        &&& r.total_wounds == 0
    }
}

/// The number of hit dice at most: the provided ones, else the attack bound.
pub open spec fn hit_dice_bound(
    attack_text: Seq<char>,
    num_models: nat,
    has_champion: bool,
    use_attack_override: bool,
    attack_override: nat,
    provided_rolls: Option<&[u8]>,
) -> nat {
    match provided_rolls {
        Some(p) => p@.len(),
        None => attack_bound(attack_text, num_models, has_champion, use_attack_override, attack_override),
    }
}

/// The inputs on which `resolve_combat` runs: every modifier keeps its
/// arithmetic within `i8`, the type of the profile values, every dice text that may be
/// read keeps its modifier within `i16`, and every count of dice, wounds and
/// damage fits a `usize`.
pub open spec fn combat_inputs_fit(
    defender: Unit,
    weapon: Weapon,
    num_models: usize,
    has_champion: bool,
    use_attack_override: bool,
    attack_override: usize,
    stop_after_wound: bool,
    hit_modifier: i8,
    wound_modifier: i8,
    rend_modifier: i8,
    damage_modifier: i8,
    attack_modifier: i8,
    crit_effect_override: Option<CritEffect>,
    provided_rolls: Option<&[u8]>,
) -> bool {
    let attack_text = modified_text(weapon.attack@, attack_modifier as int);
    let damage_text = modified_text(weapon.damage@, damage_modifier as int);
    let crit = effective_crit(crit_effect_override, weapon.crit_hit);
    let dice_bound = hit_dice_bound(
        attack_text,
        num_models as nat,
        has_champion,
        use_attack_override,
        attack_override as nat,
        provided_rolls,
    );
    &&& target_modifier_fits(weapon.to_hit, hit_modifier)
    &&& target_modifier_fits(weapon.to_wound, wound_modifier)
    &&& save_target_fits(defender.save, weapon.rend, rend_modifier)
    &&& modifier_fits(weapon.attack@, attack_modifier as int)
    &&& modifier_fits(weapon.damage@, damage_modifier as int)
    &&& attack_text_fits(attack_text, num_models as nat, use_attack_override)
    &&& (!stop_after_wound && dice_bound > 0) ==> dice::dice_text_in_range(dice::normalized_dice_text(damage_text))
    &&& match mortal_text(crit) {
        Some(d) => modifier_fits(d, damage_modifier as int) && ((match provided_rolls {
            Some(p) => p@.contains(6u8),
            None => dice_bound > 0,
        }) ==> dice::dice_text_in_range(dice::normalized_dice_text(modified_text(d, damage_modifier as int)))),
        None => true,
    }
    &&& dice_bound * 767 <= usize::MAX
}

/// At most one normal hit or auto-wound per die, and at most one extra hit
/// and one six per die.
pub proof fn lemma_hit_counts(vals: Seq<u8>, to_hit: u8, crit: Option<CritEffect>)
    ensures
        count_hits(vals, to_hit, crit) + auto_wound_count(vals, crit) <= vals.len(),
        extra_hit_count(vals, crit) <= vals.len(),
        count_sixes(vals) <= vals.len(),
    decreases vals.len(),
{
    if vals.len() > 0 {
        lemma_hit_counts(vals.drop_last(), to_hit, crit);
    }
}

/// Mortal wounds are at most 255 per six.
pub proof fn lemma_mortal_bound(vals: Seq<u8>, text: Option<Seq<char>>, total: nat)
    requires
        mortal_total_text(vals, text, total),
    ensures
        total <= 255 * count_sixes(vals),
{
    if let Some(d) = text {
        let mws = choose|mws: Seq<u8>|
            mws.len() == count_sixes(vals) && (forall|k: int| 0 <= k < mws.len() ==> dice::possible_dice_value(d, #[trigger] mws[k]))
                && total == dice::sum_faces(mws);
        lemma_sum_bound(mws);
    }
}

/// Rolls the Wound phase.
fn wound_phase(
    weapon: &Weapon,
    to_roll: usize,
    auto_wounds: usize,
    wound_modifier: i8,
    effective_to_wound: u8,
    log: &mut dice::DiceLog,
) -> (r: PhaseResult)
    requires
        effective_to_wound == effective_target(weapon.to_wound, wound_modifier),
        to_roll + auto_wounds <= usize::MAX,
    ensures
        wound_phase_ok(r, *weapon, wound_modifier, to_roll as nat, auto_wounds as nat),
        dice::log_extends(old(log)@, final(log)@),
        dice::drawn_since(old(log)@, final(log)@) == d6_draws(types::faces(r.rolls@)),
{
    proof { dice::lemma_log_same(log@); }
    let (wounds, rolls) = if to_roll > 0 {
        resolve_wounds_in(weapon, to_roll, effective_to_wound, None, log)
    } else {
        (0, Vec::new())
    };
    proof {
        assert(d6_draws(Seq::<u8>::empty()) =~= Seq::<(u8, u8)>::empty());
        lemma_counts_bounded(types::faces(rolls@), effective_to_wound as int);
        if to_roll == 0 {
            assert(types::faces(rolls@) =~= Seq::<u8>::empty());
        }
    }
    let description = describe::describe_wounds(weapon.to_wound, effective_to_wound, wound_modifier);
    proof { reveal(wound_phase_ok); }
    PhaseResult {
        phase: Phase::Wound,
        rolls,
        successes: wounds,
        failures: to_roll - wounds,
        total_output: wounds + auto_wounds,
        auto_fails: false,
        skipped: false,
        description,
        variance_step: None,
    }
}

fn pending_phase(phase: Phase, description: String) -> (r: PhaseResult)
    ensures
        pending_phase_ok(r, phase, description@),
{
    proof { reveal(pending_phase_ok); }
    PhaseResult {
        phase,
        rolls: Vec::new(),
        successes: 0,
        failures: 0,
        total_output: 0,
        auto_fails: false,
        skipped: true,
        description,
        variance_step: None,
    }
}

/// Rolls the Save phase.
fn save_phase(target: u8, wounds: usize, description: String, log: &mut dice::DiceLog) -> (r: PhaseResult)
    ensures
        save_phase_ok(r, wounds as nat, target, description@),
        dice::log_extends(old(log)@, final(log)@),
        dice::drawn_since(old(log)@, final(log)@) == d6_draws(types::faces(r.rolls@)),
{
    proof { reveal(save_phase_ok); }
    proof { dice::lemma_log_same(log@); }
    let (unsaved, rolls, auto_fails) = if wounds > 0 {
        resolve_save_in(target, wounds, None, log)
    } else {
        (0, Vec::new(), false)
    };
    proof {
        assert(d6_draws(Seq::<u8>::empty()) =~= Seq::<(u8, u8)>::empty());
        assert(wounds == 0 ==> types::faces(rolls@) =~= Seq::<u8>::empty());
        if wounds > 0 && target <= 6 {
            lemma_counts_bounded(types::faces(rolls@), target as int);
        }
    }
    PhaseResult {
        phase: Phase::Save,
        rolls,
        successes: unsaved,
        failures: wounds - unsaved,
        total_output: unsaved,
        auto_fails,
        skipped: false,
        description,
        variance_step: None,
    }
}

/// The dice that the damage of `unsaved` wounds drew, read from `text`,
/// giving the per-wound values `vals`: none without unsaved wounds; for a
/// text with dice, a reading of its own for each wound, one after another;
/// else a single reading, whose value every wound takes.
pub open spec fn damage_drew(text: Seq<char>, unsaved: nat, vals: Seq<u8>, d: Seq<(u8, u8)>) -> bool {
    if unsaved == 0 {
        d.len() == 0
    } else if has_dice_text(text) {
        dice::rolled_each(text, vals, d)
    } else {
        dice::text_value_rolled(text, d, vals[0])
    }
}

/// Rolls the damage of unsaved wounds: (damage, dice, variance step). The
/// dice drawn go to `log`: for a damage text with dice, a reading of the text
/// of its own for each wound, one after another, each wound's damage being
/// what its own reading gives; otherwise the text is read once.
fn damage_dice(damage_text: &String, unsaved: usize, log: &mut dice::DiceLog) -> (r: (usize, Vec<DiceRoll>, Option<types::VarianceStep>))
    requires
        unsaved > 0 ==> dice::dice_text_in_range(dice::normalized_dice_text(damage_text@)),
        unsaved * 255 <= usize::MAX,
    ensures
        damage_dice_ok(damage_text@, unsaved as nat, r.1@, r.2, r.0 as nat),
        r.0 <= unsaved * 255,
        dice::log_extends(old(log)@, final(log)@),
        damage_drew(damage_text@, unsaved as nat, types::faces(r.1@), dice::drawn_since(old(log)@, final(log)@)),
{
    let ghost start = log@;
    if unsaved == 0 {
        assert(log@.take(start.len() as int) =~= start);
        assert(dice::drawn_since(start, log@) =~= Seq::<(u8, u8)>::empty());
        return (0, Vec::new(), None);
    }
    if has_dice(damage_text.as_str()) {
        let mut results: Vec<u8> = Vec::new();
        let mut rolls: Vec<DiceRoll> = Vec::new();
        let mut total: usize = 0;
        let mut i: usize = 0;
        assert(log@.take(start.len() as int) =~= start);
        assert(dice::drawn_since(start, log@) =~= Seq::<(u8, u8)>::empty());
        while i < unsaved
            invariant
                i <= unsaved,
                unsaved * 255 <= usize::MAX,
                dice::dice_text_in_range(dice::normalized_dice_text(damage_text@)),
                results@.len() == i,
                rolls@.len() == i,
                forall|k: int| 0 <= k < results@.len() ==> dice::possible_dice_value(damage_text@, #[trigger] results@[k]),
                forall|k: int| 0 <= k < rolls@.len() ==> #[trigger] rolls@[k] == (DiceRoll { value: results@[k], success: true, is_crit: false }),
                total as nat == dice::sum_faces(results@),
                total <= i * 255,
                dice::log_extends(start, log@),
                dice::rolled_each(damage_text@, results@, dice::drawn_since(start, log@)),
            decreases unsaved - i,
        {
            let ghost before = log@;
            let v = dice::resolve_dice_string_logged(damage_text.as_str(), log);
            proof {
                dice::lemma_log_chain(start, before, log@);
                dice::lemma_rolled_each_push(
                    damage_text@,
                    results@,
                    dice::drawn_since(start, before),
                    dice::drawn_since(before, log@),
                    v,
                );
                lemma_sum_push(results@, v);
            }
            results.push(v);
            rolls.push(DiceRoll { value: v, success: true, is_crit: false });
            total = total + v as usize;
            i = i + 1;
        }
        proof {
            assert(types::faces(rolls@) =~= results@);
        }
        let variance = types::VarianceStep::DamageRoll { per_wound: damage_text.clone(), results, total };
        (total, rolls, Some(variance))
    } else {
        let fixed = dice::resolve_dice_string_logged(damage_text.as_str(), log);
        let mut rolls: Vec<DiceRoll> = Vec::new();
        let mut i: usize = 0;
        while i < unsaved
            invariant
                i <= unsaved,
                rolls@.len() == i,
                forall|k: int| 0 <= k < rolls@.len() ==> #[trigger] rolls@[k] == (DiceRoll { value: fixed, success: true, is_crit: false }),
            decreases unsaved - i,
        {
            rolls.push(DiceRoll { value: fixed, success: true, is_crit: false });
            i = i + 1;
        }
        proof {
            assert(unsaved * fixed <= unsaved * 255) by (nonlinear_arith)
                requires
                    fixed <= 255;
            assert(rolls@[0].value == fixed);
            assert(types::faces(rolls@)[0] == fixed);
        }
        (unsaved * fixed as usize, rolls, None)
    }
}

/// Rolls the Ward phase.
fn ward_phase(damage: usize, ward_target: u8, log: &mut dice::DiceLog) -> (r: PhaseResult)
    ensures
        ward_phase_ok(r, damage as nat, ward_target),
        dice::log_extends(old(log)@, final(log)@),
        dice::drawn_since(old(log)@, final(log)@) == d6_draws(types::faces(r.rolls@)),
{
    proof { reveal(ward_phase_ok); }
    let result = resolve_ward_in(damage, ward_target, None, log);
    let description = describe::describe_ward(Some(ward_target), false);
    PhaseResult {
        phase: Phase::Ward,
        rolls: result.rolls,
        successes: result.wounds_saved,
        failures: damage - result.wounds_saved,
        total_output: result.final_damage,
        auto_fails: false,
        skipped: false,
        description,
        variance_step: None,
    }
}

/// Rolls the Hit and Wound phases: (Hit phase, Wound phase, mortal wounds).
#[verifier::spinoff_prover]
#[verifier::rlimit(80)]
fn hit_and_wound(
    weapon: &Weapon,
    effective_attack: &String,
    num_models: usize,
    has_champion: bool,
    use_attack_override: bool,
    attack_override: usize,
    hit_modifier: i8,
    wound_modifier: i8,
    damage_modifier: i8,
    crit_effect_override: Option<CritEffect>,
    provided_rolls: Option<&[u8]>,
    log: &mut dice::DiceLog,
) -> (r: (PhaseResult, PhaseResult, usize, Ghost<(Seq<(u8, u8)>, Seq<(u8, u8)>)>))
    requires
        target_modifier_fits(weapon.to_hit, hit_modifier),
        target_modifier_fits(weapon.to_wound, wound_modifier),
        attack_text_fits(effective_attack@, num_models as nat, use_attack_override),
        match mortal_text(effective_crit(crit_effect_override, weapon.crit_hit)) {
            Some(d) => modifier_fits(d, damage_modifier as int) && ((match provided_rolls {
                Some(p) => p@.contains(6u8),
                None => hit_dice_bound(
                    effective_attack@,
                    num_models as nat,
                    has_champion,
                    use_attack_override,
                    attack_override as nat,
                    provided_rolls,
                ) > 0,
            }) ==> dice::dice_text_in_range(dice::normalized_dice_text(modified_text(d, damage_modifier as int)))),
            None => true,
        },
        hit_dice_bound(
            effective_attack@,
            num_models as nat,
            has_champion,
            use_attack_override,
            attack_override as nat,
            provided_rolls,
        ) * 767 <= usize::MAX,
    ensures
        ({
            let crit = effective_crit(crit_effect_override, weapon.crit_hit);
            let vals = types::faces(r.0.rolls@);
            let hits = count_hits(vals, effective_target(weapon.to_hit, hit_modifier), crit);
            let auto = auto_wound_count(vals, crit);
            let extra = extra_hit_count(vals, crit);
            let bound = hit_dice_bound(
                effective_attack@,
                num_models as nat,
                has_champion,
                use_attack_override,
                attack_override as nat,
                provided_rolls,
            );
            &&& hit_phase_ok(
                r.0,
                *weapon,
                effective_attack@,
                num_models,
                has_champion,
                use_attack_override,
                attack_override,
                hit_modifier,
                crit,
                provided_rolls,
            )
            &&& wound_phase_ok(r.1, *weapon, wound_modifier, hits + extra, auto)
            &&& mortal_total_text(vals, mortal_damage_text(crit, damage_modifier), r.2 as nat)
            &&& r.0.total_output == hits + auto + extra
            &&& r.1.total_output == r.1.successes + auto
            &&& r.1.total_output <= 2 * bound
            &&& r.2 <= 255 * bound
        }),
        dice::log_extends(old(log)@, final(log)@),
        attack_drew(effective_attack@, use_attack_override, r.0.variance_step, r.3@.0),
        hit_drew(
            provided_rolls,
            types::faces(r.0.rolls@),
            mortal_damage_text(effective_crit(crit_effect_override, weapon.crit_hit), damage_modifier),
            r.2 as nat,
            r.3@.1,
        ),
        dice::drawn_since(old(log)@, final(log)@) == r.3@.0 + r.3@.1 + d6_draws(types::faces(r.1.rolls@)),
{
    let ghost start = log@;
    let ghost crit = effective_crit(crit_effect_override, weapon.crit_hit);
    let ghost bound = hit_dice_bound(
        effective_attack@,
        num_models as nat,
        has_champion,
        use_attack_override,
        attack_override as nat,
        provided_rolls,
    );
    let effective_to_hit = effective_target_value(weapon.to_hit, hit_modifier);
    let effective_to_wound = effective_target_value(weapon.to_wound, wound_modifier);
    let (attacks, attack_variance, hit_description) = setup_attacks(
        weapon,
        effective_attack,
        num_models,
        has_champion,
        use_attack_override,
        attack_override,
        hit_modifier,
        effective_to_hit,
        log,
    );
    let ghost after_attacks = log@;
    // Mortal wounds deal the critical effect's value with the damage
    // modifier applied: the effect handed to the hit roll carries it.
    let modified_mortal: Option<String> = match &crit_effect_override {
        Some(CritEffect::MortalWounds(Some(v))) => Some(apply_damage_modifier(v.as_str(), damage_modifier)),
        Some(_) => None,
        None => match &weapon.crit_hit {
            Some(CritEffect::MortalWounds(Some(v))) => Some(apply_damage_modifier(v.as_str(), damage_modifier)),
            _ => None,
        },
    };
    let rolled_crit: Option<CritEffect> = match modified_mortal {
        Some(t) => Some(CritEffect::MortalWounds(Some(t))),
        None => crit_effect_override,
    };
    let ghost used = effective_crit(rolled_crit, weapon.crit_hit);
    assert(same_crit_kind(used, crit));
    assert(mortal_text(used) == mortal_damage_text(crit, damage_modifier));
    let (hits, auto_wounds, extra_hits, mortal_wounds, hit_dice) = resolve_hits_in(
        weapon,
        attacks,
        effective_to_hit,
        rolled_crit,
        provided_rolls,
        log,
    );
    let ghost after_hits = log@;
    let ghost vals = types::faces(hit_dice@);
    proof {
        lemma_same_crit_kind_counts(vals, effective_to_hit, used, crit);
        lemma_hit_counts(vals, effective_to_hit, crit);
        lemma_mortal_bound(vals, mortal_text(used), mortal_wounds as nat);
        assert(vals.len() <= bound);
    }
    let successes = hits + auto_wounds + extra_hits;
    let hit_phase = PhaseResult {
        phase: Phase::Hit,
        rolls: hit_dice,
        successes,
        failures: attacks.saturating_sub(successes),
        total_output: successes,
        auto_fails: false,
        skipped: false,
        description: hit_description,
        variance_step: attack_variance,
    };
    proof {
        reveal(hit_phase_ok);
        let a = attacks as nat;
        assert(provided_or_rolled(provided_rolls, a, vals));
        assert(hit_phase.failures == sat_sub(a, successes as nat));
        assert(attacks_ok(
            effective_attack@,
            num_models as nat,
            has_champion,
            use_attack_override,
            attack_override as nat,
            a,
            hit_phase.variance_step,
        ));
        assert(hit_phase.description@ == if use_attack_override {
            describe::fixed_hit_description(weapon.to_hit, effective_to_hit, hit_modifier, attack_override as nat)
        } else {
            describe::model_hit_description(
                weapon.to_hit,
                effective_to_hit,
                hit_modifier,
                num_models as nat,
                effective_attack@,
                has_champion,
                a,
            )
        });
        assert(hit_phase_ok(
                hit_phase,
                *weapon,
                effective_attack@,
                num_models,
                has_champion,
                use_attack_override,
                attack_override,
                hit_modifier,
                crit,
                provided_rolls,
            ));
    }
    let wound = wound_phase(weapon, hits + extra_hits, auto_wounds, wound_modifier, effective_to_wound, log);
    proof {
        assert(types::faces(hit_phase.rolls@) == vals);
        dice::lemma_log_chain(after_attacks, after_hits, log@);
        dice::lemma_log_chain(start, after_attacks, log@);
        assert(dice::drawn_since(start, log@) =~= dice::drawn_since(start, after_attacks) + dice::drawn_since(after_attacks, after_hits)
            + d6_draws(types::faces(wound.rolls@)));
        assert(mortal_damage_text(effective_crit(crit_effect_override, weapon.crit_hit), damage_modifier) == mortal_text(used));
        reveal(wound_phase_ok);
        lemma_counts_bounded(types::faces(wound.rolls@), effective_to_wound as int);
        assert(mortal_wounds <= 255 * bound) by (nonlinear_arith)
            requires
                mortal_wounds <= 255 * count_sixes(vals),
                count_sixes(vals) <= vals.len(),
                vals.len() <= bound;
        assert(wound.total_output <= 2 * bound);
    }
    (hit_phase, wound, mortal_wounds, Ghost((dice::drawn_since(start, after_attacks), dice::drawn_since(after_attacks, after_hits))))
}

/// Rolls the Save, Damage and Ward phases: (phases, final damage).
#[verifier::rlimit(40)]
fn save_damage_ward(
    defender: &Unit,
    weapon: &Weapon,
    effective_damage: &String,
    damage_modifier: i8,
    rend_modifier: i8,
    include_ward: bool,
    total_wounds: usize,
    mortal_wounds: usize,
    log: &mut dice::DiceLog,
) -> (r: (Vec<PhaseResult>, usize))
    requires
        save_target_fits(defender.save, weapon.rend, rend_modifier),
        total_wounds > 0 ==> dice::dice_text_in_range(dice::normalized_dice_text(effective_damage@)),
        total_wounds * 255 + mortal_wounds <= usize::MAX,
    ensures
        ({
            let target = save_target(defender.save, weapon.rend, rend_modifier);
            let base_target = save_target(defender.save, weapon.rend, 0);
            let total_damage = r.0@[1].total_output;
            &&& r.0@.len() >= 2
            &&& save_phase_ok(r.0@[0], total_wounds as nat, target, describe::save_description(base_target, target, rend_modifier, false))
            &&& damage_phase_ok(
                r.0@[1],
                effective_damage@,
                r.0@[0].total_output as nat,
                mortal_wounds as nat,
                describe::damage_description(weapon.damage@, effective_damage@, damage_modifier, false),
            )
            &&& if include_ward && total_damage > 0 && defender.ward is Some {
                &&& r.0@.len() == 3
                &&& ward_phase_ok(r.0@[2], total_damage as nat, defender.ward->0)
                &&& r.1 == r.0@[2].total_output
            } else {
                r.0@.len() == 2 && r.1 == total_damage
            }
        }),
        dice::log_extends(old(log)@, final(log)@),
        later_phases_drew(r.0@, effective_damage@, dice::drawn_since(old(log)@, final(log)@)),
{
    let ghost start = log@;
    let save_target = calculate_save_target(defender.save, weapon.rend, rend_modifier);
    let base_target = calculate_save_target(defender.save, weapon.rend, 0);
    let save = save_phase(save_target, total_wounds, describe::describe_save(base_target, save_target, rend_modifier, false), log);
    proof { reveal(save_phase_ok); }
    let ghost after_save = log@;
    let unsaved = save.total_output;
    let (normal_damage, damage_rolls, damage_variance) = damage_dice(effective_damage, unsaved, log);
    let ghost after_damage = log@;
    let ghost dmg_d = dice::drawn_since(after_save, after_damage);
    proof { dice::lemma_log_chain(start, after_save, after_damage); }
    let total_damage = normal_damage + mortal_wounds;
    let damage = PhaseResult {
        phase: Phase::Damage,
        rolls: damage_rolls,
        successes: total_damage,
        failures: 0,
        total_output: total_damage,
        auto_fails: false,
        skipped: false,
        description: describe::describe_damage(weapon.damage.as_str(), effective_damage.as_str(), damage_modifier, false),
        variance_step: damage_variance,
    };
    proof { reveal(damage_phase_ok); }
    let mut phases = vec![save, damage];
    let mut final_damage = total_damage;
    proof {
        let p = phases@;
        assert(damage_drew(effective_damage@, p[0].total_output as nat, types::faces(p[1].rolls@), dmg_d));
        assert(dice::drawn_since(start, log@) == d6_draws(types::faces(p[0].rolls@)) + dmg_d + Seq::<(u8, u8)>::empty());
        assert(later_phases_drew(p, effective_damage@, dice::drawn_since(start, log@)));
    }
    if include_ward && total_damage > 0 {
        if let Some(ward_target) = defender.ward {
            let ward = ward_phase(total_damage, ward_target, log);
            proof {
                dice::lemma_log_chain(start, after_damage, log@);
                let p = phases@.push(ward);
                assert(p[0] == phases@[0] && p[1] == phases@[1]);
                assert(damage_drew(effective_damage@, p[0].total_output as nat, types::faces(p[1].rolls@), dmg_d));
                assert(dice::drawn_since(start, log@) == d6_draws(types::faces(p[0].rolls@)) + dmg_d + d6_draws(types::faces(p[2].rolls@)));
                assert(later_phases_drew(p, effective_damage@, dice::drawn_since(start, log@)));
            }
            final_damage = ward.total_output;
            phases.push(ward);
        }
    }
    (phases, final_damage)
}

/// Resolves a full combat sequence.
///
/// With `stop_after_wound` the sequence stops after the Wound phase: the hit
/// and wound totals are given, and the Save, Damage and Ward phases are
/// marked pending, for the defender to roll externally.
///
/// `attack_modifier` modifies the per-model attack count before summing
/// across models: with attack `"2"` and modifier +2, 5 models make
/// 5 × (2+2) = 20 attacks; `"D6"` + 1 becomes `"D6+1"`. It is ignored when
/// `use_attack_override` is true, as are the models and the champion.
///
/// `damage_modifier` applies to the weapon's damage and to the mortal
/// wounds of critical hits alike. No target goes below 2+, and a natural 1
/// always fails.
///
/// `provided_rolls`, where given, are the hit dice.
#[verifier::rlimit(40)]
pub fn resolve_combat(
    attacker: &Unit,
    defender: &Unit,
    weapon: &Weapon,
    num_models: usize,
    has_champion: bool,
    use_attack_override: bool,
    attack_override: usize,
    include_ward: bool,
    stop_after_wound: bool,
    hit_modifier: i8,
    wound_modifier: i8,
    rend_modifier: i8,
    damage_modifier: i8,
    attack_modifier: i8,
    crit_effect_override: Option<CritEffect>,
    provided_rolls: Option<&[u8]>,
) -> (r: CombatResult)
    requires
        combat_inputs_fit(
            *defender,
            *weapon,
            num_models,
            has_champion,
            use_attack_override,
            attack_override,
            stop_after_wound,
            hit_modifier,
            wound_modifier,
            rend_modifier,
            damage_modifier,
            attack_modifier,
            crit_effect_override,
            provided_rolls,
        ),
    ensures
        combat_result_ok(
            *attacker,
            *defender,
            *weapon,
            num_models,
            has_champion,
            use_attack_override,
            attack_override,
            include_ward,
            stop_after_wound,
            hit_modifier,
            wound_modifier,
            rend_modifier,
            damage_modifier,
            attack_modifier,
            crit_effect_override,
            provided_rolls,
            r,
        ),
{
    let mut log = dice::DiceLog::new();
    resolve_combat_logged(
        attacker,
        defender,
        weapon,
        num_models,
        has_champion,
        use_attack_override,
        attack_override,
        include_ward,
        stop_after_wound,
        hit_modifier,
        wound_modifier,
        rend_modifier,
        damage_modifier,
        attack_modifier,
        crit_effect_override,
        provided_rolls,
        &mut log,
    )
}

/// `resolve_combat`, drawing its dice into `log`: the dice drawn are those
/// of this one combat, as `combat_drew` lays them out, shown in its phases.
#[verifier::spinoff_prover]
#[verifier::rlimit(80)]
pub fn resolve_combat_logged(
    attacker: &Unit,
    defender: &Unit,
    weapon: &Weapon,
    num_models: usize,
    has_champion: bool,
    use_attack_override: bool,
    attack_override: usize,
    include_ward: bool,
    stop_after_wound: bool,
    hit_modifier: i8,
    wound_modifier: i8,
    rend_modifier: i8,
    damage_modifier: i8,
    attack_modifier: i8,
    crit_effect_override: Option<CritEffect>,
    provided_rolls: Option<&[u8]>,
    log: &mut dice::DiceLog,
) -> (r: CombatResult)
    requires
        combat_inputs_fit(
            *defender,
            *weapon,
            num_models,
            has_champion,
            use_attack_override,
            attack_override,
            stop_after_wound,
            hit_modifier,
            wound_modifier,
            rend_modifier,
            damage_modifier,
            attack_modifier,
            crit_effect_override,
            provided_rolls,
        ),
    ensures
        combat_result_ok(
            *attacker,
            *defender,
            *weapon,
            num_models,
            has_champion,
            use_attack_override,
            attack_override,
            include_ward,
            stop_after_wound,
            hit_modifier,
            wound_modifier,
            rend_modifier,
            damage_modifier,
            attack_modifier,
            crit_effect_override,
            provided_rolls,
            r,
        ),
        dice::log_extends(old(log)@, final(log)@),
        combat_drew(
            r,
            *weapon,
            use_attack_override,
            damage_modifier,
            attack_modifier,
            crit_effect_override,
            provided_rolls,
            stop_after_wound,
            dice::drawn_since(old(log)@, final(log)@),
        ),
{
    let ghost start = log@;
    let effective_damage = apply_damage_modifier(weapon.damage.as_str(), damage_modifier);
    let effective_attack = apply_attack_modifier(weapon.attack.as_str(), attack_modifier);
    let (hit_phase, wound_phase, mortal_wounds, Ghost(front)) = hit_and_wound(
        weapon,
        &effective_attack,
        num_models,
        has_champion,
        use_attack_override,
        attack_override,
        hit_modifier,
        wound_modifier,
        damage_modifier,
        crit_effect_override,
        provided_rolls,
        log,
    );
    let ghost after_wound = log@;
    let successes = hit_phase.total_output;
    let total_wounds = wound_phase.total_output;
    let attacker_name = attacker.name.clone();
    let weapon_name = weapon.name.clone();
    let defender_name = defender.name.clone();
    if stop_after_wound {
        // Only the Hit and Wound phases are rolled; mortal wounds from
        // critical hits are still counted.
        let save_target = calculate_save_target(defender.save, weapon.rend, rend_modifier);
        let base_target = calculate_save_target(defender.save, weapon.rend, 0);
        let save = pending_phase(Phase::Save, describe::describe_save(base_target, save_target, rend_modifier, true));
        let damage = pending_phase(
            Phase::Damage,
            describe::describe_damage(weapon.damage.as_str(), effective_damage.as_str(), damage_modifier, true),
        );
        let ward = pending_phase(Phase::Ward, describe::describe_ward(defender.ward, true));
        let phases = vec![hit_phase, wound_phase, save, damage, ward];
        let result = CombatResult {
            attacker_name,
            weapon_name,
            defender_name,
            phases,
            final_damage: 0,
            mortal_wounds,
            stopped_after_wound: true,
            total_hits: successes,
            total_wounds,
        };
        proof {
            let (att_d, hit_d) = front;
            let empty = Seq::<(u8, u8)>::empty();
            assert(result.phases@[0] == hit_phase && result.phases@[1] == wound_phase);
            assert(dice::drawn_since(start, log@) == att_d + hit_d + d6_draws(types::faces(wound_phase.rolls@)) + empty);
            lemma_combat_drew(
                result,
                *weapon,
                use_attack_override,
                damage_modifier,
                attack_modifier,
                crit_effect_override,
                provided_rolls,
                true,
                att_d,
                hit_d,
                empty,
                dice::drawn_since(start, log@),
            );
        }
        return result;
    }
    let (rest, final_damage) = save_damage_ward(
        defender,
        weapon,
        &effective_damage,
        damage_modifier,
        rend_modifier,
        include_ward,
        total_wounds,
        mortal_wounds,
        log,
    );
    let mut phases = vec![hit_phase, wound_phase];
    let ghost rest_phases = rest@;
    let mut rest = rest;
    phases.append(&mut rest);
    proof {
        dice::lemma_log_chain(start, after_wound, log@);
        assert(phases@[0] == hit_phase && phases@[1] == wound_phase);
        assert(phases@.skip(2) =~= rest_phases);
    }
    let result = CombatResult {
        attacker_name,
        weapon_name,
        defender_name,
        phases,
        final_damage,
        mortal_wounds,
        stopped_after_wound: false,
        total_hits: 0,
        total_wounds: 0,
    };
    proof {
        let (att_d, hit_d) = front;
        let rest_d = dice::drawn_since(after_wound, log@);
        assert(result.phases@[0] == hit_phase && result.phases@[1] == wound_phase);
        assert(result.phases@.skip(2) == rest_phases);
        assert(dice::drawn_since(start, log@) == att_d + hit_d + d6_draws(types::faces(wound_phase.rolls@)) + rest_d);
        lemma_combat_drew(
            result,
            *weapon,
            use_attack_override,
            damage_modifier,
            attack_modifier,
            crit_effect_override,
            provided_rolls,
            false,
            att_d,
            hit_d,
            rest_d,
            dice::drawn_since(start, log@),
        );
    }
    result
}
// ---------------------------------------------------------------------------
// Checking inputs before a combat.
// ---------------------------------------------------------------------------

fn target_modifier_check(stat: u8, modifier: i8) -> (r: bool)
    ensures
        r == target_modifier_fits(stat, modifier),
{
    let t: i16 = i8_value_of(stat) - modifier as i16;
    -128 <= t && t <= 127
}

fn save_target_check(save: u8, rend: i8, rend_modifier: i8) -> (r: bool)
    ensures
        r == save_target_fits(save, rend, rend_modifier),
{
    let a: i16 = i8_value_of(save) - rend as i16;
    let b: i16 = a + rend_modifier as i16;
    -128 <= a && a <= 127 && -128 <= b && b <= 127
}

fn modifier_check(s: &str, m: i8) -> (r: bool)
    ensures
        r == modifier_fits(s@, m as int),
{
    if m == 0 {
        return true;
    }
    match parse_i16_text(s) {
        Ok(b) => {
            let v: i32 = b as i32 + m as i32;
            -32768 <= v && v <= 32767
        },
        Err(_) => true,
    }
}

/// The largest value a dice text can resolve to (see `dice_text_max`).
pub fn dice_text_max_value(text: &str) -> (r: usize)
    ensures
        r as nat == dice_text_max(text@),
        r <= 255,
{
    let n = dice::normalize_dice_text(text);
    match dice::parse_dice_expr(n.as_str()) {
        Ok(dice::DiceExpr::Fixed(v)) => v as usize,
        Ok(_) => 255,
        Err(_) => 1,
    }
}

fn contains_six(p: &[u8]) -> (r: bool)
    ensures
        r == p@.contains(6u8),
{
    let mut i: usize = 0;
    while i < p.len()
        invariant
            i <= p@.len(),
            forall|j: int| 0 <= j < i ==> p@[j] != 6u8,
        decreases p@.len() - i,
    {
        if p[i] == 6 {
            assert(p@[i as int] == 6u8);
            return true;
        }
        i = i + 1;
    }
    false
}

/// Whether `resolve_combat` accepts these inputs (see `combat_inputs_fit`).
pub fn combat_inputs_check(
    defender: &Unit,
    weapon: &Weapon,
    num_models: usize,
    has_champion: bool,
    use_attack_override: bool,
    attack_override: usize,
    stop_after_wound: bool,
    hit_modifier: i8,
    wound_modifier: i8,
    rend_modifier: i8,
    damage_modifier: i8,
    attack_modifier: i8,
    crit_effect_override: &Option<CritEffect>,
    provided_rolls: Option<&[u8]>,
) -> (r: bool)
    ensures
        r == combat_inputs_fit(
            *defender,
            *weapon,
            num_models,
            has_champion,
            use_attack_override,
            attack_override,
            stop_after_wound,
            hit_modifier,
            wound_modifier,
            rend_modifier,
            damage_modifier,
            attack_modifier,
            *crit_effect_override,
            provided_rolls,
        ),
{
    if !target_modifier_check(weapon.to_hit, hit_modifier) || !target_modifier_check(weapon.to_wound, wound_modifier)
        || !save_target_check(defender.save, weapon.rend, rend_modifier) || !modifier_check(
        weapon.attack.as_str(),
        attack_modifier,
    ) || !modifier_check(weapon.damage.as_str(), damage_modifier) {
        return false;
    }
    let attack_text = apply_attack_modifier(weapon.attack.as_str(), attack_modifier);
    let damage_text = apply_damage_modifier(weapon.damage.as_str(), damage_modifier);
    let attack_dice = has_dice(attack_text.as_str());
    let attack_max = dice_text_max_value(attack_text.as_str());
    // The attack text.
    if !use_attack_override && (num_models > 0 || !attack_dice) && !dice::dice_text_within_range(attack_text.as_str()) {
        return false;
    }
    let product = num_models.checked_mul(attack_max);
    if !use_attack_override && attack_dice && product.is_none() {
        return false;
    }
    // The bound of hit dice.
    let bound: Option<usize> = match provided_rolls {
        Some(p) => Some(p.len()),
        None => if use_attack_override {
            Some(attack_override)
        } else {
            match product {
                Some(v) => if has_champion { v.checked_add(1) } else { Some(v) },
                None => None,
            }
        },
    };
    let scaled: Option<usize> = match bound {
        Some(b) => b.checked_mul(767),
        None => None,
    };
    let (b, _) = match (bound, scaled) {
        (Some(b), Some(s)) => (b, s),
        _ => {
            proof {
                if !use_attack_override && provided_rolls is None {
                    assert(num_models * attack_max + champion_bonus(has_champion) > usize::MAX
                        || (num_models * attack_max + champion_bonus(has_champion)) * 767 > usize::MAX);
                }
            }
            return false;
        },
    };
    if !stop_after_wound && b > 0 && !dice::dice_text_within_range(damage_text.as_str()) {
        return false;
    }
    let crit: Option<&CritEffect> = match crit_effect_override {
        Some(c) => Some(c),
        None => match &weapon.crit_hit {
            Some(c) => Some(c),
            None => None,
        },
    };
    if let Some(CritEffect::MortalWounds(Some(d))) = crit {
        if !modifier_check(d.as_str(), damage_modifier) {
            return false;
        }
        let may_six = match provided_rolls {
            Some(p) => contains_six(p),
            None => b > 0,
        };
        if may_six && !dice::dice_text_within_range(apply_damage_modifier(d.as_str(), damage_modifier).as_str()) {
            return false;
        }
    }
    true
}

/// `resolve_combat` for any inputs: `None` where it does not accept them
/// (see `combat_inputs_fit`), the combat otherwise.
pub fn checked_resolve_combat(
    attacker: &Unit,
    defender: &Unit,
    weapon: &Weapon,
    num_models: usize,
    has_champion: bool,
    use_attack_override: bool,
    attack_override: usize,
    include_ward: bool,
    stop_after_wound: bool,
    hit_modifier: i8,
    wound_modifier: i8,
    rend_modifier: i8,
    damage_modifier: i8,
    attack_modifier: i8,
    crit_effect_override: Option<CritEffect>,
    provided_rolls: Option<&[u8]>,
) -> (r: Option<CombatResult>)
    ensures
        ({
            let fits = combat_inputs_fit(
                *defender,
                *weapon,
                num_models,
                has_champion,
                use_attack_override,
                attack_override,
                stop_after_wound,
                hit_modifier,
                wound_modifier,
                rend_modifier,
                damage_modifier,
                attack_modifier,
                crit_effect_override,
                provided_rolls,
            );
            match r {
                None => !fits,
                Some(c) => fits && combat_result_ok(
                    *attacker,
                    *defender,
                    *weapon,
                    num_models,
                    has_champion,
                    use_attack_override,
                    attack_override,
                    include_ward,
                    stop_after_wound,
                    hit_modifier,
                    wound_modifier,
                    rend_modifier,
                    damage_modifier,
                    attack_modifier,
                    crit_effect_override,
                    provided_rolls,
                    c,
                ),
            }
        }),
{
    let mut log = dice::DiceLog::new();
    checked_resolve_combat_logged(
        attacker,
        defender,
        weapon,
        num_models,
        has_champion,
        use_attack_override,
        attack_override,
        include_ward,
        stop_after_wound,
        hit_modifier,
        wound_modifier,
        rend_modifier,
        damage_modifier,
        attack_modifier,
        crit_effect_override,
        provided_rolls,
        &mut log,
    )
}

/// `checked_resolve_combat`, drawing the dice of the combat into `log`.
pub fn checked_resolve_combat_logged(
    attacker: &Unit,
    defender: &Unit,
    weapon: &Weapon,
    num_models: usize,
    has_champion: bool,
    use_attack_override: bool,
    attack_override: usize,
    include_ward: bool,
    stop_after_wound: bool,
    hit_modifier: i8,
    wound_modifier: i8,
    rend_modifier: i8,
    damage_modifier: i8,
    attack_modifier: i8,
    crit_effect_override: Option<CritEffect>,
    provided_rolls: Option<&[u8]>,
    log: &mut dice::DiceLog,
) -> (r: Option<CombatResult>)
    ensures
        ({
            let fits = combat_inputs_fit(
                *defender,
                *weapon,
                num_models,
                has_champion,
                use_attack_override,
                attack_override,
                stop_after_wound,
                hit_modifier,
                wound_modifier,
                rend_modifier,
                damage_modifier,
                attack_modifier,
                crit_effect_override,
                provided_rolls,
            );
            match r {
                None => !fits,
                Some(c) => fits && combat_result_ok(
                    *attacker,
                    *defender,
                    *weapon,
                    num_models,
                    has_champion,
                    use_attack_override,
                    attack_override,
                    include_ward,
                    stop_after_wound,
                    hit_modifier,
                    wound_modifier,
                    rend_modifier,
                    damage_modifier,
                    attack_modifier,
                    crit_effect_override,
                    provided_rolls,
                    c,
                ),
            }
        }),
        dice::log_extends(old(log)@, final(log)@),
        match r {
            None => dice::drawn_since(old(log)@, final(log)@).len() == 0,
            Some(c) => combat_drew(
                c,
                *weapon,
                use_attack_override,
                damage_modifier,
                attack_modifier,
                crit_effect_override,
                provided_rolls,
                stop_after_wound,
                dice::drawn_since(old(log)@, final(log)@),
            ),
        },
{
    if combat_inputs_check(
        defender,
        weapon,
        num_models,
        has_champion,
        use_attack_override,
        attack_override,
        stop_after_wound,
        hit_modifier,
        wound_modifier,
        rend_modifier,
        damage_modifier,
        attack_modifier,
        &crit_effect_override,
        provided_rolls,
    ) {
        Some(
            resolve_combat_logged(
                attacker,
                defender,
                weapon,
                num_models,
                has_champion,
                use_attack_override,
                attack_override,
                include_ward,
                stop_after_wound,
                hit_modifier,
                wound_modifier,
                rend_modifier,
                damage_modifier,
                attack_modifier,
                crit_effect_override,
                provided_rolls,
                log,
            ),
        )
    } else {
        proof { dice::lemma_log_same(log@); }
        None
    }
}
} // verus!
