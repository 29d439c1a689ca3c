//! The descriptions shown with each phase of a combat sequence.

use vstd::prelude::*;

use crate::text;
use crate::text::{push_decimal, push_modifier};

verus! {

/// `"Hit (4+)"`, or `"Hit (4+ → 3+)"` when a modifier changed the target.
pub open spec fn target_header(name: Seq<char>, stat: u8, effective: u8, modified: bool) -> Seq<char> {
    if modified {
        name + " ("@ + text::decimal(stat as nat) + "+ → "@ + text::decimal(effective as nat) + "+)"@
    } else {
        name + " ("@ + text::decimal(stat as nat) + "+)"@
    }
}

/// `" (+1 to hit)"` for a non-zero modifier, nothing otherwise.
pub open spec fn modifier_note(modifier: i8, what: Seq<char>) -> Seq<char> {
    if modifier != 0 {
        " ("@ + text::modifier_text(modifier as int) + " "@ + what + ")"@
    } else {
        Seq::empty()
    }
}

/// The Hit phase description with a fixed number of attacks:
/// `"Hit (3+) - 25 fixed attacks"`.
pub open spec fn fixed_hit_description(to_hit: u8, effective: u8, hit_modifier: i8, attacks: nat) -> Seq<char> {
    target_header("Hit"@, to_hit, effective, hit_modifier != 0) + " - "@ + text::decimal(attacks) + " fixed attacks"@
        + modifier_note(hit_modifier, "to hit"@)
}

/// The Hit phase description with attacks per model:
/// `"Hit (3+) - 5 models × 3 attacks + 1 champion = 16 total"`.
pub open spec fn model_hit_description(
    to_hit: u8,
    effective: u8,
    hit_modifier: i8,
    num_models: nat,
    attack_text: Seq<char>,
    has_champion: bool,
    total: nat,
) -> Seq<char> {
    target_header("Hit"@, to_hit, effective, hit_modifier != 0) + " - "@ + text::decimal(num_models) + " models × "@
        + attack_text + " attacks"@ + (if has_champion { " + 1 champion"@ } else { Seq::empty() }) + " = "@
        + text::decimal(total) + " total"@ + modifier_note(hit_modifier, "to hit"@)
}

/// The Wound phase description: `"Wound (4+)"` or
/// `"Wound (4+ → 3+) (+1 to wound)"`.
pub open spec fn wound_description(to_wound: u8, effective: u8, wound_modifier: i8) -> Seq<char> {
    target_header("Wound"@, to_wound, effective, wound_modifier != 0) + modifier_note(wound_modifier, "to wound"@)
}

/// `" - Pending"` for phases left to the defender, nothing otherwise.
pub open spec fn pending_note(pending: bool) -> Seq<char> {
    if pending { " - Pending"@ } else { Seq::empty() }
}

/// The Save phase description: `"Save (4+)"`, or
/// `"Save (5+ → 4+) (+1 rend)"` with a rend modifier; `" - Pending"` stands
/// before the note when the defender rolls the saves.
pub open spec fn save_description(base: u8, target: u8, rend_modifier: i8, pending: bool) -> Seq<char> {
    target_header("Save"@, base, target, rend_modifier != 0) + pending_note(pending) + modifier_note(
        rend_modifier,
        "rend"@,
    )
}

/// The Damage phase description: `"Damage (2 per wound)"`, or
/// `"Damage (2 → 4) per wound (+2 damage)"` with a damage modifier.
pub open spec fn damage_description(damage: Seq<char>, effective: Seq<char>, damage_modifier: i8, pending: bool) -> Seq<
    char,
> {
    if damage_modifier != 0 {
        "Damage ("@ + damage + " → "@ + effective + ") per wound"@ + pending_note(pending) + modifier_note(
            damage_modifier,
            "damage"@,
        )
    } else {
        "Damage ("@ + damage + " per wound)"@ + pending_note(pending)
    }
}

/// The Ward phase description: `"Ward (5+)"`; `"Ward (-) - Pending"` when the
/// defender has no ward and rolls externally.
pub open spec fn ward_description(ward: Option<u8>, pending: bool) -> Seq<char> {
    match ward {
        Some(w) => "Ward ("@ + text::decimal(w as nat) + "+)"@ + pending_note(pending),
        None => "Ward (-)"@ + pending_note(pending),
    }
}

fn push_target_header(out: &mut String, name: &str, stat: u8, effective: u8, modified: bool)
    ensures
        final(out)@ == old(out)@ + target_header(name@, stat, effective, modified),
{
    out.append(name);
    out.append(" (");
    push_decimal(out, stat as usize);
    if modified {
        out.append("+ → ");
        push_decimal(out, effective as usize);
    }
    out.append("+)");
    assert(final(out)@ =~= old(out)@ + target_header(name@, stat, effective, modified));
}

fn push_modifier_note(out: &mut String, modifier: i8, what: &str)
    ensures
        final(out)@ == old(out)@ + modifier_note(modifier, what@),
{
    if modifier != 0 {
        out.append(" (");
        push_modifier(out, modifier as i32);
        out.append(" ");
        out.append(what);
        out.append(")");
    }
    assert(final(out)@ =~= old(out)@ + modifier_note(modifier, what@));
}

fn push_pending_note(out: &mut String, pending: bool)
    ensures
        final(out)@ == old(out)@ + pending_note(pending),
{
    if pending {
        out.append(" - Pending");
    }
    assert(final(out)@ =~= old(out)@ + pending_note(pending));
}

/// Builds the Hit phase description for a fixed number of attacks.
pub fn describe_fixed_hits(to_hit: u8, effective: u8, hit_modifier: i8, attacks: usize) -> (r: String)
    ensures
        r@ == fixed_hit_description(to_hit, effective, hit_modifier, attacks as nat),
{
    let mut s = String::new();
    push_target_header(&mut s, "Hit", to_hit, effective, hit_modifier != 0);
    s.append(" - ");
    push_decimal(&mut s, attacks);
    s.append(" fixed attacks");
    push_modifier_note(&mut s, hit_modifier, "to hit");
    assert(s@ =~= fixed_hit_description(to_hit, effective, hit_modifier, attacks as nat));
    s
}

/// Builds the Hit phase description for attacks per model.
pub fn describe_model_hits(
    to_hit: u8,
    effective: u8,
    hit_modifier: i8,
    num_models: usize,
    attack_text: &str,
    has_champion: bool,
    total: usize,
) -> (r: String)
    ensures
        r@ == model_hit_description(
            to_hit,
            effective,
            hit_modifier,
            num_models as nat,
            attack_text@,
            has_champion,
            total as nat,
        ),
{
    let mut s = String::new();
    push_target_header(&mut s, "Hit", to_hit, effective, hit_modifier != 0);
    s.append(" - ");
    push_decimal(&mut s, num_models);
    s.append(" models × ");
    s.append(attack_text);
    s.append(" attacks");
    if has_champion {
        s.append(" + 1 champion");
    }
    s.append(" = ");
    push_decimal(&mut s, total);
    s.append(" total");
    push_modifier_note(&mut s, hit_modifier, "to hit");
    assert(s@ =~= model_hit_description(
        to_hit,
        effective,
        hit_modifier,
        num_models as nat,
        attack_text@,
        has_champion,
        total as nat,
    ));
    s
}

/// Builds the Wound phase description.
pub fn describe_wounds(to_wound: u8, effective: u8, wound_modifier: i8) -> (r: String)
    ensures
        r@ == wound_description(to_wound, effective, wound_modifier),
{
    let mut s = String::new();
    push_target_header(&mut s, "Wound", to_wound, effective, wound_modifier != 0);
    push_modifier_note(&mut s, wound_modifier, "to wound");
    assert(s@ =~= wound_description(to_wound, effective, wound_modifier));
    s
}

/// Builds the Save phase description.
pub fn describe_save(base: u8, target: u8, rend_modifier: i8, pending: bool) -> (r: String)
    ensures
        r@ == save_description(base, target, rend_modifier, pending),
{
    let mut s = String::new();
    push_target_header(&mut s, "Save", base, target, rend_modifier != 0);
    push_pending_note(&mut s, pending);
    push_modifier_note(&mut s, rend_modifier, "rend");
    assert(s@ =~= save_description(base, target, rend_modifier, pending));
    s
}

/// Builds the Damage phase description.
pub fn describe_damage(damage: &str, effective: &str, damage_modifier: i8, pending: bool) -> (r: String)
    ensures
        r@ == damage_description(damage@, effective@, damage_modifier, pending),
{
    let mut s = String::new();
    s.append("Damage (");
    s.append(damage);
    if damage_modifier != 0 {
        s.append(" → ");
        s.append(effective);
        s.append(") per wound");
        push_pending_note(&mut s, pending);
        push_modifier_note(&mut s, damage_modifier, "damage");
    } else {
        s.append(" per wound)");
        push_pending_note(&mut s, pending);
    }
    assert(s@ =~= damage_description(damage@, effective@, damage_modifier, pending));
    s
}

/// Builds the Ward phase description.
pub fn describe_ward(ward: Option<u8>, pending: bool) -> (r: String)
    ensures
        r@ == ward_description(ward, pending),
{
    let mut s = String::new();
    match ward {
        Some(w) => {
            s.append("Ward (");
            push_decimal(&mut s, w as usize);
            s.append("+)");
        },
        None => {
            s.append("Ward (-)");
        },
    }
    push_pending_note(&mut s, pending);
    assert(s@ =~= ward_description(ward, pending));
    s
}

} // verus!
