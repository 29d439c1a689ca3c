//! The card of one phase: the random count rolled before it and the line
//! that sums up its dice.

use vstd::prelude::*;

use crate::combat::engine::sat_sub;
use crate::combat::types::{CombatResult, DiceRoll, Phase, PhaseResult, VarianceStep};
use crate::text;
use crate::text::{push_decimal, push_decimal_wide};

verus! {

/// The faces of a roll separated by `", "`: `"3, 1, 6"`.
pub open spec fn joined_faces(results: Seq<u8>) -> Seq<char>
    decreases results.len(),
{
    if results.len() == 0 {
        Seq::empty()
    } else if results.len() == 1 {
        text::decimal(results[0] as nat)
    } else {
        joined_faces(results.drop_last()) + ", "@ + text::decimal(results.last() as nat)
    }
}

/// The line of a random count rolled before a phase:
/// `"Rolling D6 per model: [3, 5] = 8 total attacks"`, or
/// `"Rolling D3 per wound: [2, 1] = 3 damage"`.
pub open spec fn variance_line(step: VarianceStep) -> Seq<char> {
    match step {
        VarianceStep::AttackRoll { per_model, results, total } => "Rolling "@ + per_model@ + " per model: ["@
            + joined_faces(results@) + "] = "@ + text::decimal(total as nat) + " total attacks"@,
        VarianceStep::DamageRoll { per_wound, results, total } => "Rolling "@ + per_wound@ + " per wound: ["@
            + joined_faces(results@) + "] = "@ + text::decimal(total as nat) + " damage"@,
    }
}

fn push_joined_faces(out: &mut String, results: &Vec<u8>)
    ensures
        final(out)@ == old(out)@ + joined_faces(results@),
{
    let mut i: usize = 0;
    proof {
        assert(results@.take(0) =~= Seq::<u8>::empty());
        assert(out@ =~= old(out)@ + joined_faces(results@.take(0)));
    }
    while i < results.len()
        invariant
            i <= results@.len(),
            out@ == old(out)@ + joined_faces(results@.take(i as int)),
        decreases results@.len() - i,
    {
        proof {
            reveal_strlit(", ");
            assert(results@.take(i + 1).drop_last() =~= results@.take(i as int));
            assert(results@.take(i + 1).last() == results@[i as int]);
        }
        if i > 0 {
            out.append(", ");
        }
        push_decimal(out, results[i] as usize);
        assert(out@ =~= old(out)@ + joined_faces(results@.take(i + 1)));
        i = i + 1;
    }
    assert(results@.take(results@.len() as int) =~= results@);
}

/// The line of a random count rolled before a phase (see `variance_line`).
pub fn describe_variance(step: &VarianceStep) -> (r: String)
    ensures
        r@ == variance_line(*step),
{
    proof {
        reveal_strlit("Rolling ");
        reveal_strlit(" per model: [");
        reveal_strlit(" per wound: [");
        reveal_strlit("] = ");
        reveal_strlit(" total attacks");
        reveal_strlit(" damage");
    }
    let mut out = String::from_str("Rolling ");
    match step {
        VarianceStep::AttackRoll { per_model, results, total } => {
            out.append(per_model.as_str());
            out.append(" per model: [");
            push_joined_faces(&mut out, results);
            out.append("] = ");
            push_decimal(&mut out, *total);
            out.append(" total attacks");
        },
        VarianceStep::DamageRoll { per_wound, results, total } => {
            out.append(per_wound.as_str());
            out.append(" per wound: [");
            push_joined_faces(&mut out, results);
            out.append("] = ");
            push_decimal(&mut out, *total);
            out.append(" damage");
        },
    }
    assert(out@ =~= variance_line(*step));
    out
}

/// `"→ 4 success, 2 fail = 4"`.
pub open spec fn plain_outcome(p: PhaseResult) -> Seq<char> {
    "→ "@ + text::decimal(p.successes as nat) + " success, "@ + text::decimal(p.failures as nat) + " fail = "@
        + text::decimal(p.total_output as nat)
}

/// `"→ 11 base + 4 extra = 15 (3 fail)"`, with the phase's word for the
/// normal and the extra part.
pub open spec fn split_outcome(normal: nat, word: Seq<char>, extra: nat, extra_word: Seq<char>, p: PhaseResult) -> Seq<char> {
    "→ "@ + text::decimal(normal) + " "@ + word + " + "@ + text::decimal(extra) + " "@ + extra_word + " = "@
        + text::decimal(p.total_output as nat) + " ("@ + text::decimal(p.failures as nat) + " fail)"@
}

/// The line that sums up a phase's dice. `crit_extra` is what critical
/// hits added to the phase: extra hits, auto-wounds, or mortal wounds.
/// A pending phase reads `"Pending — roll externally"`; an automatic failure
/// `"Auto-fail (target 7+) → 3 through"`; where critical hits added to the
/// Hit, Wound or Damage phase, the normal and the extra part are shown apart
/// (the Wound phase's successes hold no auto-wound, the others' do).
pub open spec fn outcome_line(p: PhaseResult, crit_extra: nat) -> Seq<char> {
    if p.skipped {
        "Pending — roll externally"@
    } else if p.auto_fails {
        "Auto-fail (target "@ + text::decimal((p.successes + p.failures) as nat) + "+) → "@ + text::decimal(
            p.total_output as nat,
        ) + " through"@
    } else if crit_extra > 0 {
        let normal = if p.phase == Phase::Wound {
            p.successes as nat
        } else {
            sat_sub(p.successes as nat, crit_extra)
        };
        match p.phase {
            Phase::Hit => split_outcome(normal, "base"@, crit_extra, "extra"@, p),
            Phase::Wound => split_outcome(normal, "normal"@, crit_extra, "extra"@, p),
            Phase::Damage => split_outcome(normal, "normal"@, crit_extra, "MW"@, p),
            _ => plain_outcome(p),
        }
    } else {
        plain_outcome(p)
    }
}

fn push_plain_outcome(out: &mut String, p: &PhaseResult)
    ensures
        final(out)@ == old(out)@ + plain_outcome(*p),
{
    proof {
        reveal_strlit("→ ");
        reveal_strlit(" success, ");
        reveal_strlit(" fail = ");
    }
    out.append("→ ");
    push_decimal(out, p.successes);
    out.append(" success, ");
    push_decimal(out, p.failures);
    out.append(" fail = ");
    push_decimal(out, p.total_output);
    assert(final(out)@ =~= old(out)@ + plain_outcome(*p));
}

fn push_split_outcome(out: &mut String, normal: usize, word: &str, extra: usize, extra_word: &str, p: &PhaseResult)
    ensures
        final(out)@ == old(out)@ + split_outcome(normal as nat, word@, extra as nat, extra_word@, *p),
{
    proof {
        reveal_strlit("→ ");
        reveal_strlit(" ");
        reveal_strlit(" + ");
        reveal_strlit(" = ");
        reveal_strlit(" (");
        reveal_strlit(" fail)");
    }
    out.append("→ ");
    push_decimal(out, normal);
    out.append(" ");
    out.append(word);
    out.append(" + ");
    push_decimal(out, extra);
    out.append(" ");
    out.append(extra_word);
    out.append(" = ");
    push_decimal(out, p.total_output);
    out.append(" (");
    push_decimal(out, p.failures);
    out.append(" fail)");
    assert(final(out)@ =~= old(out)@ + split_outcome(normal as nat, word@, extra as nat, extra_word@, *p));
}

/// The line that sums up a phase's dice (see `outcome_line`).
pub fn describe_outcome(p: &PhaseResult, crit_extra: usize) -> (r: String)
    ensures
        r@ == outcome_line(*p, crit_extra as nat),
{
    proof {
        reveal_strlit("Pending — roll externally");
        reveal_strlit("Auto-fail (target ");
        reveal_strlit("+) → ");
        reveal_strlit(" through");
        reveal_strlit("base");
        reveal_strlit("normal");
        reveal_strlit("extra");
        reveal_strlit("MW");
    }
    if p.skipped {
        return String::from_str("Pending — roll externally");
    }
    let mut out = String::new();
    if p.auto_fails {
        out.append("Auto-fail (target ");
        push_decimal_wide(&mut out, p.successes as u128 + p.failures as u128);
        out.append("+) → ");
        push_decimal(&mut out, p.total_output);
        out.append(" through");
        assert(out@ =~= outcome_line(*p, crit_extra as nat));
        return out;
    }
    if crit_extra > 0 {
        let normal: usize = match p.phase {
            Phase::Wound => p.successes,
            _ => if p.successes >= crit_extra {
                p.successes - crit_extra
            } else {
                0
            },
        };
        match p.phase {
            Phase::Hit => push_split_outcome(&mut out, normal, "base", crit_extra, "extra", p),
            Phase::Wound => push_split_outcome(&mut out, normal, "normal", crit_extra, "extra", p),
            Phase::Damage => push_split_outcome(&mut out, normal, "normal", crit_extra, "MW", p),
            _ => push_plain_outcome(&mut out, p),
        }
    } else {
        push_plain_outcome(&mut out, p);
    }
    assert(out@ =~= outcome_line(*p, crit_extra as nat));
    out
}

/// The number of dice that succeeded.
pub open spec fn successful_dice(rolls: Seq<DiceRoll>) -> nat
    decreases rolls.len(),
{
    if rolls.len() == 0 {
        0
    } else {
        successful_dice(rolls.drop_last()) + if rolls.last().success { 1nat } else { 0nat }
    }
}

/// What critical hits added to the phase at `k` of a result: the extra hits
/// of the Hit phase (its successes beyond its successful dice), the
/// auto-wounds of the Wound phase (its output beyond its successes), the
/// mortal wounds of the Damage phase; nothing for the others.
pub open spec fn crit_extra_of(result: CombatResult, k: int) -> nat {
    let p = result.phases@[k];
    match p.phase {
        Phase::Hit => sat_sub(p.successes as nat, successful_dice(p.rolls@)),
        Phase::Wound => sat_sub(p.total_output as nat, p.successes as nat),
        Phase::Damage => result.mortal_wounds as nat,
        _ => 0,
    }
}

fn count_successful(rolls: &Vec<DiceRoll>) -> (r: usize)
    ensures
        r == successful_dice(rolls@),
{
    let mut count: usize = 0;
    let mut i: usize = 0;
    while i < rolls.len()
        invariant
            i <= rolls@.len(),
            count == successful_dice(rolls@.take(i as int)),
            count <= i,
        decreases rolls@.len() - i,
    {
        proof {
            assert(rolls@.take(i + 1).drop_last() =~= rolls@.take(i as int));
        }
        if rolls[i].success {
            count = count + 1;
        }
        i = i + 1;
    }
    assert(rolls@.take(rolls@.len() as int) =~= rolls@);
    count
}

/// What critical hits added to the phase at `k` (see `crit_extra_of`).
pub fn phase_crit_extra(result: &CombatResult, k: usize) -> (r: usize)
    requires
        k < result.phases@.len(),
    ensures
        r == crit_extra_of(*result, k as int),
{
    let p = &result.phases[k];
    match p.phase {
        Phase::Hit => {
            let dice = count_successful(&p.rolls);
            if p.successes >= dice {
                p.successes - dice
            } else {
                0
            }
        },
        Phase::Wound => if p.total_output >= p.successes {
            p.total_output - p.successes
        } else {
            0
        },
        Phase::Damage => result.mortal_wounds,
        _ => 0,
    }
}

} // verus!
