//! The texts of the combat view: who attacked whom, and the summary card at
//! its top.

use vstd::prelude::*;

use crate::combat::types::CombatResult;
use crate::text;
use crate::text::push_decimal;

verus! {

/// `"Liberators attacking Skeletons with Warhammer"`.
pub open spec fn headline(result: CombatResult) -> Seq<char> {
    result.attacker_name@ + " attacking "@ + result.defender_name@ + " with "@ + result.weapon_name@
}

/// The headline of the combat view (see `headline`).
pub fn describe_headline(result: &CombatResult) -> (r: String)
    ensures
        r@ == headline(*result),
{
    proof {
        reveal_strlit(" attacking ");
        reveal_strlit(" with ");
    }
    let mut out = result.attacker_name.clone();
    out.append(" attacking ");
    out.append(result.defender_name.as_str());
    out.append(" with ");
    out.append(result.weapon_name.as_str());
    assert(out@ =~= headline(*result));
    out
}

/// The lines of the summary card. After a full sequence: the final damage,
/// then `"includes 2 mortal wounds"` where there were any. After a sequence
/// stopped at the Wound phase: `"5 hits / 3 wounds to save"`, then
/// `"(includes 2 mortal wounds)"` where there were any.
pub open spec fn summary_lines(result: CombatResult) -> Seq<Seq<char>> {
    let mortal = text::decimal(result.mortal_wounds as nat);
    if result.stopped_after_wound {
        let main = text::decimal(result.total_hits as nat) + " hits / "@ + text::decimal(result.total_wounds as nat)
            + " wounds to save"@;
        if result.mortal_wounds > 0 {
            seq![main, "(includes "@ + mortal + " mortal wounds)"@]
        } else {
            seq![main]
        }
    } else {
        let main = text::decimal(result.final_damage as nat);
        if result.mortal_wounds > 0 {
            seq![main, "includes "@ + mortal + " mortal wounds"@]
        } else {
            seq![main]
        }
    }
}

/// The lines of the summary card (see `summary_lines`).
pub fn summary(result: &CombatResult) -> (r: Vec<String>)
    ensures
        r@.map_values(|t: String| t@) == summary_lines(*result),
{
    proof {
        reveal_strlit(" hits / ");
        reveal_strlit(" wounds to save");
        reveal_strlit("(includes ");
        reveal_strlit("includes ");
        reveal_strlit(" mortal wounds)");
        reveal_strlit(" mortal wounds");
    }
    let mut main = String::new();
    let mut out: Vec<String> = Vec::new();
    if result.stopped_after_wound {
        push_decimal(&mut main, result.total_hits);
        main.append(" hits / ");
        push_decimal(&mut main, result.total_wounds);
        main.append(" wounds to save");
        out.push(main);
        if result.mortal_wounds > 0 {
            let mut note = String::from_str("(includes ");
            push_decimal(&mut note, result.mortal_wounds);
            note.append(" mortal wounds)");
            out.push(note);
        }
    } else {
        push_decimal(&mut main, result.final_damage);
        out.push(main);
        if result.mortal_wounds > 0 {
            let mut note = String::from_str("includes ");
            push_decimal(&mut note, result.mortal_wounds);
            note.append(" mortal wounds");
            out.push(note);
        }
    }
    assert(out@.map_values(|t: String| t@) =~= summary_lines(*result));
    out
}

} // verus!
