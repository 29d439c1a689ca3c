//! Unit and weapon profiles.

use vstd::prelude::*;

use crate::text::text_equals;

verus! {

/// Critical hit effects triggered on a hit roll of 6.
///
/// - `AutoWound`: the wound roll auto-succeeds.
/// - `ExtraHit`: counts as 2 hits (base + extra).
/// - `MortalWounds(value)`: bypasses the wound and save rolls and deals the
///   dice expression `value` (rolled per critical hit, with the damage
///   modifier applied) as mortal wounds; with
///   no value the critical hit deals none.
#[derive(Debug, Clone, PartialEq, Eq)]
pub enum CritEffect {
    AutoWound,
    ExtraHit,
    MortalWounds(Option<String>),
}

impl CritEffect {
    /// The effect named by a profile's `type` tag (`"auto_wound"`,
    /// `"extra_hit"`, `"mortal_wounds"`), with the tag's `value` kept for
    /// mortal wounds; `None` for any other tag.
    pub fn from_tag(tag: &str, value: Option<String>) -> (r: Option<CritEffect>)
        ensures
            tag@ == "auto_wound"@ ==> r == Some(CritEffect::AutoWound),
            tag@ == "extra_hit"@ ==> r == Some(CritEffect::ExtraHit),
            tag@ == "mortal_wounds"@ ==> r == Some(CritEffect::MortalWounds(value)),
            tag@ != "auto_wound"@ && tag@ != "extra_hit"@ && tag@ != "mortal_wounds"@ ==> r is None,
    {
        proof {
            reveal_strlit("auto_wound");
            reveal_strlit("extra_hit");
            reveal_strlit("mortal_wounds");
            assert("auto_wound"@ != "mortal_wounds"@ && "auto_wound"@ != "extra_hit"@) by {
                assert("auto_wound"@[0] != "mortal_wounds"@[0]);
                assert("auto_wound"@[0] != "extra_hit"@[0]);
            }
            assert("extra_hit"@[0] != "mortal_wounds"@[0]);
        }
        if text_equals(tag, "auto_wound") {
            Some(CritEffect::AutoWound)
        } else if text_equals(tag, "extra_hit") {
            Some(CritEffect::ExtraHit)
        } else if text_equals(tag, "mortal_wounds") {
            Some(CritEffect::MortalWounds(value))
        } else {
            None
        }
    }
}

/// A weapon profile.
#[derive(Debug, Clone, PartialEq, Eq)]
pub struct Weapon {
    pub name: String,
    /// `None` for melee weapons.
    pub range: Option<String>,
    /// Attacks per model: a number or a dice expression.
    pub attack: String,
    pub to_hit: u8,
    pub to_wound: u8,
    /// Stored as a non-positive number (`-1`, `-2`, ...).
    pub rend: i8,
    /// Damage per unsaved wound: a number or a dice expression.
    pub damage: String,
    pub crit_hit: Option<CritEffect>,
}

/// A unit profile.
#[derive(Debug, Clone, PartialEq, Eq)]
pub struct Unit {
    pub id: String,
    pub name: String,
    pub faction: String,
    pub save: u8,
    pub ward: Option<u8>,
    pub weapons: Vec<Weapon>,
}

/// A combat selection: attackers, weapon and defender.
#[derive(Debug, Clone)]
pub struct CombatConfig {
    pub attacker_ids: Vec<String>,
    pub weapon_name: String,
    pub defender_id: String,
    pub include_ward: bool,
}

} // verus!
