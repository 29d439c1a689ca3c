//! The results of a combat sequence.

use vstd::prelude::*;

verus! {

/// The phases of a combat sequence, in order.
#[derive(Debug, Clone, Copy, PartialEq, Eq, Structural)]
pub enum Phase {
    Hit,
    Wound,
    Save,
    Damage,
    Ward,
}

impl Phase {
    /// The name under which the phase is shown.
    pub fn label(&self) -> (r: &'static str)
        ensures
            *self == Phase::Hit ==> r@ == "Hit"@,
            *self == Phase::Wound ==> r@ == "Wound"@,
            *self == Phase::Save ==> r@ == "Save"@,
            *self == Phase::Damage ==> r@ == "Damage"@,
            *self == Phase::Ward ==> r@ == "Ward"@,
    {
        match self {
            Phase::Hit => "Hit",
            Phase::Wound => "Wound",
            Phase::Save => "Save",
            Phase::Damage => "Damage",
            Phase::Ward => "Ward",
        }
    }
}

/// One die of a phase: its face, whether it succeeded, whether it was a
/// critical hit.
#[derive(Debug, Clone)]
pub struct DiceRoll {
    pub value: u8,
    pub success: bool,
    pub is_crit: bool,
}

/// A random count rolled before a phase: attacks per model, or damage per
/// wound.
#[derive(Debug, Clone)]
pub enum VarianceStep {
    AttackRoll {
        per_model: String,
        results: Vec<u8>,
        total: usize,
    },
    DamageRoll {
        per_wound: String,
        results: Vec<u8>,
        total: usize,
    },
}

/// The outcome of one phase.
#[derive(Debug, Clone)]
pub struct PhaseResult {
    pub phase: Phase,
    pub rolls: Vec<DiceRoll>,
    pub successes: usize,
    pub failures: usize,
    pub total_output: usize,
    pub auto_fails: bool,
    pub skipped: bool,
    pub description: String,
    pub variance_step: Option<VarianceStep>,
}

/// The outcome of a combat sequence.
#[derive(Debug, Clone)]
pub struct CombatResult {
    pub attacker_name: String,
    pub weapon_name: String,
    pub defender_name: String,
    pub phases: Vec<PhaseResult>,
    pub final_damage: usize,
    /// Mortal wounds from critical hits that bypass the Save phase.
    /// Still subject to Ward saves.
    pub mortal_wounds: usize,
    /// True when combat was stopped after the Wound phase.
    pub stopped_after_wound: bool,
    /// Total successful hits (including auto-wounds and extra hits from crits).
    /// Only meaningful when `stopped_after_wound` is true.
    pub total_hits: usize,
    /// Total successful wounds (normal wounds + auto-wounds from crits).
    /// Only meaningful when `stopped_after_wound` is true.
    pub total_wounds: usize,
}

/// The outcome of ward saves.
#[derive(Debug, Clone, Default)]
pub struct WardResult {
    pub final_damage: usize,
    pub wounds_saved: usize,
    pub rolls: Vec<DiceRoll>,
}

/// The faces of a list of dice.
pub open spec fn faces(rolls: Seq<DiceRoll>) -> Seq<u8> {
    rolls.map_values(|d: DiceRoll| d.value)
}

} // verus!
