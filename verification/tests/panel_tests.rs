use aos4_combat_roller::combat::types::{CombatResult, DiceRoll, Phase, PhaseResult, VarianceStep};
use aos4_combat_roller::data::models::{Unit, Weapon};
use aos4_combat_roller::ui::panels::combat_view::{describe_headline, summary};
use aos4_combat_roller::ui::panels::log_panel::LogPanel;
use aos4_combat_roller::ui::panels::target_panel::{defender_stats, matching_units};
use aos4_combat_roller::ui::panels::unit_panel::{all_members, describe_weapon, faction_groups};
use aos4_combat_roller::ui::widgets::phase_result::{describe_outcome, describe_variance, phase_crit_extra};

fn unit(id: &str, name: &str, faction: &str, ward: Option<u8>) -> Unit {
    Unit { id: id.into(), name: name.into(), faction: faction.into(), save: 4, ward, weapons: vec![] }
}

fn phase(phase: Phase, successes: usize, failures: usize, total: usize) -> PhaseResult {
    PhaseResult {
        phase,
        rolls: vec![DiceRoll { value: 4, success: true, is_crit: false }],
        successes,
        failures,
        total_output: total,
        auto_fails: false,
        skipped: false,
        description: String::new(),
        variance_step: None,
    }
}

fn result(stopped: bool, mortal: usize) -> CombatResult {
    CombatResult {
        attacker_name: "Liberators".into(),
        weapon_name: "Warhammer".into(),
        defender_name: "Skeletons".into(),
        phases: vec![
            phase(Phase::Hit, 11, 3, 11),
            phase(Phase::Wound, 5, 6, 7),
            phase(Phase::Save, 4, 3, 4),
            phase(Phase::Damage, 6, 0, 6),
        ],
        final_damage: 6,
        mortal_wounds: mortal,
        stopped_after_wound: stopped,
        total_hits: 12,
        total_wounds: 7,
    }
}

#[test]
fn factions_sorted_and_distinct() {
    let units = vec![
        unit("a", "A", "Stormcast Eternals", None),
        unit("b", "B", "Cities of Sigmar", None),
        unit("c", "C", "Stormcast Eternals", None),
        unit("d", "D", "Bonesplitterz", None),
        unit("e", "E", "Cities of Sigmar", None),
    ];
    let members = all_members(&units);
    assert_eq!(members, vec![0, 1, 2, 3, 4]);
    let groups = faction_groups(&units, &members);
    assert_eq!(groups, vec!["Bonesplitterz", "Cities of Sigmar", "Stormcast Eternals"]);
    // Byte order, as `sort` on strings gives it: capitals first.
    let units = vec![unit("a", "A", "beta", None), unit("b", "B", "Alpha", None), unit("c", "C", "alpha", None)];
    assert_eq!(faction_groups(&units, &all_members(&units)), vec!["Alpha", "alpha", "beta"]);
    assert!(faction_groups(&units, &vec![]).is_empty());
    assert_eq!(faction_groups(&units, &vec![2, 2]), vec!["alpha"]);
}

#[test]
fn search_matches_name_or_faction_ignoring_case() {
    let units = vec![
        unit("a", "Liberators", "Stormcast Eternals", None),
        unit("b", "Skeleton Warriors", "Soulblight Gravelords", None),
        unit("c", "Vindictors", "Stormcast Eternals", None),
    ];
    assert_eq!(matching_units(&units, "storm"), vec![0, 2]);
    assert_eq!(matching_units(&units, "SKEL"), vec![1]);
    assert_eq!(matching_units(&units, "ors"), vec![0, 1, 2]);
    assert_eq!(matching_units(&units, ""), vec![0, 1, 2]);
    assert!(matching_units(&units, "ogor").is_empty());
}

#[test]
fn weapon_labels() {
    let w = Weapon {
        name: "Warhammer".into(),
        range: None,
        attack: "D6".into(),
        to_hit: 3,
        to_wound: 4,
        rend: 0,
        damage: "1".into(),
        crit_hit: None,
    };
    assert_eq!(describe_weapon(&w, false), "Warhammer (A:D6, Hit:3+)");
    assert_eq!(describe_weapon(&w, true), "[Override] Warhammer (A:D6, Hit:3+)");
}

#[test]
fn defender_stat_lines() {
    assert_eq!(defender_stats(&unit("a", "A", "F", Some(5))), ("Save: 4+".to_string(), "Ward: 5+".to_string()));
    assert_eq!(defender_stats(&unit("a", "A", "F", None)), ("Save: 4+".to_string(), "Ward: None".to_string()));
}

#[test]
fn combat_view_texts() {
    assert_eq!(describe_headline(&result(false, 0)), "Liberators attacking Skeletons with Warhammer");
    assert_eq!(summary(&result(false, 0)), vec!["6"]);
    assert_eq!(summary(&result(false, 2)), vec!["6", "includes 2 mortal wounds"]);
    assert_eq!(summary(&result(true, 0)), vec!["12 hits / 7 wounds to save"]);
    assert_eq!(summary(&result(true, 3)), vec!["12 hits / 7 wounds to save", "(includes 3 mortal wounds)"]);
}

#[test]
fn variance_lines() {
    let attacks = VarianceStep::AttackRoll { per_model: "D6".into(), results: vec![3, 5, 1], total: 9 };
    assert_eq!(describe_variance(&attacks), "Rolling D6 per model: [3, 5, 1] = 9 total attacks");
    let damage = VarianceStep::DamageRoll { per_wound: "D3".into(), results: vec![2], total: 2 };
    assert_eq!(describe_variance(&damage), "Rolling D3 per wound: [2] = 2 damage");
    let none = VarianceStep::DamageRoll { per_wound: "D3".into(), results: vec![], total: 0 };
    assert_eq!(describe_variance(&none), "Rolling D3 per wound: [] = 0 damage");
}

#[test]
fn outcome_lines() {
    let hit = phase(Phase::Hit, 15, 3, 15);
    assert_eq!(describe_outcome(&hit, 0), "→ 15 success, 3 fail = 15");
    assert_eq!(describe_outcome(&hit, 4), "→ 11 base + 4 extra = 15 (3 fail)");
    let wound = phase(Phase::Wound, 5, 6, 7);
    assert_eq!(describe_outcome(&wound, 2), "→ 5 normal + 2 extra = 7 (6 fail)");
    let damage = phase(Phase::Damage, 5, 0, 5);
    assert_eq!(describe_outcome(&damage, 2), "→ 3 normal + 2 MW = 5 (0 fail)");
    let save = phase(Phase::Save, 4, 3, 4);
    assert_eq!(describe_outcome(&save, 1), "→ 4 success, 3 fail = 4");
    let mut skipped = phase(Phase::Ward, 0, 0, 0);
    skipped.skipped = true;
    assert_eq!(describe_outcome(&skipped, 0), "Pending — roll externally");
    let mut auto = phase(Phase::Save, 4, 3, 7);
    auto.auto_fails = true;
    assert_eq!(describe_outcome(&auto, 0), "Auto-fail (target 7+) → 7 through");
    // More extra than successes saturates at zero.
    let few = phase(Phase::Hit, 1, 0, 1);
    assert_eq!(describe_outcome(&few, 3), "→ 0 base + 3 extra = 1 (0 fail)");
}

#[test]
fn crit_extras_of_phases() {
    let mut r = result(false, 2);
    // Eleven successful dice counted as 15 successes: 4 extra hits.
    r.phases[0].rolls = (0..14)
        .map(|i| DiceRoll { value: if i < 4 { 6 } else if i < 11 { 4 } else { 1 }, success: i < 11, is_crit: i < 4 })
        .collect();
    r.phases[0].successes = 15;
    r.phases[0].total_output = 15;
    assert_eq!(phase_crit_extra(&r, 0), 4);
    assert_eq!(describe_outcome(&r.phases[0], phase_crit_extra(&r, 0)), "→ 11 base + 4 extra = 15 (3 fail)");
    assert_eq!(phase_crit_extra(&r, 1), 2);
    assert_eq!(phase_crit_extra(&r, 2), 0);
    assert_eq!(phase_crit_extra(&r, 3), 2);
    // Successes no more than the successful dice: nothing extra.
    r.phases[0].successes = 9;
    assert_eq!(phase_crit_extra(&r, 0), 0);
}

#[test]
fn log_lines_newest_first() {
    let mut second = result(false, 0);
    second.attacker_name = "Vindictors".into();
    second.final_damage = 3;
    let log = vec![result(false, 0), second];
    let lines = LogPanel::new(&log).lines();
    assert_eq!(lines, vec!["#2: Vindictors → Skeletons: 3 damage", "#1: Liberators → Skeletons: 6 damage"]);
    assert!(LogPanel::new(&[]).lines().is_empty());
}

use aos4_combat_roller::data::models::CritEffect;
use aos4_combat_roller::ui::panels::unit_panel::{crit_choice, crit_choice_text, CRIT_CHOICES};

#[test]
fn crit_dropdown_choices() {
    let mut w = Weapon {
        name: "Claws".into(),
        range: None,
        attack: "3".into(),
        to_hit: 4,
        to_wound: 3,
        rend: -1,
        damage: "D3".into(),
        crit_hit: None,
    };
    assert_eq!(CRIT_CHOICES, 4);
    assert_eq!(crit_choice_text(0), "Default (use weapon)");
    assert_eq!(crit_choice_text(3), "Mortal Wounds");
    assert_eq!(crit_choice(0, &w), None);
    assert_eq!(crit_choice(1, &w), Some(CritEffect::AutoWound));
    assert_eq!(crit_choice(2, &w), Some(CritEffect::ExtraHit));
    assert_eq!(crit_choice(3, &w), Some(CritEffect::MortalWounds(Some("D3".into()))));
    w.crit_hit = Some(CritEffect::MortalWounds(Some("2".into())));
    assert_eq!(crit_choice(3, &w), Some(CritEffect::MortalWounds(Some("2".into()))));
}
