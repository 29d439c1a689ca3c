use aos4_combat_roller::data::models::{CritEffect, Unit, Weapon};
use aos4_combat_roller::session::CombatSession;

fn weapon(name: &str, attack: &str, damage: &str) -> Weapon {
    Weapon {
        name: name.into(),
        range: None,
        attack: attack.into(),
        to_hit: 3,
        to_wound: 4,
        rend: -1,
        damage: damage.into(),
        crit_hit: None,
    }
}

fn unit(id: &str, name: &str, save: u8, weapons: Vec<Weapon>) -> Unit {
    Unit { id: id.into(), name: name.into(), faction: "Order".into(), save, ward: None, weapons }
}

fn roster() -> Vec<Unit> {
    vec![
        unit("lib", "Liberators", 4, vec![weapon("Warhammer", "2", "1"), weapon("Grandhammer", "2", "2")]),
        unit("skel", "Skeletons", 5, vec![weapon("Blade", "1", "1")]),
        unit("empty", "Empty", 6, vec![]),
    ]
}

fn ready_session() -> CombatSession {
    let mut s = CombatSession::new(roster());
    s.select_attacker(0);
    s.selected_defender = "skel".into();
    s
}

#[test]
fn new_session_defaults() {
    let s = CombatSession::new(roster());
    assert_eq!(s.units.len(), 3);
    assert!(s.selected_attackers.is_empty());
    assert!(s.selected_weapon.is_empty());
    assert!(s.selected_defender.is_empty());
    assert_eq!(s.num_models, 1);
    assert!(!s.has_champion);
    assert!(!s.use_attack_override);
    assert_eq!(s.attack_override, 10);
    assert!(s.include_ward);
    assert!(!s.stop_after_wound);
    assert_eq!((s.hit_modifier, s.wound_modifier, s.rend_modifier), (0, 0, 0));
    assert_eq!((s.damage_modifier, s.attack_modifier), (0, 0));
    assert!(s.crit_effect_override.is_none());
    assert!(s.combat_log.is_empty());
    assert!(s.error_message.is_none());
    assert!(s.recent_units.is_empty());
    assert!(s.current_result().is_none());
}

#[test]
fn roll_without_attacker_reports_it() {
    let mut s = CombatSession::new(roster());
    s.roll_combat();
    assert_eq!(s.error_message.as_deref(), Some("Select at least one attacker"));
    assert!(s.combat_log.is_empty());
}

#[test]
fn roll_without_defender_reports_it() {
    let mut s = CombatSession::new(roster());
    s.select_attacker(0);
    s.roll_combat();
    assert_eq!(s.error_message.as_deref(), Some("Select a defender"));
    assert!(s.combat_log.is_empty());
}

#[test]
fn roll_without_weapon_reports_it() {
    let mut s = CombatSession::new(roster());
    s.select_attacker(2);
    assert!(s.selected_weapon.is_empty());
    s.selected_defender = "skel".into();
    s.roll_combat();
    assert_eq!(s.error_message.as_deref(), Some("Select a weapon"));
}

#[test]
fn roll_with_unknown_units_reports_it() {
    let mut s = ready_session();
    s.selected_defender = "nobody".into();
    s.roll_combat();
    assert_eq!(s.error_message.as_deref(), Some("Selected units not found"));
    let mut s = ready_session();
    s.selected_attackers = vec!["ghost".into()];
    s.roll_combat();
    assert_eq!(s.error_message.as_deref(), Some("Selected units not found"));
    assert!(s.combat_log.is_empty());
}

#[test]
fn roll_with_unknown_weapon_reports_it() {
    let mut s = ready_session();
    s.selected_weapon = "Spoon".into();
    s.roll_combat();
    assert_eq!(s.error_message.as_deref(), Some("Selected weapon not found"));
    assert!(s.combat_log.is_empty());
}

#[test]
fn roll_records_result_and_recent_units() {
    let mut s = ready_session();
    s.error_message = Some("old".into());
    s.roll_combat();
    assert!(s.error_message.is_none());
    assert_eq!(s.combat_log.len(), 1);
    let r = s.current_result().unwrap();
    assert_eq!(r.attacker_name, "Liberators");
    assert_eq!(r.defender_name, "Skeletons");
    assert_eq!(r.weapon_name, "Warhammer");
    assert_eq!(r.phases[0].rolls.len(), 2);
    assert_eq!(
        s.recent_units,
        vec![("lib".to_string(), "Liberators".to_string()), ("skel".to_string(), "Skeletons".to_string())]
    );
}

#[test]
fn repeated_rolls_keep_each_unit_once_attacker_first() {
    let mut s = ready_session();
    s.roll_combat();
    s.choose_recent_attacker(&"skel".to_string());
    s.choose_recent_defender(&"lib".to_string());
    s.roll_combat();
    assert_eq!(s.combat_log.len(), 2);
    assert_eq!(
        s.recent_units,
        vec![("skel".to_string(), "Skeletons".to_string()), ("lib".to_string(), "Liberators".to_string())]
    );
    s.roll_combat();
    assert_eq!(s.recent_units.len(), 2);
    assert_eq!(s.combat_log.len(), 3);
    assert_eq!(s.current_result().unwrap().attacker_name, "Skeletons");
}

#[test]
fn stop_after_wound_rolls_without_defender() {
    let mut s = CombatSession::new(roster());
    s.select_attacker(0);
    s.stop_after_wound = true;
    s.roll_combat();
    assert!(s.error_message.is_none());
    let r = s.current_result().unwrap();
    assert_eq!(r.defender_name, "Defender (not selected)");
    assert!(r.stopped_after_wound);
    assert_eq!(r.final_damage, 0);
    assert_eq!(s.recent_units, vec![("lib".to_string(), "Liberators".to_string())]);
}

#[test]
fn selecting_an_attacker_picks_its_first_weapon() {
    let mut s = CombatSession::new(roster());
    s.select_attacker(0);
    assert_eq!(s.selected_attackers, vec!["lib".to_string()]);
    assert_eq!(s.selected_weapon, "Warhammer");
    s.selected_weapon = "Grandhammer".into();
    // A click on the selected attacker changes nothing.
    s.select_attacker(0);
    assert_eq!(s.selected_weapon, "Grandhammer");
    s.select_attacker(2);
    assert_eq!(s.selected_attackers, vec!["empty".to_string()]);
    assert!(s.selected_weapon.is_empty());
}

#[test]
fn recent_choices_prevent_dual_roles() {
    let mut s = ready_session();
    s.choose_recent_attacker(&"skel".to_string());
    assert_eq!(s.selected_attackers, vec!["skel".to_string()]);
    assert!(s.selected_defender.is_empty());
    assert_eq!(s.selected_weapon, "Blade");
    s.choose_recent_defender(&"skel".to_string());
    assert_eq!(s.selected_defender, "skel");
    assert!(s.selected_attackers.is_empty());
    // An id that is not loaded keeps the weapon.
    s.selected_weapon = "Blade".into();
    s.choose_recent_attacker(&"gone".to_string());
    assert_eq!(s.selected_attackers, vec!["gone".to_string()]);
    assert_eq!(s.selected_weapon, "Blade");
}

#[test]
fn changing_weapon_resets_crit_override() {
    let mut s = ready_session();
    s.sync_weapon_selection();
    s.crit_effect_override = Some(CritEffect::ExtraHit);
    s.sync_weapon_selection();
    assert_eq!(s.crit_effect_override, Some(CritEffect::ExtraHit));
    s.selected_weapon = "Grandhammer".into();
    s.sync_weapon_selection();
    assert_eq!(s.crit_effect_override, None);
    assert_eq!(s.last_selected_weapon, "Grandhammer");
}

#[test]
fn try_roll_refuses_inputs_out_of_range() {
    let mut s = ready_session();
    s.hit_modifier = -128;
    assert!(!s.roll_is_possible());
    assert!(!s.try_roll_combat());
    assert!(s.combat_log.is_empty());
    assert!(s.error_message.is_none());
    s.hit_modifier = 1;
    assert!(s.roll_is_possible());
    assert!(s.try_roll_combat());
    assert_eq!(s.combat_log.len(), 1);
}

#[test]
fn try_roll_reports_selection_errors() {
    let mut s = CombatSession::new(roster());
    assert!(s.try_roll_combat());
    assert_eq!(s.error_message.as_deref(), Some("Select at least one attacker"));
}

#[test]
fn crit_override_reaches_the_engine() {
    let mut s = ready_session();
    s.crit_effect_override = Some(CritEffect::MortalWounds(Some("2".into())));
    s.use_attack_override = true;
    s.attack_override = 30;
    s.roll_combat();
    let r = s.current_result().unwrap();
    let sixes = r.phases[0].rolls.iter().filter(|d| d.value == 6).count();
    assert_eq!(r.mortal_wounds, 2 * sixes);
    assert_eq!(r.phases[0].rolls.len(), 30);
}

use aos4_combat_roller::session::{find_unit_named, find_unit_with_id, find_weapon_named};

#[test]
fn lookups_find_the_first_match() {
    let mut units = roster();
    units.push(unit("lib2", "Liberators", 3, vec![]));
    assert_eq!(find_unit_with_id(&units, &"skel".to_string()), Some(1));
    assert_eq!(find_unit_with_id(&units, &"nope".to_string()), None);
    assert_eq!(find_unit_named(&units, &"Liberators".to_string()), Some(0));
    assert_eq!(find_weapon_named(&units[0].weapons, &"Grandhammer".to_string()), Some(1));
    assert_eq!(find_weapon_named(&units[2].weapons, &"Grandhammer".to_string()), None);
}

#[test]
fn attacker_shown_is_the_first_selected_unit() {
    let mut s = CombatSession::new(roster());
    assert_eq!(s.attacker_shown(), None);
    s.selected_attackers = vec!["empty".into(), "skel".into()];
    assert_eq!(s.attacker_shown(), Some(1));
    s.selected_attackers = vec!["ghost".into()];
    assert_eq!(s.attacker_shown(), None);
}

#[test]
fn stand_in_defender_has_no_save() {
    let d = aos4_combat_roller::session::unselected_defender();
    assert_eq!(d.id, "none");
    assert_eq!(d.name, "Defender (not selected)");
    assert_eq!(d.faction, "-");
    assert_eq!(d.save, 7);
    assert_eq!(d.ward, None);
    assert!(d.weapons.is_empty());
}
