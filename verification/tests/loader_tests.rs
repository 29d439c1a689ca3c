use aos4_combat_roller::data::loader::{assign_unique_ids, UnitDatabase};
use aos4_combat_roller::data::models::{CritEffect, Unit};

fn unit(id: &str, name: &str, faction: &str, save: u8) -> Unit {
    Unit { id: id.into(), name: name.into(), faction: faction.into(), save, ward: None, weapons: vec![] }
}

#[test]
fn duplicate_ids_renamed() {
    let db_a = UnitDatabase { units: vec![unit("u1", "Unit 1", "A", 4)] };
    let db_b = UnitDatabase { units: vec![unit("u1", "Unit 1B", "B", 3)] };
    let mut all = db_a.units;
    all.extend(db_b.units);
    let units = assign_unique_ids(all);
    assert_eq!(units.len(), 2);
    assert_eq!(units[0].id, "u1");
    assert_eq!(units[1].id, "u1_2");
}

#[test]
fn multiple_duplicate_ids_get_sequential_suffixes() {
    let all = vec![unit("u1", "Unit 1", "A", 4), unit("u1", "Unit 1B", "B", 3), unit("u1", "Unit 1C", "C", 2)];
    let units = assign_unique_ids(all);
    assert_eq!(units.len(), 3);
    assert_eq!(units[0].id, "u1");
    assert_eq!(units[1].id, "u1_2");
    assert_eq!(units[2].id, "u1_3");
}

#[test]
fn duplicate_ids_in_same_file() {
    let db = UnitDatabase { units: vec![unit("u1", "Unit 1", "A", 4), unit("u1", "Unit 2", "B", 3)] };
    let units = assign_unique_ids(db.units);
    assert_eq!(units.len(), 2);
    assert_eq!(units[0].id, "u1");
    assert_eq!(units[1].id, "u1_2");
}

#[test]
fn unique_ids_keep_order_and_other_fields() {
    let all = vec![
        unit("a", "First", "X", 4),
        unit("b", "Second", "Y", 5),
        unit("a", "Third", "Z", 6),
        unit("b", "Fourth", "X", 3),
        unit("a", "Fifth", "Y", 2),
    ];
    let units = assign_unique_ids(all);
    let ids: Vec<&str> = units.iter().map(|u| u.id.as_str()).collect();
    assert_eq!(ids, vec!["a", "b", "a_2", "b_2", "a_3"]);
    let names: Vec<&str> = units.iter().map(|u| u.name.as_str()).collect();
    assert_eq!(names, vec!["First", "Second", "Third", "Fourth", "Fifth"]);
    assert_eq!(units[2].faction, "Z");
    assert_eq!(units[2].save, 6);
}

#[test]
fn many_duplicates_get_two_digit_suffixes() {
    let all: Vec<Unit> = (0..12).map(|i| unit("x", &format!("n{}", i), "F", 4)).collect();
    let units = assign_unique_ids(all);
    assert_eq!(units[0].id, "x");
    assert_eq!(units[9].id, "x_10");
    assert_eq!(units[11].id, "x_12");
}

#[test]
fn no_units_stay_none() {
    assert!(assign_unique_ids(vec![]).is_empty());
}

#[test]
fn crit_effect_tags() {
    assert_eq!(CritEffect::from_tag("auto_wound", None), Some(CritEffect::AutoWound));
    assert_eq!(CritEffect::from_tag("extra_hit", Some("2".into())), Some(CritEffect::ExtraHit));
    assert_eq!(CritEffect::from_tag("mortal_wounds", Some("D3".into())), Some(CritEffect::MortalWounds(Some("D3".into()))));
    assert_eq!(CritEffect::from_tag("mortal_wounds", None), Some(CritEffect::MortalWounds(None)));
    assert_eq!(CritEffect::from_tag("unknown", None), None);
    assert_eq!(CritEffect::from_tag("", None), None);
}
