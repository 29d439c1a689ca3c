use aos4_combat_roller::combat::types::DiceRoll;
use aos4_combat_roller::ui::widgets::dice_display::{
    roll_color, DiceDisplay, DieColor, GroupedDie, GROUP_THRESHOLD, SCROLL_THRESHOLD,
};

fn make_roll(value: u8, success: bool, is_crit: bool) -> DiceRoll {
    DiceRoll { value, success, is_crit }
}

fn make_display(rolls: &[DiceRoll]) -> DiceDisplay<'_> {
    DiceDisplay::new(rolls)
}

#[test]
fn empty_rolls_shows_dash() {
    let display = make_display(&[]);
    assert!(display.is_empty(), "Empty rolls should report is_empty as true");
}

#[test]
fn individual_display_under_threshold() {
    // Exactly at threshold (20) should use individual display
    let rolls: Vec<DiceRoll> = (1..=20).map(|v| make_roll(v, true, false)).collect();
    let display = make_display(&rolls);
    assert_eq!(display.len(), 20);
    assert!(!display.should_group(), "20 rolls should not be grouped");

    // Just under threshold (19)
    let rolls_19: Vec<DiceRoll> = (1..=19).map(|v| make_roll(v, true, false)).collect();
    let display_19 = make_display(&rolls_19);
    assert!(!display_19.should_group(), "19 rolls should not be grouped");

    // One over threshold (21) should group
    let mut rolls_21: Vec<DiceRoll> = (1..=21).map(|v| make_roll(v, true, false)).collect();
    rolls_21.push(make_roll(6, true, false));
    let display_21 = make_display(&rolls_21);
    assert!(display_21.should_group(), "21 rolls should be grouped");
}

#[test]
fn grouped_display_counts_correctly() {
    // 21 rolls: three 6s, five 5s, four 4s, three 3s, two 2s, four 1s
    let rolls = vec![
        make_roll(6, true, false),
        make_roll(6, true, false),
        make_roll(6, true, false),
        make_roll(5, true, false),
        make_roll(5, true, false),
        make_roll(5, true, false),
        make_roll(5, true, false),
        make_roll(5, true, false),
        make_roll(4, true, false),
        make_roll(4, true, false),
        make_roll(4, true, false),
        make_roll(4, true, false),
        make_roll(3, true, false),
        make_roll(3, true, false),
        make_roll(3, true, false),
        make_roll(2, true, false),
        make_roll(2, true, false),
        make_roll(1, false, false),
        make_roll(1, false, false),
        make_roll(1, false, false),
        make_roll(1, false, false),
    ];
    let display = make_display(&rolls);
    let groups = display.grouped_data();

    // Should have 6 groups
    assert_eq!(groups.len(), 6);

    // Check counts in descending order
    assert_eq!(groups[0], GroupedDie { value: 6u8, count: 3, color: Some(DieColor::Green) });
    assert_eq!(groups[1], GroupedDie { value: 5u8, count: 5, color: Some(DieColor::Green) });
    assert_eq!(groups[2], GroupedDie { value: 4u8, count: 4, color: Some(DieColor::Green) });
    assert_eq!(groups[3], GroupedDie { value: 3u8, count: 3, color: Some(DieColor::Green) });
    assert_eq!(groups[4], GroupedDie { value: 2u8, count: 2, color: Some(DieColor::Green) });
    assert_eq!(groups[5], GroupedDie { value: 1u8, count: 4, color: Some(DieColor::Red) });
}

#[test]
fn grouped_display_omits_zero_counts() {
    // Only rolls of 6 and 4 - should not show 1, 2, 3, 5
    let rolls = vec![make_roll(6, true, false), make_roll(6, true, false), make_roll(4, true, false)];
    let display = make_display(&rolls);
    let groups = display.grouped_data();

    // Should only have 2 groups (6 and 4)
    assert_eq!(groups.len(), 2);
    assert_eq!(groups[0].value, 6);
    assert_eq!(groups[1].value, 4);
}

#[test]
fn grouped_display_descending_order() {
    // Rolls in random order
    let rolls = vec![
        make_roll(3, true, false),
        make_roll(1, false, false),
        make_roll(5, true, false),
        make_roll(2, false, false),
        make_roll(6, true, false),
        make_roll(4, true, false),
    ];
    let display = make_display(&rolls);
    let groups = display.grouped_data();

    // Should be in descending order: 6, 5, 4, 3, 2, 1
    assert_eq!(groups.len(), 6);
    assert_eq!(groups[0].value, 6);
    assert_eq!(groups[1].value, 5);
    assert_eq!(groups[2].value, 4);
    assert_eq!(groups[3].value, 3);
    assert_eq!(groups[4].value, 2);
    assert_eq!(groups[5].value, 1);
}

#[test]
fn grouped_display_preserves_colors() {
    // Mix of crits, successes, and failures
    let rolls = vec![
        make_roll(6, true, true),   // GOLD (crit)
        make_roll(6, true, false),  // GREEN (success)
        make_roll(5, true, false),  // GREEN (success)
        make_roll(4, false, false), // RED (failure)
        make_roll(1, false, false), // RED (failure)
        make_roll(2, false, false), // RED (failure)
    ];
    let display = make_display(&rolls);
    let groups = display.grouped_data();

    // First group (6): should be GOLD (crit takes priority)
    assert_eq!(groups[0].value, 6);
    assert_eq!(groups[0].color, Some(DieColor::Gold));

    // Second group (5): should be GREEN
    assert_eq!(groups[1].value, 5);
    assert_eq!(groups[1].color, Some(DieColor::Green));

    // Third group (4): should be RED
    assert_eq!(groups[2].value, 4);
    assert_eq!(groups[2].color, Some(DieColor::Red));

    // Fourth group (2): should be RED
    assert_eq!(groups[3].value, 2);
    assert_eq!(groups[3].color, Some(DieColor::Red));

    // Fifth group (1): should be RED
    assert_eq!(groups[4].value, 1);
    assert_eq!(groups[4].color, Some(DieColor::Red));
}

#[test]
fn value_one_dice_counted() {
    // Single roll of 1 - this was a bug where 1s weren't counted
    let rolls = vec![make_roll(1, false, false)];
    let display = make_display(&rolls);
    let groups = display.grouped_data();

    assert_eq!(groups.len(), 1);
    assert_eq!(groups[0].value, 1);
    assert_eq!(groups[0].count, 1);
    assert_eq!(groups[0].color, Some(DieColor::Red));
}

#[test]
fn value_one_dice_in_larger_set() {
    // Multiple 1s in a larger set
    let rolls = vec![
        make_roll(6, true, false),
        make_roll(1, false, false),
        make_roll(1, false, false),
        make_roll(4, true, false),
        make_roll(1, false, false),
    ];
    let display = make_display(&rolls);
    let groups = display.grouped_data();

    // Find the group for value 1
    let ones_group = groups.iter().find(|g| g.value == 1).expect("Should have a group for 1");
    assert_eq!(ones_group.count, 3, "Should count 3 ones");
    assert_eq!(ones_group.color, Some(DieColor::Red));
}

#[test]
fn all_same_value_grouped() {
    // All rolls are 4s
    let rolls = vec![
        make_roll(4, true, false),
        make_roll(4, true, false),
        make_roll(4, true, false),
        make_roll(4, true, false),
        make_roll(4, true, false),
    ];
    let display = make_display(&rolls);
    let groups = display.grouped_data();

    assert_eq!(groups.len(), 1);
    assert_eq!(groups[0].value, 4);
    assert_eq!(groups[0].count, 5);
}

#[test]
fn invalid_dice_values_ignored() {
    // Dice values should be 1-6, values outside this range are ignored
    let rolls = vec![
        make_roll(0, false, false), // Invalid: 0
        make_roll(7, false, false), // Invalid: 7
        make_roll(1, false, false), // Valid
        make_roll(6, true, false),  // Valid
    ];
    let display = make_display(&rolls);
    let groups = display.grouped_data();

    // Should only have 2 groups (1 and 6)
    assert_eq!(groups.len(), 2);
}

#[test]
fn threshold_constant_values() {
    assert_eq!(GROUP_THRESHOLD, 20);
    assert_eq!(SCROLL_THRESHOLD, 30);
}

#[test]
fn group_color_is_highest_priority_in_any_order() {
    // The critical six comes last; the group is still gold.
    let rolls = vec![make_roll(6, false, false), make_roll(6, true, false), make_roll(6, true, true)];
    let groups = make_display(&rolls).grouped_data();
    assert_eq!(groups, vec![GroupedDie { value: 6, count: 3, color: Some(DieColor::Gold) }]);
    // A success among failures makes the group green.
    let rolls = vec![make_roll(3, false, false), make_roll(3, true, false), make_roll(3, false, false)];
    let groups = make_display(&rolls).grouped_data();
    assert_eq!(groups, vec![GroupedDie { value: 3, count: 3, color: Some(DieColor::Green) }]);
}

#[test]
fn roll_colors() {
    assert_eq!(roll_color(&make_roll(6, true, true)), DieColor::Gold);
    assert_eq!(roll_color(&make_roll(6, false, true)), DieColor::Gold);
    assert_eq!(roll_color(&make_roll(4, true, false)), DieColor::Green);
    assert_eq!(roll_color(&make_roll(2, false, false)), DieColor::Red);
}

#[test]
fn group_counts_add_up_to_the_valid_dice() {
    let rolls: Vec<DiceRoll> = (0..40u8).map(|v| make_roll(v % 8, v % 2 == 0, false)).collect();
    let groups = make_display(&rolls).grouped_data();
    let total: usize = groups.iter().map(|g| g.count).sum();
    let valid = rolls.iter().filter(|r| (1..=6).contains(&r.value)).count();
    assert_eq!(total, valid);
    for pair in groups.windows(2) {
        assert!(pair[0].value > pair[1].value);
    }
}
