use aos4_combat_roller::combat::dice::{parse_dice_string, roll_d6, roll_d6_batch};
#[test]
fn roll_d6_returns_values_between_1_and_6() {
    for _ in 0..1000 {
        let result = roll_d6();
        assert!(result >= 1 && result <= 6);
    }
}

#[test]
fn roll_multiple_d6_returns_correct_count() {
    let results = roll_d6_batch(10);
    assert_eq!(results.len(), 10);
    assert!(results.iter().all(|&r| r >= 1 && r <= 6));
}

#[test]
fn parse_attacks_fixed() {
    assert_eq!(parse_dice_string("5"), Ok(5));
    assert_eq!(parse_dice_string("10"), Ok(10));
}

#[test]
fn parse_attacks_d6() {
    let result = parse_dice_string("D6").unwrap();
    assert!(result >= 1 && result <= 6);
}

#[test]
fn parse_attacks_2d6() {
    let result = parse_dice_string("2D6").unwrap();
    assert!(result >= 2 && result <= 12);
}

#[test]
fn parse_damage_with_modifier() {
    // D3+2 should return 3-5
    let result = parse_dice_string("D3+2").unwrap();
    assert!(result >= 3 && result <= 5);
}

#[test]
fn parse_invalid_string_returns_error() {
    assert!(parse_dice_string("XYZ").is_err());
    assert!(parse_dice_string("D8").is_err());
    assert!(parse_dice_string("").is_err());
}

use aos4_combat_roller::combat::dice::{
    checked_parse_dice_string, dice_text_within_range, evaluate_dice_expr, normalize_dice_text, parse_dice_expr,
    resolve_dice_string, DiceExpr, DiceParseError,
};

#[test]
fn dice_texts_are_trimmed_and_upper_cased() {
    assert_eq!(normalize_dice_text("  d6+1 "), "D6+1");
    let v = parse_dice_string(" 2d3 ").unwrap();
    assert!((2..=6).contains(&v));
    assert_eq!(parse_dice_string(" 7 "), Ok(7));
}

#[test]
fn dice_expressions_read_as_documented() {
    assert_eq!(parse_dice_expr("D6"), Ok(DiceExpr::Roll { count: 1, sides: 6, offset: 0 }));
    assert_eq!(parse_dice_expr("2D3-1"), Ok(DiceExpr::Roll { count: 2, sides: 3, offset: -1 }));
    assert_eq!(parse_dice_expr("12"), Ok(DiceExpr::Fixed(12)));
    assert_eq!(evaluate_dice_expr(&DiceExpr::Roll { count: 2, sides: 6, offset: 3 }, &[4, 5]), 12);
    assert_eq!(evaluate_dice_expr(&DiceExpr::Roll { count: 1, sides: 3, offset: -5 }, &[2]), 0);
    assert_eq!(evaluate_dice_expr(&DiceExpr::Fixed(9), &[]), 9);
}

#[test]
fn dice_errors_name_their_cause() {
    match parse_dice_string("D8") {
        Err(DiceParseError::InvalidFormat(m)) => assert_eq!(m, "Unsupported dice sides: 8"),
        other => panic!("unexpected {:?}", other),
    }
    match parse_dice_string("xyz") {
        Err(DiceParseError::InvalidFormat(m)) => assert_eq!(m, "XYZ"),
        other => panic!("unexpected {:?}", other),
    }
    assert!(matches!(parse_dice_string("XD6"), Err(DiceParseError::ParseInt(_))));
    assert!(matches!(parse_dice_string("D6+X"), Err(DiceParseError::ParseInt(_))));
    assert!(matches!(parse_dice_string("D6D6"), Err(DiceParseError::InvalidFormat(_))));
    let e = "x".parse::<u8>().unwrap_err();
    assert!(matches!(DiceParseError::from(e), DiceParseError::ParseInt(_)));
}

#[test]
fn dice_texts_out_of_range_are_refused_by_the_check() {
    assert!(!dice_text_within_range("D6+32767"));
    assert_eq!(checked_parse_dice_string("D6+32767"), None);
    assert!(dice_text_within_range("D6+3"));
    let v = checked_parse_dice_string("D6+3").unwrap().unwrap();
    assert!((4..=9).contains(&v));
    assert!(dice_text_within_range("nonsense"));
}

#[test]
fn unreadable_dice_resolve_to_one() {
    assert_eq!(resolve_dice_string("nonsense"), 1);
    assert_eq!(resolve_dice_string(""), 1);
    assert_eq!(resolve_dice_string("4"), 4);
    let v = resolve_dice_string("D3");
    assert!((1..=3).contains(&v));
}
