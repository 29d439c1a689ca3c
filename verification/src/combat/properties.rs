//! Properties of every combat result and dice roll, whatever the dice show.

use vstd::prelude::*;

use crate::combat::describe;
use crate::combat::dice;
use crate::combat::engine;
use crate::combat::types;
use crate::combat::types::CombatResult;
use crate::text;
use crate::data::models::{CritEffect, Unit, Weapon};
use crate::ui::widgets::phase_result::{crit_extra_of, successful_dice};

verus! {

/// A combat stopped after the Wound phase deals no damage: the Save, Damage
/// and Ward phases are left pending, with no dice and no output, and the
/// result is marked as stopped, with the wounds of the Wound phase (normal
/// wounds and auto-wounds) as the wounds to save.
pub proof fn law_stopped_combat_deals_no_damage(
    attacker: Unit,
    defender: Unit,
    weapon: Weapon,
    num_models: usize,
    has_champion: bool,
    use_attack_override: bool,
    attack_override: usize,
    include_ward: bool,
    stop_after_wound: bool,
    hit_modifier: i8,
    wound_modifier: i8,
    rend_modifier: i8,
    damage_modifier: i8,
    attack_modifier: i8,
    crit_effect_override: Option<CritEffect>,
    provided_rolls: Option<&[u8]>,
    r: CombatResult,
)
    requires
        stop_after_wound,
        engine::combat_result_ok(
            attacker,
            defender,
            weapon,
            num_models,
            has_champion,
            use_attack_override,
            attack_override,
            include_ward,
            stop_after_wound,
            hit_modifier,
            wound_modifier,
            rend_modifier,
            damage_modifier,
            attack_modifier,
            crit_effect_override,
            provided_rolls,
            r,
        ),
    ensures
        r.final_damage == 0,
        r.stopped_after_wound,
        r.phases@.len() == 5,
        forall|k: int|
            2 <= k < 5 ==> {
                &&& (#[trigger] r.phases@[k]).skipped
                &&& r.phases@[k].rolls@.len() == 0
                &&& r.phases@[k].total_output == 0
            },
        r.total_wounds == r.phases@[1].total_output,
{
    reveal(engine::pending_phase_ok);
    reveal(engine::wound_phase_ok);
}

/// In a combat played to the end, the Damage phase deals at least the
/// mortal wounds, which skip the Wound and Save phases; the unsaved wounds
/// are at most the wounds; the Ward phase can only lower the damage, and
/// where no ward is rolled (ward saves left out, or no ward) the final
/// damage is the damage dealt.
pub proof fn law_damage_flows_through_phases(
    attacker: Unit,
    defender: Unit,
    weapon: Weapon,
    num_models: usize,
    has_champion: bool,
    use_attack_override: bool,
    attack_override: usize,
    include_ward: bool,
    stop_after_wound: bool,
    hit_modifier: i8,
    wound_modifier: i8,
    rend_modifier: i8,
    damage_modifier: i8,
    attack_modifier: i8,
    crit_effect_override: Option<CritEffect>,
    provided_rolls: Option<&[u8]>,
    r: CombatResult,
)
    requires
        !stop_after_wound,
        engine::combat_result_ok(
            attacker,
            defender,
            weapon,
            num_models,
            has_champion,
            use_attack_override,
            attack_override,
            include_ward,
            stop_after_wound,
            hit_modifier,
            wound_modifier,
            rend_modifier,
            damage_modifier,
            attack_modifier,
            crit_effect_override,
            provided_rolls,
            r,
        ),
    ensures
        !r.stopped_after_wound,
        r.phases@[2].total_output <= r.phases@[1].total_output,
        r.phases@[3].total_output >= r.mortal_wounds,
        r.final_damage <= r.phases@[3].total_output,
        (!include_ward || defender.ward is None) ==> r.final_damage == r.phases@[3].total_output,
{
    reveal(engine::wound_phase_ok);
    reveal(engine::save_phase_ok);
    reveal(engine::damage_phase_ok);
    reveal(engine::ward_phase_ok);
    let vals = types::faces(r.phases@[2].rolls@);
    let wounds = r.phases@[1].total_output;
    engine::lemma_counts_bounded(vals, engine::save_target(defender.save, weapon.rend, rend_modifier) as int);
    if include_ward && r.phases@[3].total_output > 0 && defender.ward is Some {
        let wvals = types::faces(r.phases@[4].rolls@);
        engine::lemma_counts_bounded(wvals, defender.ward->0 as int);
    }
}

/// Where the save target is above 6 every wound gets through: the Save
/// phase rolls no dice and lets all the wounds of the Wound phase through.
pub proof fn law_save_above_six_fails(
    attacker: Unit,
    defender: Unit,
    weapon: Weapon,
    num_models: usize,
    has_champion: bool,
    use_attack_override: bool,
    attack_override: usize,
    include_ward: bool,
    stop_after_wound: bool,
    hit_modifier: i8,
    wound_modifier: i8,
    rend_modifier: i8,
    damage_modifier: i8,
    attack_modifier: i8,
    crit_effect_override: Option<CritEffect>,
    provided_rolls: Option<&[u8]>,
    r: CombatResult,
)
    requires
        !stop_after_wound,
        engine::save_target(defender.save, weapon.rend, rend_modifier) > 6,
        engine::combat_result_ok(
            attacker,
            defender,
            weapon,
            num_models,
            has_champion,
            use_attack_override,
            attack_override,
            include_ward,
            stop_after_wound,
            hit_modifier,
            wound_modifier,
            rend_modifier,
            damage_modifier,
            attack_modifier,
            crit_effect_override,
            provided_rolls,
            r,
        ),
    ensures
        r.phases@[2].rolls@.len() == 0,
        r.phases@[2].total_output == r.phases@[1].total_output,
        r.phases@[1].total_output > 0 ==> r.phases@[2].auto_fails,
{
    reveal(engine::wound_phase_ok);
    reveal(engine::save_phase_ok);
}

/// With the attack override (and no dice handed in), the Hit phase rolls
/// exactly the override's number of dice, whatever the models, the champion
/// and the attack modifier, and reports no rolled attack count.
pub proof fn law_attack_override_sets_attacks(
    attacker: Unit,
    defender: Unit,
    weapon: Weapon,
    num_models: usize,
    has_champion: bool,
    use_attack_override: bool,
    attack_override: usize,
    include_ward: bool,
    stop_after_wound: bool,
    hit_modifier: i8,
    wound_modifier: i8,
    rend_modifier: i8,
    damage_modifier: i8,
    attack_modifier: i8,
    crit_effect_override: Option<CritEffect>,
    r: CombatResult,
)
    requires
        use_attack_override,
        engine::combat_result_ok(
            attacker,
            defender,
            weapon,
            num_models,
            has_champion,
            use_attack_override,
            attack_override,
            include_ward,
            stop_after_wound,
            hit_modifier,
            wound_modifier,
            rend_modifier,
            damage_modifier,
            attack_modifier,
            crit_effect_override,
            None,
            r,
        ),
    ensures
        r.phases@[0].rolls@.len() == attack_override,
        r.phases@[0].variance_step is None,
{
    reveal(engine::hit_phase_ok);
    let attack_text = engine::modified_text(weapon.attack@, attack_modifier as int);
    let hit = r.phases@[0];
    let attacks = choose|attacks: nat|
        #![trigger engine::attacks_ok(attack_text, num_models as nat, has_champion, use_attack_override, attack_override as nat, attacks, hit.variance_step)]
        {
            &&& engine::attacks_ok(
                attack_text,
                num_models as nat,
                has_champion,
                use_attack_override,
                attack_override as nat,
                attacks,
                hit.variance_step,
            )
            &&& engine::provided_or_rolled(None, attacks, types::faces(hit.rolls@))
            &&& hit.failures == engine::sat_sub(
                attacks,
                engine::count_hits(
                    types::faces(hit.rolls@),
                    engine::effective_target(weapon.to_hit, hit_modifier),
                    engine::effective_crit(crit_effect_override, weapon.crit_hit),
                ) + engine::auto_wound_count(
                    types::faces(hit.rolls@),
                    engine::effective_crit(crit_effect_override, weapon.crit_hit),
                ) + engine::extra_hit_count(
                    types::faces(hit.rolls@),
                    engine::effective_crit(crit_effect_override, weapon.crit_hit),
                ),
            )
            &&& hit.description@ == if use_attack_override {
                crate::combat::describe::fixed_hit_description(
                    weapon.to_hit,
                    engine::effective_target(weapon.to_hit, hit_modifier),
                    hit_modifier,
                    attack_override as nat,
                )
            } else {
                crate::combat::describe::model_hit_description(
                    weapon.to_hit,
                    engine::effective_target(weapon.to_hit, hit_modifier),
                    hit_modifier,
                    num_models as nat,
                    attack_text,
                    has_champion,
                    attacks,
                )
            }
        };
    assert(types::faces(hit.rolls@).len() == hit.rolls@.len());
}

/// Every hit rolls to wound, an extra hit from a critical hit too, while
/// auto-wounds skip the wound roll and are added to the wounds: the Wound
/// phase rolls one die per normal and extra hit, and its output is the
/// wounds rolled plus the auto-wounds.
pub proof fn law_hits_roll_to_wound(
    attacker: Unit,
    defender: Unit,
    weapon: Weapon,
    num_models: usize,
    has_champion: bool,
    use_attack_override: bool,
    attack_override: usize,
    include_ward: bool,
    stop_after_wound: bool,
    hit_modifier: i8,
    wound_modifier: i8,
    rend_modifier: i8,
    damage_modifier: i8,
    attack_modifier: i8,
    crit_effect_override: Option<CritEffect>,
    provided_rolls: Option<&[u8]>,
    r: CombatResult,
)
    requires
        engine::combat_result_ok(
            attacker,
            defender,
            weapon,
            num_models,
            has_champion,
            use_attack_override,
            attack_override,
            include_ward,
            stop_after_wound,
            hit_modifier,
            wound_modifier,
            rend_modifier,
            damage_modifier,
            attack_modifier,
            crit_effect_override,
            provided_rolls,
            r,
        ),
    ensures
        ({
            let crit = engine::effective_crit(crit_effect_override, weapon.crit_hit);
            let vals = types::faces(r.phases@[0].rolls@);
            &&& r.phases@[1].rolls@.len() == engine::count_hits(
                vals,
                engine::effective_target(weapon.to_hit, hit_modifier),
                crit,
            ) + engine::extra_hit_count(vals, crit)
            &&& r.phases@[1].total_output == r.phases@[1].successes + engine::auto_wound_count(vals, crit)
            &&& r.phases@[1].successes <= r.phases@[1].rolls@.len()
        }),
{
    reveal(engine::wound_phase_ok);
    let ew = engine::effective_target(weapon.to_wound, wound_modifier);
    engine::lemma_counts_bounded(types::faces(r.phases@[1].rolls@), ew as int);
}

/// Whether a critical effect is one of mortal wounds, with or without a value.
pub open spec fn deals_mortal_wounds(crit: Option<CritEffect>) -> bool {
    crit matches Some(CritEffect::MortalWounds(_))
}

proof fn lemma_successful_hit_dice(rolls: Seq<types::DiceRoll>, to_hit: u8, crit: Option<CritEffect>)
    requires
        engine::hit_rolls(rolls, to_hit),
    ensures
        successful_dice(rolls) == engine::count_hits(types::faces(rolls), to_hit, crit) + engine::auto_wound_count(
            types::faces(rolls),
            crit,
        ) + if deals_mortal_wounds(crit) { engine::count_sixes(types::faces(rolls)) } else { 0 },
    decreases rolls.len(),
{
    if rolls.len() > 0 {
        let rest = rolls.drop_last();
        assert(engine::hit_rolls(rest, to_hit)) by {
            assert forall|i: int| 0 <= i < rest.len() implies (#[trigger] rest[i]).is_crit == (rest[i].value == 6)
                && rest[i].success == (rest[i].value == 6 || engine::passes(rest[i].value, to_hit as int)) by {
                assert(rest[i] == rolls[i]);
            }
        }
        lemma_successful_hit_dice(rest, to_hit, crit);
        assert(types::faces(rest) =~= types::faces(rolls).drop_last());
        assert(rolls[rolls.len() - 1] == rolls.last());
    }
}

/// The Hit phase's card shows as its extra part exactly the extra hits of
/// critical hits: what the successes of the phase count beyond its
/// successful dice.
pub proof fn law_hit_card_shows_extra_hits(
    attacker: Unit,
    defender: Unit,
    weapon: Weapon,
    num_models: usize,
    has_champion: bool,
    use_attack_override: bool,
    attack_override: usize,
    include_ward: bool,
    stop_after_wound: bool,
    hit_modifier: i8,
    wound_modifier: i8,
    rend_modifier: i8,
    damage_modifier: i8,
    attack_modifier: i8,
    crit_effect_override: Option<CritEffect>,
    provided_rolls: Option<&[u8]>,
    r: CombatResult,
)
    requires
        engine::combat_result_ok(
            attacker,
            defender,
            weapon,
            num_models,
            has_champion,
            use_attack_override,
            attack_override,
            include_ward,
            stop_after_wound,
            hit_modifier,
            wound_modifier,
            rend_modifier,
            damage_modifier,
            attack_modifier,
            crit_effect_override,
            provided_rolls,
            r,
        ),
    ensures
        r.phases@[0].phase == types::Phase::Hit,
        crit_extra_of(r, 0) == engine::extra_hit_count(
            types::faces(r.phases@[0].rolls@),
            engine::effective_crit(crit_effect_override, weapon.crit_hit),
        ),
{
    reveal(engine::hit_phase_ok);
    let crit = engine::effective_crit(crit_effect_override, weapon.crit_hit);
    let eh = engine::effective_target(weapon.to_hit, hit_modifier);
    lemma_successful_hit_dice(r.phases@[0].rolls@, eh, crit);
}

/// Two hit rolls agree: the same dice, scored alike, and the same hits,
/// auto-wounds and extra hits.
pub open spec fn same_hit_roll(
    a: (usize, usize, usize, usize, Vec<types::DiceRoll>),
    b: (usize, usize, usize, usize, Vec<types::DiceRoll>),
) -> bool {
    &&& a.0 == b.0
    &&& a.1 == b.1
    &&& a.2 == b.2
    &&& a.4@ == b.4@
}

proof fn lemma_hit_rolls_determined(
    a: Seq<types::DiceRoll>,
    b: Seq<types::DiceRoll>,
    to_hit: u8,
)
    requires
        engine::hit_rolls(a, to_hit),
        engine::hit_rolls(b, to_hit),
        types::faces(a) == types::faces(b),
    ensures
        a == b,
{
    assert(a.len() == types::faces(a).len());
    assert(b.len() == types::faces(b).len());
    assert forall|i: int| 0 <= i < a.len() implies a[i] == b[i] by {
        assert(types::faces(a)[i] == a[i].value);
        assert(types::faces(b)[i] == b[i].value);
    }
    assert(a =~= b);
}

/// The critical effect override replaces the weapon's effect in the hit
/// roll: on the same dice, no override and an override equal to the
/// weapon's effect give the same roll, and an override `c` gives the roll
/// of a weapon whose own effect is `c`; their mortal wounds come from the
/// same value, so a fixed value gives the same mortal wounds.
pub proof fn law_crit_override_in_hit_rolls(
    weapon: Weapon,
    recrit: Weapon,
    c: CritEffect,
    attacks: usize,
    to_hit: u8,
    rs: &[u8],
    r1: (usize, usize, usize, usize, Vec<types::DiceRoll>),
    r2: (usize, usize, usize, usize, Vec<types::DiceRoll>),
    r3: (usize, usize, usize, usize, Vec<types::DiceRoll>),
    r4: (usize, usize, usize, usize, Vec<types::DiceRoll>),
)
    requires
        recrit.crit_hit == Some(c),
        engine::hit_roll_ok(weapon, attacks, to_hit, None, Some(rs), r1),
        engine::hit_roll_ok(weapon, attacks, to_hit, weapon.crit_hit, Some(rs), r2),
        engine::hit_roll_ok(weapon, attacks, to_hit, Some(c), Some(rs), r3),
        engine::hit_roll_ok(recrit, attacks, to_hit, None, Some(rs), r4),
    ensures
        same_hit_roll(r1, r2),
        same_hit_roll(r3, r4),
        engine::mortal_text(engine::effective_crit(None, weapon.crit_hit)) == engine::mortal_text(
            engine::effective_crit(weapon.crit_hit, weapon.crit_hit),
        ),
        engine::mortal_text(engine::effective_crit(Some(c), weapon.crit_hit)) == engine::mortal_text(
            engine::effective_crit(None, recrit.crit_hit),
        ),
{
    lemma_hit_rolls_determined(r1.4@, r2.4@, to_hit);
    lemma_hit_rolls_determined(r3.4@, r4.4@, to_hit);
}

proof fn lemma_sum_faces_bounds(rolls: Seq<u8>, sides: u8)
    requires
        dice::faces_within(rolls, sides),
    ensures
        rolls.len() <= dice::sum_faces(rolls) <= rolls.len() * sides,
    decreases rolls.len(),
{
    if rolls.len() > 0 {
        lemma_sum_faces_bounds(rolls.drop_last(), sides);
        assert(rolls[rolls.len() - 1] <= sides);
        assert((rolls.len() - 1) * sides + sides == rolls.len() * sides) by (nonlinear_arith);
    }
}

/// A roll of `count` dice of `sides` sides shifted by `offset` lies between
/// `count + offset` and `count × sides + offset`, where that range stays
/// within 0..=255 (a D6 gives 1 to 6, 2D6 gives 2 to 12, D3+2 gives 3 to 5).
pub proof fn law_roll_within_bounds(count: u8, sides: u8, offset: i32, rolls: Seq<u8>)
    requires
        dice::rolls_fit(dice::DiceExpr::Roll { count, sides, offset }, rolls),
        count + offset >= 0,
        count * sides + offset <= 255,
        count * sides <= 255,
    ensures
        count + offset <= dice::expr_value(dice::DiceExpr::Roll { count, sides, offset }, rolls),
        dice::expr_value(dice::DiceExpr::Roll { count, sides, offset }, rolls) <= count * sides + offset,
{
    lemma_sum_faces_bounds(rolls, sides);
}

// ---------------------------------------------------------------------------
// Modifiers on dice texts.
// ---------------------------------------------------------------------------

proof fn lemma_decimal_text(n: nat)
    ensures
        text::decimal(n).len() >= 1,
        dice::all_digits(text::decimal(n)),
        dice::digits_value(text::decimal(n)) == n,
    decreases n,
{
    if n < 10 {
        let s = text::decimal(n);
        assert(s == seq![text::digit_char(n)]);
        assert(s.drop_last() =~= Seq::<char>::empty());
        assert(dice::is_digit(text::digit_char(n)));
        assert((text::digit_char(n) as int) - ('0' as int) == n);
        assert(s.last() == text::digit_char(n));
        assert(dice::digits_value(s.drop_last()) == 0);
        assert(dice::digits_value(s) == dice::digits_value(s.drop_last()) * 10 + ((s.last() as int) - ('0' as int)) as nat);
    } else {
        lemma_decimal_text(n / 10);
        let s = text::decimal(n);
        assert(s.drop_last() =~= text::decimal(n / 10));
        assert(s.last() == text::digit_char(n % 10));
        assert((text::digit_char(n % 10) as int) - ('0' as int) == n % 10);
        assert((n / 10) * 10 + n % 10 == n) by (nonlinear_arith);
        assert(dice::digits_value(s) == dice::digits_value(s.drop_last()) * 10 + ((s.last() as int) - ('0' as int)) as nat);
        assert forall|i: int| 0 <= i < s.len() implies dice::is_digit(#[trigger] s[i]) by {
            if i < s.len() - 1 {
                assert(s[i] == text::decimal(n / 10)[i]);
            }
        }
    }
}

/// Every character of a text that `str::parse::<u8>` accepts is a digit or
/// a `+`.
proof fn lemma_u8_text_chars(x: Seq<char>)
    requires
        dice::u8_from_text(x) is Some,
    ensures
        forall|i: int| 0 <= i < x.len() ==> #[trigger] x[i] == '+' || dice::is_digit(x[i]),
{
    let body = if x.len() > 0 && x[0] == '+' { x.drop_first() } else { x };
    assert forall|i: int| 0 <= i < x.len() implies #[trigger] x[i] == '+' || dice::is_digit(x[i]) by {
        if x.len() > 0 && x[0] == '+' {
            if i > 0 {
                assert(x[i] == body[i - 1]);
            }
        } else {
            assert(x[i] == body[i]);
        }
    }
}

/// Every character of a text that `str::parse::<i16>` accepts is a digit or
/// a sign.
proof fn lemma_i16_text_chars(x: Seq<char>)
    requires
        dice::i16_from_text(x) is Some,
    ensures
        forall|i: int| 0 <= i < x.len() ==> #[trigger] x[i] == '+' || x[i] == '-' || dice::is_digit(x[i]),
{
    if x.len() > 0 && x[0] == '-' {
        let body = x.drop_first();
        assert forall|i: int| 0 <= i < x.len() implies #[trigger] x[i] == '+' || x[i] == '-' || dice::is_digit(x[i]) by {
            if i > 0 {
                assert(x[i] == body[i - 1]);
            }
        }
    } else {
        lemma_u8_text_chars_unsigned(x);
    }
}

proof fn lemma_u8_text_chars_unsigned(x: Seq<char>)
    requires
        dice::unsigned_text_value(x) is Some,
    ensures
        forall|i: int| 0 <= i < x.len() ==> #[trigger] x[i] == '+' || dice::is_digit(x[i]),
{
    let body = if x.len() > 0 && x[0] == '+' { x.drop_first() } else { x };
    assert forall|i: int| 0 <= i < x.len() implies #[trigger] x[i] == '+' || dice::is_digit(x[i]) by {
        if x.len() > 0 && x[0] == '+' {
            if i > 0 {
                assert(x[i] == body[i - 1]);
            }
        } else {
            assert(x[i] == body[i]);
        }
    }
}

/// A dice part that reads holds only digits, `+` and its one `D`.
proof fn lemma_dice_part_chars(n: Seq<char>, dp: Seq<char>)
    requires
        dice::dice_part_parse(n, dp) is Ok,
    ensures
        forall|i: int| 0 <= i < dp.len() ==> #[trigger] dp[i] == 'D' || dp[i] == '+' || dice::is_digit(dp[i]),
        dp.contains('D'),
{
    text::lemma_first_index_facts(dp, 'D');
    let q = text::first_index(dp, 'D')->0;
    let head = dp.subrange(0, q);
    let tail = dp.subrange(q + 1, dp.len() as int);
    if head.len() > 0 {
        lemma_u8_text_chars(head);
    }
    lemma_u8_text_chars(tail);
    assert forall|i: int| 0 <= i < dp.len() implies #[trigger] dp[i] == 'D' || dp[i] == '+' || dice::is_digit(dp[i]) by {
        if i < q {
            assert(dp[i] == head[i]);
        } else if i > q {
            assert(dp[i] == tail[i - q - 1]);
        }
    }
}

/// The modifier text of a non-zero `j` within `i16` reads back as `j`.
proof fn lemma_modifier_text_reads(j: int)
    requires
        j != 0,
        -32767 <= j <= 32767,
    ensures
        dice::modifier_parse(text::modifier_text(j)) == Ok::<i32, dice::ParseFailure>(j as i32),
        text::modifier_text(j).len() >= 2,
        text::modifier_text(j)[0] == (if j > 0 { '+' } else { '-' }),
        forall|i: int| 1 <= i < text::modifier_text(j).len() ==> dice::is_digit(#[trigger] text::modifier_text(j)[i]),
{
    let a: nat = if j > 0 { j as nat } else { (-j) as nat };
    lemma_decimal_text(a);
    let t = text::modifier_text(j);
    let d = text::decimal(a);
    assert(t =~= seq![if j > 0 { '+' } else { '-' }] + d);
    assert(t.drop_first() =~= d);
    assert(d[0] != '-' && d[0] != '+') by {
        assert(dice::is_digit(d[0]));
    }
    assert(dice::unsigned_text_value(d) == Some(a));
    assert forall|i: int| 1 <= i < t.len() implies dice::is_digit(#[trigger] t[i]) by {
        assert(t[i] == d[i - 1]);
    }
}

/// A modifier shifts what a dice text rolls: where a text reads as `count`
/// dice of `sides` sides shifted by `k`, the text after modifier `m` reads
/// as the same dice shifted by `k + m`. The text's own modifier and the new
/// one combine (`"D6+2"` and -1 read as `"D6+1"`, `"D3+1"` and +1 as
/// `"D3+2"`, `"D3"` and +2 as `"D3+2"`), so every value the modified text
/// rolls is a value of the original one shifted by `m`.
pub proof fn law_modifier_shifts_dice(s: Seq<char>, m: i8, count: u8, sides: u8, k: i32)
    requires
        dice::dice_parse(s) == Ok::<dice::DiceExpr, dice::ParseFailure>(dice::DiceExpr::Roll { count, sides, offset: k }),
        -32767 <= k + m <= 32767,
    ensures
        dice::dice_parse(engine::modified_text(s, m as int)) == Ok::<dice::DiceExpr, dice::ParseFailure>(
            dice::DiceExpr::Roll { count, sides, offset: (k + m) as i32 },
        ),
{
    if m != 0 {
        let split = dice::modifier_start(s);
        let base = s.subrange(0, split);
        let mp = s.subrange(split, s.len() as int);
        text::lemma_first_index_facts(s, '+');
        text::lemma_first_index_facts(s, '-');
        assert(0 <= split <= s.len());
        lemma_dice_part_chars(s, base);
        // The text holds a `D`, so it is no plain number.
        let qd = choose|i: int| 0 <= i < base.len() && base[i] == 'D';
        assert(s[qd] == 'D');
        if dice::i16_from_text(s) is Some {
            lemma_i16_text_chars(s);
            assert(false);
        }
        // The dice part holds no sign: its `+` would come before the split,
        // and a `-` would not read.
        assert forall|i: int| 0 <= i < base.len() implies #[trigger] base[i] != '+' && base[i] != '-' by {
            assert(base[i] == s[i]);
        }
        let j: int = k + m;
        let t = engine::modified_text(s, m as int);
        assert(t == if j == 0 { base } else { base + text::modifier_text(j) }) by {
            if mp.len() == 0 {
                assert(base =~= s);
            }
        }
        assert(t.subrange(0, base.len() as int) =~= base);
        assert(t[qd] == 'D');
        if dice::u8_from_text(t) is Some {
            lemma_u8_text_chars(t);
            assert(false);
        }
        if j == 0 {
            assert(!t.contains('+') && !t.contains('-'));
            text::lemma_first_index_facts(t, '+');
            text::lemma_first_index_facts(t, '-');
            assert(dice::modifier_start(t) == t.len());
            assert(t.subrange(t.len() as int, t.len() as int) =~= Seq::<char>::empty());
        } else {
            lemma_modifier_text_reads(j);
            let mt = text::modifier_text(j);
            assert(t[base.len() as int] == mt[0]);
            if j > 0 {
                text::lemma_first_index(t, '+', base.len() as int);
            } else {
                assert forall|i: int| 0 <= i < t.len() implies t[i] != '+' by {
                    if i >= base.len() {
                        assert(t[i] == mt[i - base.len()]);
                    }
                }
                text::lemma_first_index_facts(t, '+');
                text::lemma_first_index(t, '-', base.len() as int);
            }
            assert(dice::modifier_start(t) == base.len());
            assert(t.subrange(base.len() as int, t.len() as int) =~= mt);
        }
        assert(dice::dice_part_parse(t, base) == dice::dice_part_parse(s, base));
    }
}

/// The Save phase names the save before and after the rend modifier, in
/// that order: its description begins `"Save (5+ → 6+)"`, the target with
/// the weapon's rend alone first and the target with the rend modifier
/// second (just `"Save (5+)"` without a rend modifier), whether the saves are
/// rolled or left to the defender.
pub proof fn law_save_description_names_targets_in_order(
    attacker: Unit,
    defender: Unit,
    weapon: Weapon,
    num_models: usize,
    has_champion: bool,
    use_attack_override: bool,
    attack_override: usize,
    include_ward: bool,
    stop_after_wound: bool,
    hit_modifier: i8,
    wound_modifier: i8,
    rend_modifier: i8,
    damage_modifier: i8,
    attack_modifier: i8,
    crit_effect_override: Option<CritEffect>,
    provided_rolls: Option<&[u8]>,
    r: CombatResult,
)
    requires
        engine::combat_result_ok(
            attacker,
            defender,
            weapon,
            num_models,
            has_champion,
            use_attack_override,
            attack_override,
            include_ward,
            stop_after_wound,
            hit_modifier,
            wound_modifier,
            rend_modifier,
            damage_modifier,
            attack_modifier,
            crit_effect_override,
            provided_rolls,
            r,
        ),
    ensures
        ({
            let before = text::decimal(engine::save_target(defender.save, weapon.rend, 0) as nat);
            let after = text::decimal(engine::save_target(defender.save, weapon.rend, rend_modifier) as nat);
            let header = if rend_modifier != 0 {
                "Save ("@ + before + "+ → "@ + after + "+)"@
            } else {
                "Save ("@ + before + "+)"@
            };
            let d = r.phases@[2].description@;
            &&& header.len() <= d.len()
            &&& d.subrange(0, header.len() as int) == header
        }),
{
    reveal(engine::pending_phase_ok);
    reveal(engine::save_phase_ok);
    let base = engine::save_target(defender.save, weapon.rend, 0);
    let target = engine::save_target(defender.save, weapon.rend, rend_modifier);
    let header = describe::target_header("Save"@, base, target, rend_modifier != 0);
    let d = r.phases@[2].description@;
    assert(d == describe::save_description(base, target, rend_modifier, stop_after_wound));
    assert(d.subrange(0, header.len() as int) =~= header);
    reveal_strlit("Save");
    reveal_strlit(" (");
    reveal_strlit("Save (");
    let before = text::decimal(base as nat);
    let after = text::decimal(target as nat);
    if rend_modifier != 0 {
        assert(header =~= "Save ("@ + before + "+ → "@ + after + "+)"@);
    } else {
        assert(header =~= "Save ("@ + before + "+)"@);
    }
}

} // verus!
