//! Dice shown with color coding: gold for critical hits, green for
//! successes, red for failures. More than `GROUP_THRESHOLD` dice are shown
//! grouped by face (`4×6 3×5`), in descending order of face.

use vstd::prelude::*;

use crate::combat::types::DiceRoll;

verus! {

/// Switch to grouped display (e.g. 4×6 3×5) when there are more dice than this.
pub const GROUP_THRESHOLD: usize = 20;

/// Wrap grouped display in a horizontal scroll area when there are more dice
/// than this.
pub const SCROLL_THRESHOLD: usize = 30;

/// The color of a die or a group of dice.
#[derive(Debug, Clone, Copy, PartialEq, Eq, Structural)]
pub enum DieColor {
    Gold,
    Green,
    Red,
}

/// The color of a die: gold for a critical hit, green for a success, red
/// for a failure.
pub open spec fn color_of(roll: DiceRoll) -> DieColor {
    if roll.is_crit {
        DieColor::Gold
    } else if roll.success {
        DieColor::Green
    } else {
        DieColor::Red
    }
}

/// The priority of a color: gold over green over red.
pub open spec fn color_rank(c: DieColor) -> nat {
    match c {
        DieColor::Gold => 2,
        DieColor::Green => 1,
        DieColor::Red => 0,
    }
}

/// The color of a die.
pub fn roll_color(roll: &DiceRoll) -> (r: DieColor)
    ensures
        r == color_of(*roll),
{
    if roll.is_crit {
        DieColor::Gold
    } else if roll.success {
        DieColor::Green
    } else {
        DieColor::Red
    }
}

/// The color of higher priority.
pub open spec fn higher_color(a: Option<DieColor>, b: DieColor) -> DieColor {
    match a {
        Some(c) => if color_rank(c) >= color_rank(b) { c } else { b },
        None => b,
    }
}

/// The number of dice showing `v`.
pub open spec fn count_face(rolls: Seq<DiceRoll>, v: u8) -> nat
    decreases rolls.len(),
{
    if rolls.len() == 0 {
        0
    } else {
        count_face(rolls.drop_last(), v) + if rolls.last().value == v { 1nat } else { 0nat }
    }
}

/// The color of highest priority among the dice showing `v`.
pub open spec fn face_color(rolls: Seq<DiceRoll>, v: u8) -> Option<DieColor>
    decreases rolls.len(),
{
    if rolls.len() == 0 {
        None
    } else if rolls.last().value == v {
        Some(higher_color(face_color(rolls.drop_last(), v), color_of(rolls.last())))
    } else {
        face_color(rolls.drop_last(), v)
    }
}

/// A group of dice with the same value.
#[derive(Debug, Clone, PartialEq, Eq)]
pub struct GroupedDie {
    pub value: u8,
    pub count: usize,
    pub color: Option<DieColor>,
}

/// The group of the dice showing `v`.
pub open spec fn group_of(rolls: Seq<DiceRoll>, v: u8) -> GroupedDie {
    GroupedDie { value: v, count: count_face(rolls, v) as usize, color: face_color(rolls, v) }
}

/// The groups of faces 6 down to `low`, faces that no die shows left out.
pub open spec fn groups_down_to(rolls: Seq<DiceRoll>, low: int) -> Seq<GroupedDie>
    decreases 7 - low,
{
    if low > 6 || low < 1 {
        Seq::empty()
    } else {
        let above = groups_down_to(rolls, low + 1);
        if count_face(rolls, low as u8) > 0 {
            above.push(group_of(rolls, low as u8))
        } else {
            above
        }
    }
}

/// The groups of faces 6 down to `low` come in strictly descending order of
/// face, each face between `low` and 6 and shown by at least one die.
pub proof fn lemma_groups_down_to_ordered(rolls: Seq<DiceRoll>, low: int)
    requires
        1 <= low <= 7,
        rolls.len() <= usize::MAX,
    ensures
        forall|i: int, j: int|
            0 <= i < j < groups_down_to(rolls, low).len() ==> #[trigger] groups_down_to(rolls, low)[i].value
                > #[trigger] groups_down_to(rolls, low)[j].value,
        forall|i: int|
            0 <= i < groups_down_to(rolls, low).len() ==> {
                let g = #[trigger] groups_down_to(rolls, low)[i];
                &&& low <= g.value <= 6
                &&& g.count > 0
                &&& g == group_of(rolls, g.value)
            },
    decreases 7 - low,
{
    if low <= 6 {
        lemma_groups_down_to_ordered(rolls, low + 1);
        lemma_count_face_bound(rolls, low as u8);
    }
}

/// Grouped dice come in strictly descending order of face, each group with
/// at least one die, its face between 1 and 6, and the count and color of
/// the dice showing that face.
pub proof fn law_groups_descending(rolls: Seq<DiceRoll>)
    requires
        rolls.len() <= usize::MAX,
    ensures
        forall|i: int, j: int|
            0 <= i < j < groups_down_to(rolls, 1).len() ==> #[trigger] groups_down_to(rolls, 1)[i].value
                > #[trigger] groups_down_to(rolls, 1)[j].value,
        forall|i: int|
            0 <= i < groups_down_to(rolls, 1).len() ==> {
                let g = #[trigger] groups_down_to(rolls, 1)[i];
                &&& 1 <= g.value <= 6
                &&& g.count > 0
                &&& g == group_of(rolls, g.value)
            },
{
    lemma_groups_down_to_ordered(rolls, 1);
}

/// Dice shown with color coding.
pub struct DiceDisplay<'a> {
    rolls: &'a [DiceRoll],
}

impl<'a> View for DiceDisplay<'a> {
    type V = Seq<DiceRoll>;

    closed spec fn view(&self) -> Seq<DiceRoll> {
        self.rolls@
    }
}

proof fn lemma_count_face_bound(rolls: Seq<DiceRoll>, v: u8)
    ensures
        count_face(rolls, v) <= rolls.len(),
    decreases rolls.len(),
{
    if rolls.len() > 0 {
        lemma_count_face_bound(rolls.drop_last(), v);
    }
}

impl<'a> DiceDisplay<'a> {
    pub fn new(rolls: &'a [DiceRoll]) -> (r: Self)
        ensures
            r@ == rolls@,
    {
        Self { rolls }
    }

    /// The dice shown.
    pub fn rolls(&self) -> (r: &'a [DiceRoll])
        ensures
            r@ == self@,
    {
        self.rolls
    }

    /// Whether there are no dice.
    pub fn is_empty(&self) -> (r: bool)
        ensures
            r == (self@.len() == 0),
    {
        self.rolls.len() == 0
    }

    /// The number of dice.
    pub fn len(&self) -> (r: usize)
        ensures
            r == self@.len(),
    {
        self.rolls.len()
    }

    /// Whether the dice are shown grouped.
    pub fn should_group(&self) -> (r: bool)
        ensures
            r == (self@.len() > GROUP_THRESHOLD),
    {
        self.rolls.len() > GROUP_THRESHOLD
    }

    /// The dice grouped by face, in descending order of face (6 down to 1),
    /// faces that no die shows left out; faces outside 1..=6 are ignored.
    /// A group's color is the one of highest priority among its dice
    /// (gold over green over red).
    pub fn grouped_data(&self) -> (r: Vec<GroupedDie>)
        ensures
            r@ == groups_down_to(self@, 1),
    {
        let mut counts: Vec<usize> = vec![0, 0, 0, 0, 0, 0];
        let mut colors: Vec<Option<DieColor>> = vec![None, None, None, None, None, None];
        let mut i: usize = 0;
        while i < self.rolls.len()
            invariant
                i <= self.rolls@.len(),
                counts@.len() == 6,
                colors@.len() == 6,
                forall|k: int|
                    0 <= k < 6 ==> #[trigger] counts@[k] == count_face(self.rolls@.take(i as int), (k + 1) as u8),
                forall|k: int| 0 <= k < 6 ==> #[trigger] colors@[k] == face_color(self.rolls@.take(i as int), (k + 1) as u8),
                forall|k: int| 0 <= k < 6 ==> #[trigger] counts@[k] <= i,
            decreases self.rolls@.len() - i,
        {
            let ghost prev = self.rolls@.take(i as int);
            let roll = &self.rolls[i];
            proof {
                assert(self.rolls@.take(i + 1).drop_last() =~= prev);
                assert(self.rolls@.take(i + 1).last() == self.rolls@[i as int]);
            }
            if roll.value >= 1 && roll.value <= 6 {
                let idx = (roll.value - 1) as usize;
                let c = roll_color(roll);
                let new_color = match colors[idx] {
                    Some(old) => {
                        let keep = match (old, c) {
                            (DieColor::Gold, _) => true,
                            (DieColor::Green, DieColor::Green) => true,
                            (DieColor::Green, DieColor::Red) => true,
                            (DieColor::Red, DieColor::Red) => true,
                            _ => false,
                        };
                        if keep { old } else { c }
                    },
                    None => c,
                };
                let n = counts[idx] + 1;
                counts.set(idx, n);
                colors.set(idx, Some(new_color));
            }
            i = i + 1;
        }
        assert(self.rolls@.take(self.rolls@.len() as int) =~= self.rolls@);
        let mut groups: Vec<GroupedDie> = Vec::new();
        let mut value: u8 = 6;
        while value >= 1
            invariant
                0 <= value <= 6,
                counts@.len() == 6,
                colors@.len() == 6,
                forall|k: int| 0 <= k < 6 ==> #[trigger] counts@[k] == count_face(self@, (k + 1) as u8),
                forall|k: int| 0 <= k < 6 ==> #[trigger] colors@[k] == face_color(self@, (k + 1) as u8),
                groups@ == groups_down_to(self@, value as int + 1),
            decreases value,
        {
            let idx = (value - 1) as usize;
            let count = counts[idx];
            if count > 0 {
                groups.push(GroupedDie { value, count, color: colors[idx] });
            }
            proof {
                lemma_count_face_bound(self@, value);
            }
            value = value - 1;
        }
        groups
    }
}

} // verus!
