//! Dice: rolling D6 and D3, and dice expressions such as `"5"`, `"D6"`,
//! `"2D6+3"` or `"D3-1"`.

use std::num::ParseIntError;

use rand::Rng;
use vstd::prelude::*;

use crate::text;
use crate::text::{find_char, push_decimal, text_contains};

verus! {

/// The standard library's integer parse error, carried as it is.
#[verifier::external_type_specification]
#[verifier::external_body]
pub struct ExParseIntError(ParseIntError);

/// `Clone` of the standard integer parse error, which the derived `Clone` of
/// `DiceParseError` calls; nothing is stated of the copy.
pub assume_specification[ <ParseIntError as Clone>::clone ](e: &ParseIntError) -> ParseIntError;

/// Why a dice expression was refused.
#[derive(Debug, Clone, PartialEq, Eq)]
pub enum DiceParseError {
    /// The text is neither a number nor a dice expression; the message holds
    /// the normalised text, or names the unsupported number of sides.
    InvalidFormat(String),
    /// A number inside the expression is not a valid integer of its type.
    ParseInt(ParseIntError),
}

impl From<ParseIntError> for DiceParseError {
    fn from(e: ParseIntError) -> (r: Self) {
        DiceParseError::ParseInt(e)
    }
}

impl vstd::std_specs::convert::FromSpecImpl<ParseIntError> for DiceParseError {
    open spec fn obeys_from_spec() -> bool {
        true
    }

    open spec fn from_spec(e: ParseIntError) -> Self {
        DiceParseError::ParseInt(e)
    }
}

// ---------------------------------------------------------------------------
// Integer texts, as the standard library reads them.
// ---------------------------------------------------------------------------

pub open spec fn is_digit(c: char) -> bool {
    '0' <= c && c <= '9'
}

pub open spec fn all_digits(s: Seq<char>) -> bool {
    forall|i: int| 0 <= i < s.len() ==> is_digit(#[trigger] s[i])
}

/// The value of a string of decimal digits.
pub open spec fn digits_value(s: Seq<char>) -> nat
    decreases s.len(),
{
    if s.len() == 0 {
        0
    } else {
        digits_value(s.drop_last()) * 10 + ((s.last() as int) - ('0' as int)) as nat
    }
}

/// An optional `+` followed by one or more decimal digits: the value.
pub open spec fn unsigned_text_value(s: Seq<char>) -> Option<nat> {
    let body = if s.len() > 0 && s[0] == '+' { s.drop_first() } else { s };
    if body.len() > 0 && all_digits(body) {
        Some(digits_value(body))
    } else {
        None
    }
}

/// What `str::parse::<u8>` accepts, and the value it gives.
pub open spec fn u8_from_text(s: Seq<char>) -> Option<u8> {
    match unsigned_text_value(s) {
        Some(v) => if v <= 255 { Some(v as u8) } else { None },
        None => None,
    }
}

/// What `str::parse::<i16>` accepts, and the value it gives.
pub open spec fn i16_from_text(s: Seq<char>) -> Option<i16> {
    if s.len() > 0 && s[0] == '-' {
        let body = s.drop_first();
        if body.len() > 0 && all_digits(body) && digits_value(body) <= 32768 {
            Some((-(digits_value(body) as int)) as i16)
        } else {
            None
        }
    } else {
        match unsigned_text_value(s) {
            Some(v) => if v <= 32767 { Some(v as i16) } else { None },
            None => None,
        }
    }
}

/// `str::parse::<u8>`. The standard library documents the accepted form: an
/// optional `+` followed by ASCII decimal digits whose value fits the type;
/// anything else is an error. Which error kind is reported is not stated.
#[verifier::external_body]
pub(crate) fn parse_u8_text(s: &str) -> (r: Result<u8, ParseIntError>)
    ensures
        match u8_from_text(s@) {
            Some(v) => r == Ok::<u8, ParseIntError>(v),
            None => r is Err,
        },
{
    s.parse::<u8>()
}

/// `str::parse::<i16>`. The standard library documents the accepted form: an
/// optional `+` or `-` followed by ASCII decimal digits whose value fits the
/// type; anything else is an error. Which error kind is reported is not stated.
#[verifier::external_body]
pub(crate) fn parse_i16_text(s: &str) -> (r: Result<i16, ParseIntError>)
    ensures
        match i16_from_text(s@) {
            Some(v) => r == Ok::<i16, ParseIntError>(v),
            None => r is Err,
        },
{
    s.parse::<i16>()
}

// ---------------------------------------------------------------------------
// Normalisation of dice texts: trimmed, then upper-cased.
// ---------------------------------------------------------------------------

/// The characters with the Unicode property White_Space, which `str::trim`
/// removes.
pub open spec fn is_white_space(c: char) -> bool {
    ||| ('\u{9}' <= c && c <= '\u{d}')
    ||| c == ' '
    ||| c == '\u{85}'
    ||| c == '\u{a0}'
    ||| c == '\u{1680}'
    ||| ('\u{2000}' <= c && c <= '\u{200a}')
    ||| c == '\u{2028}'
    ||| c == '\u{2029}'
    ||| c == '\u{202f}'
    ||| c == '\u{205f}'
    ||| c == '\u{3000}'
}

pub open spec fn trim_start(s: Seq<char>) -> Seq<char>
    decreases s.len(),
{
    if s.len() > 0 && is_white_space(s[0]) {
        trim_start(s.drop_first())
    } else {
        s
    }
}

pub open spec fn trim_end(s: Seq<char>) -> Seq<char>
    decreases s.len(),
{
    if s.len() > 0 && is_white_space(s.last()) {
        trim_end(s.drop_last())
    } else {
        s
    }
}

/// `s` without leading and trailing white space.
pub open spec fn trimmed(s: Seq<char>) -> Seq<char> {
    trim_end(trim_start(s))
}

/// `str::trim`: the documented result is the text with leading and trailing
/// characters of the Unicode White_Space property removed.
#[verifier::external_body]
fn trim_text(s: &str) -> (r: &str)
    ensures
        r@ == trimmed(s@),
{
    s.trim()
}

/// The upper-case form that `str::to_uppercase` gives of a text.
pub uninterp spec fn uppercase(s: Seq<char>) -> Seq<char>;

pub open spec fn is_ascii_text(s: Seq<char>) -> bool {
    forall|i: int| 0 <= i < s.len() ==> (#[trigger] s[i] as int) < 128
}

pub open spec fn ascii_upper_char(c: char) -> char {
    if 'a' <= c && c <= 'z' {
        ((c as int) - 32) as char
    } else {
        c
    }
}

/// Each ASCII lower-case letter replaced by its capital.
pub open spec fn ascii_uppercase(s: Seq<char>) -> Seq<char> {
    s.map_values(|c: char| ascii_upper_char(c))
}

/// `str::to_uppercase`. Its result is named by `uppercase`; the Unicode case
/// mapping is not written out. For ASCII text the mapping is the ASCII one
/// (each lower-case letter becomes its capital, every other character stays),
/// as the Unicode tables that the documentation refers to give it.
#[verifier::external_body]
pub(crate) fn uppercase_text(s: &str) -> (r: String)
    ensures
        r@ == uppercase(s@),
        is_ascii_text(s@) ==> r@ == ascii_uppercase(s@),
{
    s.to_uppercase()
}

/// The form in which a dice text is read: trimmed, then upper-cased.
pub open spec fn normalized_dice_text(s: Seq<char>) -> Seq<char> {
    uppercase(trimmed(s))
}

/// Trims and upper-cases a dice text.
pub fn normalize_dice_text(s: &str) -> (r: String)
    ensures
        r@ == normalized_dice_text(s@),
        is_ascii_text(trimmed(s@)) ==> r@ == ascii_uppercase(trimmed(s@)),
{
    let t = trim_text(s);
    uppercase_text(t)
}

// ---------------------------------------------------------------------------
// Dice expressions.
// ---------------------------------------------------------------------------

/// A parsed dice expression: a fixed number, or `count` dice of `sides`
/// sides whose capped sum is shifted by `offset`.
#[derive(Debug, Clone, Copy, PartialEq, Eq)]
pub enum DiceExpr {
    Fixed(u8),
    Roll { count: u8, sides: u8, offset: i32 },
}

/// Why the parse of a normalised dice text fails.
pub enum ParseFailure {
    /// Refused with this message.
    Format(Seq<char>),
    /// A number inside it is not a valid integer.
    Number,
}

/// The number of dice before the `D`: one when nothing stands there.
pub open spec fn dice_count_of(head: Seq<char>) -> Option<u8> {
    if head.len() == 0 {
        Some(1u8)
    } else {
        u8_from_text(head)
    }
}

/// Where the dice part of a text ends: at its first `+`, else at its first
/// `-`, else at its end.
pub open spec fn modifier_start(n: Seq<char>) -> int {
    match text::first_index(n, '+') {
        Some(i) => i,
        None => match text::first_index(n, '-') {
            Some(i) => i,
            None => n.len() as int,
        },
    }
}

pub open spec fn unsupported_sides_message(sides: u8) -> Seq<char> {
    "Unsupported dice sides: "@ + text::decimal(sides as nat)
}

/// The count and sides of the dice part of a text (the part before its
/// modifier): exactly one `D`, an optional `u8` count before it, a `u8`
/// number of sides after it that is 3 or 6. `n` is the whole text, which the
/// format error repeats.
pub open spec fn dice_part_parse(n: Seq<char>, dice_part: Seq<char>) -> Result<(u8, u8), ParseFailure> {
    match text::first_index(dice_part, 'D') {
        None => Err(ParseFailure::Format(n)),
        Some(q) => {
            let head = dice_part.subrange(0, q);
            let tail = dice_part.subrange(q + 1, dice_part.len() as int);
            if tail.contains('D') {
                Err(ParseFailure::Format(n))
            } else {
                match dice_count_of(head) {
                    None => Err(ParseFailure::Number),
                    Some(count) => match u8_from_text(tail) {
                        None => Err(ParseFailure::Number),
                        Some(sides) => if sides != 3 && sides != 6 {
                            Err(ParseFailure::Format(unsupported_sides_message(sides)))
                        } else {
                            Ok((count, sides))
                        },
                    },
                }
            }
        },
    }
}

/// The offset given by a modifier part: empty, or a sign followed by an
/// `i16` text (`"+2"` adds 2, `"-1"` subtracts 1).
pub open spec fn modifier_parse(mod_part: Seq<char>) -> Result<i32, ParseFailure> {
    if mod_part.len() == 0 {
        Ok(0i32)
    } else {
        match i16_from_text(mod_part.drop_first()) {
            None => Err(ParseFailure::Number),
            Some(m) => Ok(if mod_part[0] == '+' { m as i32 } else { (-(m as int)) as i32 }),
        }
    }
}

/// How a normalised dice text with a `D` and no plain number reads.
pub open spec fn dice_form_parse(n: Seq<char>) -> Result<DiceExpr, ParseFailure> {
    let split = modifier_start(n);
    match dice_part_parse(n, n.subrange(0, split)) {
        Err(f) => Err(f),
        Ok((count, sides)) => match modifier_parse(n.subrange(split, n.len() as int)) {
            Err(f) => Err(f),
            Ok(offset) => Ok(DiceExpr::Roll { count, sides, offset }),
        },
    }
}

/// How a normalised dice text reads: a plain `u8` number, or
/// `[count]D<sides>[+m|-m]` with `sides` 3 or 6.
pub open spec fn dice_parse(n: Seq<char>) -> Result<DiceExpr, ParseFailure> {
    match u8_from_text(n) {
        Some(v) => Ok(DiceExpr::Fixed(v)),
        None => if !n.contains('D') {
            Err(ParseFailure::Format(n))
        } else {
            dice_form_parse(n)
        },
    }
}

/// Whether a parse result stands for the spec result.
pub open spec fn parse_result_matches(r: Result<DiceExpr, DiceParseError>, s: Result<DiceExpr, ParseFailure>) -> bool {
    match s {
        Ok(e) => r == Ok::<DiceExpr, DiceParseError>(e),
        Err(ParseFailure::Format(msg)) => r matches Err(DiceParseError::InvalidFormat(m)) && m@ == msg,
        Err(ParseFailure::Number) => r matches Err(DiceParseError::ParseInt(_)),
    }
}

/// The sum of rolled faces.
pub open spec fn sum_faces(rolls: Seq<u8>) -> nat
    decreases rolls.len(),
{
    if rolls.len() == 0 {
        0
    } else {
        sum_faces(rolls.drop_last()) + rolls.last() as nat
    }
}

/// Every face lies in `1..=sides`.
pub open spec fn faces_within(rolls: Seq<u8>, sides: u8) -> bool {
    forall|i: int| 0 <= i < rolls.len() ==> 1 <= #[trigger] rolls[i] && rolls[i] <= sides
}

/// The dice that an expression needs: none for a fixed number, `count` dice
/// of `sides` sides otherwise.
pub open spec fn rolls_fit(e: DiceExpr, rolls: Seq<u8>) -> bool {
    match e {
        DiceExpr::Fixed(_) => rolls.len() == 0,
        DiceExpr::Roll { count, sides, .. } => rolls.len() == count && faces_within(rolls, sides),
    }
}

pub open spec fn min_int(a: int, b: int) -> int {
    if a <= b { a } else { b }
}

/// The value of an expression for the given dice: the sum is capped at 255,
/// shifted by the offset, floored at 0 and taken as a `u8` (modulo 256).
pub open spec fn expr_value(e: DiceExpr, rolls: Seq<u8>) -> u8 {
    match e {
        DiceExpr::Fixed(v) => v,
        DiceExpr::Roll { offset, .. } => {
            let total = min_int(sum_faces(rolls) as int, 255);
            let shifted = total + offset;
            if shifted < 0 { 0u8 } else { (shifted % 256) as u8 }
        },
    }
}

/// The values an expression can take.
pub open spec fn possible_value(e: DiceExpr, v: u8) -> bool {
    exists|rolls: Seq<u8>| rolls_fit(e, rolls) && v == expr_value(e, rolls)
}

/// The shifted total stays within `i16` for every possible capped sum.
pub open spec fn expr_in_range(e: DiceExpr) -> bool {
    match e {
        DiceExpr::Fixed(_) => true,
        DiceExpr::Roll { count, sides, offset } => {
            let lo = min_int(count as int, 255);
            let hi = min_int(count as int * sides as int, 255);
            lo + offset >= -32768 && hi + offset <= 32767
        },
    }
}

/// Reading this dice text never leaves the range of `i16` while applying its
/// modifier.
pub open spec fn dice_text_in_range(n: Seq<char>) -> bool {
    match dice_parse(n) {
        Ok(e) => expr_in_range(e),
        Err(_) => true,
    }
}

/// The values `resolve_dice_string` can give for a text: a possible value of
/// its expression, or 1 when the text does not parse.
pub open spec fn possible_dice_value(text: Seq<char>, v: u8) -> bool {
    match dice_parse(normalized_dice_text(text)) {
        Ok(e) => possible_value(e, v),
        Err(_) => v == 1,
    }
}

fn format_error(n: &str) -> (r: DiceParseError)
    ensures
        r matches DiceParseError::InvalidFormat(m) && m@ == n@,
{
    DiceParseError::InvalidFormat(String::from_str(n))
}

/// Reads the count and sides of the dice part of a text.
fn parse_dice_part(n: &str, dice_part: &str) -> (r: Result<(u8, u8), DiceParseError>)
    ensures
        match dice_part_parse(n@, dice_part@) {
            Ok(cs) => r == Ok::<(u8, u8), DiceParseError>(cs),
            Err(ParseFailure::Format(msg)) => r matches Err(DiceParseError::InvalidFormat(m)) && m@ == msg,
            Err(ParseFailure::Number) => r matches Err(DiceParseError::ParseInt(_)),
        },
{
    let q = match find_char(dice_part, 'D') {
        Some(q) => q,
        None => {
            return Err(format_error(n));
        },
    };
    proof { text::lemma_first_index_facts(dice_part@, 'D'); }
    let dlen = dice_part.unicode_len();
    let head = dice_part.substring_char(0, q);
    let tail = dice_part.substring_char(q + 1, dlen);
    if text_contains(tail, 'D') {
        return Err(format_error(n));
    }
    let count: u8 = if head.unicode_len() == 0 {
        1
    } else {
        match parse_u8_text(head) {
            Ok(c) => c,
            Err(e) => {
                return Err(DiceParseError::ParseInt(e));
            },
        }
    };
    let sides: u8 = match parse_u8_text(tail) {
        Ok(s) => s,
        Err(e) => {
            return Err(DiceParseError::ParseInt(e));
        },
    };
    if sides != 3 && sides != 6 {
        let mut msg = String::from_str("Unsupported dice sides: ");
        push_decimal(&mut msg, sides as usize);
        return Err(DiceParseError::InvalidFormat(msg));
    }
    Ok((count, sides))
}

/// Reads the offset of a modifier part.
pub fn parse_modifier(mod_part: &str) -> (r: Result<i32, DiceParseError>)
    ensures
        match modifier_parse(mod_part@) {
            Ok(o) => r == Ok::<i32, DiceParseError>(o),
            Err(ParseFailure::Format(msg)) => r matches Err(DiceParseError::InvalidFormat(m)) && m@ == msg,
            Err(ParseFailure::Number) => r matches Err(DiceParseError::ParseInt(_)),
        },
{
    let mlen = mod_part.unicode_len();
    if mlen == 0 {
        return Ok(0);
    }
    let sign = mod_part.get_char(0);
    let rest = mod_part.substring_char(1, mlen);
    assert(rest@ == mod_part@.drop_first());
    match parse_i16_text(rest) {
        Ok(m) => {
            let offset: i32 = if sign == '+' { m as i32 } else { -(m as i32) };
            Ok(offset)
        },
        Err(e) => Err(DiceParseError::ParseInt(e)),
    }
}

/// Where the modifier part of a text starts (see `modifier_start`).
pub fn modifier_split(n: &str) -> (r: usize)
    ensures
        r as int == modifier_start(n@),
        r <= n@.len(),
{
    let split: usize = match find_char(n, '+') {
        Some(i) => i,
        None => match find_char(n, '-') {
            Some(i) => i,
            None => n.unicode_len(),
        },
    };
    proof {
        text::lemma_first_index_facts(n@, '+');
        text::lemma_first_index_facts(n@, '-');
    }
    split
}

/// Parses a normalised dice text (see `normalize_dice_text`).
pub fn parse_dice_expr(n: &str) -> (r: Result<DiceExpr, DiceParseError>)
    ensures
        parse_result_matches(r, dice_parse(n@)),
{
    if let Ok(v) = parse_u8_text(n) {
        return Ok(DiceExpr::Fixed(v));
    }
    if !text_contains(n, 'D') {
        return Err(format_error(n));
    }
    let len = n.unicode_len();
    let split = modifier_split(n);
    let dice_part = n.substring_char(0, split);
    let mod_part = n.substring_char(split, len);
    let (count, sides) = match parse_dice_part(n, dice_part) {
        Ok(cs) => cs,
        Err(e) => {
            return Err(e);
        },
    };
    match parse_modifier(mod_part) {
        Ok(offset) => Ok(DiceExpr::Roll { count, sides, offset }),
        Err(e) => Err(e),
    }
}

// ---------------------------------------------------------------------------
// Rolling.
// ---------------------------------------------------------------------------

/// `rand::thread_rng().gen_range(low..=high)`: a value drawn from the
/// thread-local generator. Only its range is stated; which value comes is
/// left to chance, and `gen_range` panics on an empty range, which
/// `requires` rules out.
#[verifier::external_body]
fn random_in_range(low: u8, high: u8) -> (r: u8)
    requires
        low <= high,
    ensures
        low <= r <= high,
{
    rand::thread_rng().gen_range(low..=high)
}

/// Rolls a single D6, returning a value from 1 to 6.
pub fn roll_d6() -> (r: u8)
    ensures
        1 <= r <= 6,
{
    random_in_range(1, 6)
}

/// Rolls a single D3, returning a value from 1 to 3.
pub fn roll_d3() -> (r: u8)
    ensures
        1 <= r <= 3,
{
    random_in_range(1, 3)
}

/// The dice drawn so far, in the order in which they were drawn: for each,
/// its number of sides and the face that came up.
pub struct DiceLog {
    draws: Vec<(u8, u8)>,
}

impl View for DiceLog {
    type V = Seq<(u8, u8)>;

    closed spec fn view(&self) -> Seq<(u8, u8)> {
        self.draws@
    }
}

impl DiceLog {
    /// A log with no dice drawn yet.
    pub fn new() -> (r: DiceLog)
        ensures
            r@ == Seq::<(u8, u8)>::empty(),
    {
        DiceLog { draws: Vec::new() }
    }

    /// Rolls one die of `sides` sides, records it and gives its face.
    pub fn draw(&mut self, sides: u8) -> (r: u8)
        requires
            1 <= sides,
        ensures
            1 <= r <= sides,
            final(self)@ == old(self)@.push((sides, r)),
    {
        let r = random_in_range(1, sides);
        self.draws.push((sides, r));
        r
    }

    /// The dice drawn so far.
    pub fn drawn(&self) -> (r: &[(u8, u8)])
        ensures
            r@ == self@,
    {
        self.draws.as_slice()
    }
}

/// The faces of drawn dice.
pub open spec fn draw_faces(d: Seq<(u8, u8)>) -> Seq<u8> {
    d.map_values(|x: (u8, u8)| x.1)
}

/// Every drawn die has `sides` sides.
pub open spec fn all_of_sides(d: Seq<(u8, u8)>, sides: u8) -> bool {
    forall|i: int| 0 <= i < d.len() ==> (#[trigger] d[i]).0 == sides
}

/// `later` is `earlier` with dice drawn after it.
pub open spec fn log_extends(earlier: Seq<(u8, u8)>, later: Seq<(u8, u8)>) -> bool {
    earlier.len() <= later.len() && later.take(earlier.len() as int) == earlier
}

/// The dice drawn in `later` after `earlier`.
pub open spec fn drawn_since(earlier: Seq<(u8, u8)>, later: Seq<(u8, u8)>) -> Seq<(u8, u8)> {
    later.skip(earlier.len() as int)
}

/// A log extends itself, with nothing drawn since.
pub proof fn lemma_log_same(a: Seq<(u8, u8)>)
    ensures
        log_extends(a, a),
        drawn_since(a, a) == Seq::<(u8, u8)>::empty(),
{
    assert(a.take(a.len() as int) =~= a);
    assert(drawn_since(a, a) =~= Seq::<(u8, u8)>::empty());
}

/// Draws made one after another: what was drawn across both is what was
/// drawn in the first, then in the second.
pub proof fn lemma_log_chain(a: Seq<(u8, u8)>, b: Seq<(u8, u8)>, c: Seq<(u8, u8)>)
    requires
        log_extends(a, b),
        log_extends(b, c),
    ensures
        log_extends(a, c),
        drawn_since(a, c) == drawn_since(a, b) + drawn_since(b, c),
{
    assert(c.take(a.len() as int) =~= b.take(a.len() as int)) by {
        assert forall|i: int| 0 <= i < a.len() implies c.take(a.len() as int)[i] == b.take(a.len() as int)[i] by {
            assert(c[i] == c.take(b.len() as int)[i]);
        }
    }
    assert(drawn_since(a, c) =~= drawn_since(a, b) + drawn_since(b, c)) by {
        assert forall|i: int| 0 <= i < b.len() - a.len() implies drawn_since(a, c)[i] == drawn_since(a, b)[i] by {
            assert(c[a.len() + i] == c.take(b.len() as int)[a.len() + i]);
        }
    }
}

/// The number of dice one roll of an expression draws.
pub open spec fn dice_needed(e: DiceExpr) -> nat {
    match e {
        DiceExpr::Fixed(_) => 0,
        DiceExpr::Roll { count, .. } => count as nat,
    }
}

/// One roll of `e` drew the dice `d` and gave `v`: no dice and its number
/// for a fixed number; else `count` dice of its `sides`, each showing a face
/// of such a die, whose value (`expr_value`) is `v`.
pub open spec fn rolled_from(e: DiceExpr, d: Seq<(u8, u8)>, v: u8) -> bool {
    match e {
        DiceExpr::Fixed(x) => d.len() == 0 && v == x,
        DiceExpr::Roll { count, sides, .. } => {
            &&& d.len() == count
            &&& all_of_sides(d, sides)
            &&& faces_within(draw_faces(d), sides)
            &&& v == expr_value(e, draw_faces(d))
        },
    }
}

/// A value one roll gives is a possible value of the expression.
pub proof fn lemma_rolled_possible(e: DiceExpr, d: Seq<(u8, u8)>, v: u8)
    requires
        rolled_from(e, d, v),
    ensures
        possible_value(e, v),
{
    match e {
        DiceExpr::Fixed(_) => {
            assert(rolls_fit(e, Seq::<u8>::empty()));
        },
        DiceExpr::Roll { .. } => {
            assert(rolls_fit(e, draw_faces(d)));
        },
    }
}

/// Every possible value of an expression is the value of some dice that one
/// roll of it can draw: dice of its own sides, one per die it needs, whose
/// faces give that value.
pub proof fn law_every_value_has_dice(e: DiceExpr, v: u8)
    requires
        possible_value(e, v),
    ensures
        exists|d: Seq<(u8, u8)>| #[trigger] rolled_from(e, d, v),
{
    match e {
        DiceExpr::Fixed(_) => {
            assert(rolled_from(e, Seq::<(u8, u8)>::empty(), v));
        },
        DiceExpr::Roll { sides, .. } => {
            let rolls = choose|rolls: Seq<u8>| rolls_fit(e, rolls) && v == expr_value(e, rolls);
            let d = rolls.map_values(|x: u8| (sides, x));
            assert(draw_faces(d) =~= rolls);
            assert(rolled_from(e, d, v));
        },
    }
}

/// Every value is a face of a D6.
pub open spec fn all_d6_faces(rolls: Seq<u8>) -> bool {
    faces_within(rolls, 6)
}

/// Rolls `count` D6.
pub fn roll_d6_batch(count: usize) -> (r: Vec<u8>)
    ensures
        r@.len() == count,
        all_d6_faces(r@),
{
    let mut out: Vec<u8> = Vec::new();
    let mut i: usize = 0;
    while i < count
        invariant
            i <= count,
            out@.len() == i,
            all_d6_faces(out@),
        decreases count - i,
    {
        let v = roll_d6();
        out.push(v);
        i = i + 1;
    }
    out
}

proof fn lemma_sum_take(rolls: Seq<u8>, i: int)
    requires
        0 <= i < rolls.len(),
    ensures
        sum_faces(rolls.take(i + 1)) == sum_faces(rolls.take(i)) + rolls[i] as nat,
{
    assert(rolls.take(i + 1).drop_last() =~= rolls.take(i));
}

/// The value of an expression for the given dice.
pub fn evaluate_dice_expr(expr: &DiceExpr, rolls: &[u8]) -> (r: u8)
    requires
        rolls_fit(*expr, rolls@),
    ensures
        r == expr_value(*expr, rolls@),
{
    match expr {
        DiceExpr::Fixed(v) => *v,
        DiceExpr::Roll { count, sides, offset } => {
            let mut acc: u32 = 0;
            let mut i: usize = 0;
            while i < rolls.len()
                invariant
                    i <= rolls@.len(),
                    rolls@.len() == *count as int,
                    faces_within(rolls@, *sides),
                    acc as nat == sum_faces(rolls@.take(i as int)),
                    acc <= 255 * i,
                decreases rolls@.len() - i,
            {
                proof { lemma_sum_take(rolls@, i as int); }
                acc = acc + rolls[i] as u32;
                i = i + 1;
            }
            assert(rolls@.take(rolls@.len() as int) =~= rolls@);
            let total: i64 = if acc > 255 { 255 } else { acc as i64 };
            let shifted: i64 = total + *offset as i64;
            if shifted < 0 {
                0
            } else {
                (shifted % 256) as u8
            }
        },
    }
}

/// The dice of an expression are D3 or D6, as every parsed expression's are.
pub open spec fn expr_well_formed(e: DiceExpr) -> bool {
    match e {
        DiceExpr::Fixed(_) => true,
        DiceExpr::Roll { sides, .. } => sides == 3 || sides == 6,
    }
}

/// Rolls the dice of an expression, recording them in `log`, and gives its
/// value: the dice drawn are those of one roll of the expression, each of the
/// expression's own sides, and the value is that of their faces.
pub fn roll_dice_expr(expr: &DiceExpr, log: &mut DiceLog) -> (r: u8)
    requires
        expr_well_formed(*expr),
    ensures
        log_extends(old(log)@, final(log)@),
        rolled_from(*expr, drawn_since(old(log)@, final(log)@), r),
        possible_value(*expr, r),
{
    let ghost start = log@;
    match expr {
        DiceExpr::Fixed(v) => {
            assert(log@.take(start.len() as int) =~= start);
            assert(drawn_since(start, log@) =~= Seq::<(u8, u8)>::empty());
            proof { lemma_rolled_possible(*expr, drawn_since(start, log@), *v); }
            *v
        },
        DiceExpr::Roll { count, sides, offset: _ } => {
            let mut rolls: Vec<u8> = Vec::new();
            let mut i: u8 = 0;
            while i < *count
                invariant
                    i <= *count,
                    *sides == 3 || *sides == 6,
                    rolls@.len() == i,
                    faces_within(rolls@, *sides),
                    log@.len() == start.len() + i,
                    log@.take(start.len() as int) =~= start,
                    forall|k: int| 0 <= k < i ==> #[trigger] log@[start.len() + k] == (*sides, rolls@[k]),
                decreases *count - i,
            {
                let ghost before = log@;
                let v = log.draw(*sides);
                assert(log@.take(start.len() as int) =~= before.take(start.len() as int));
                rolls.push(v);
                i = i + 1;
            }
            let r = evaluate_dice_expr(expr, rolls.as_slice());
            let ghost d = drawn_since(start, log@);
            assert(d.len() == rolls@.len());
            assert forall|k: int| 0 <= k < d.len() implies #[trigger] d[k] == (*sides, rolls@[k]) by {
                assert(d[k] == log@[start.len() + k]);
            }
            assert(draw_faces(d) =~= rolls@);
            assert(all_of_sides(d, *sides));
            proof { lemma_rolled_possible(*expr, d, r); }
            r
        },
    }
}

/// Every parsed expression has dice of 3 or 6 sides.
pub proof fn lemma_parsed_well_formed(n: Seq<char>)
    ensures
        dice_parse(n) matches Ok(e) ==> expr_well_formed(e),
{
}

/// Whether the shifted total of an expression stays within `i16`.
pub fn expr_within_range(expr: &DiceExpr) -> (r: bool)
    ensures
        r == expr_in_range(*expr),
{
    match expr {
        DiceExpr::Fixed(_) => true,
        DiceExpr::Roll { count, sides, offset } => {
            let lo: i64 = *count as i64;
            assert(0 <= (*count as int) * (*sides as int) <= 255 * 255) by (nonlinear_arith)
                requires
                    0 <= *count <= 255,
                    0 <= *sides <= 255;
            let prod: i64 = *count as i64 * *sides as i64;
            let hi: i64 = if prod > 255 { 255 } else { prod };
            lo + *offset as i64 >= -32768 && hi + *offset as i64 <= 32767
        },
    }
}

/// The outcomes `parse_dice_string` may give for a text.
pub open spec fn dice_string_outcome(text: Seq<char>, r: Result<u8, DiceParseError>) -> bool {
    match dice_parse(normalized_dice_text(text)) {
        Ok(e) => r matches Ok(v) && possible_value(e, v),
        Err(ParseFailure::Format(msg)) => r matches Err(DiceParseError::InvalidFormat(m)) && m@ == msg,
        Err(ParseFailure::Number) => r matches Err(DiceParseError::ParseInt(_)),
    }
}

/// Parses and resolves a dice string.
///
/// Supported formats: a fixed number (`"5"`, `"10"`), `"D6"`, `"2D6"`,
/// `"D3"`, `"2D3"`, and modified forms such as `"D6+2"`, `"D3-1"`,
/// `"2D6+3"`. The text is trimmed and upper-cased first; dice are rolled
/// afresh on every call.
pub fn parse_dice_string(input: &str) -> (r: Result<u8, DiceParseError>)
    requires
        dice_text_in_range(normalized_dice_text(input@)),
    ensures
        dice_string_outcome(input@, r),
{
    let mut log = DiceLog::new();
    let r = roll_dice_text(input, &mut log);
    proof {
        if let Ok(e) = dice_parse(normalized_dice_text(input@)) {
            if let Ok(v) = r {
                lemma_rolled_possible(e, drawn_since(Seq::<(u8, u8)>::empty(), log@), v);
            }
        }
    }
    r
}

/// Reading the text `text` and rolling what it says drew the dice `d` and
/// gave `r`: one roll of its expression, or no dice and the parse error.
pub open spec fn text_roll_outcome(text: Seq<char>, d: Seq<(u8, u8)>, r: Result<u8, DiceParseError>) -> bool {
    match dice_parse(normalized_dice_text(text)) {
        Ok(e) => r matches Ok(v) && rolled_from(e, d, v),
        Err(ParseFailure::Format(msg)) => d.len() == 0 && (r matches Err(DiceParseError::InvalidFormat(m)) && m@ == msg),
        Err(ParseFailure::Number) => d.len() == 0 && (r matches Err(DiceParseError::ParseInt(_))),
    }
}

/// `parse_dice_string`, recording the dice it rolls in `log`.
pub fn roll_dice_text(input: &str, log: &mut DiceLog) -> (r: Result<u8, DiceParseError>)
    requires
        dice_text_in_range(normalized_dice_text(input@)),
    ensures
        log_extends(old(log)@, final(log)@),
        text_roll_outcome(input@, drawn_since(old(log)@, final(log)@), r),
{
    let ghost start = log@;
    let n = normalize_dice_text(input);
    match parse_dice_expr(n.as_str()) {
        Ok(e) => {
            proof { lemma_parsed_well_formed(n@); }
            Ok(roll_dice_expr(&e, log))
        },
        Err(err) => {
            assert(log@.take(start.len() as int) =~= start);
            assert(drawn_since(start, log@) =~= Seq::<(u8, u8)>::empty());
            Err(err)
        },
    }
}

/// The number of dice one reading of a text draws.
pub open spec fn text_dice_needed(text: Seq<char>) -> nat {
    match dice_parse(normalized_dice_text(text)) {
        Ok(e) => dice_needed(e),
        Err(_) => 0,
    }
}

/// One reading of `text`, a value taken as 1 where it does not parse, drew
/// the dice `d` and gave `v`.
pub open spec fn text_value_rolled(text: Seq<char>, d: Seq<(u8, u8)>, v: u8) -> bool {
    match dice_parse(normalized_dice_text(text)) {
        Ok(e) => rolled_from(e, d, v),
        Err(_) => d.len() == 0 && v == 1,
    }
}

/// Each of `values` came from a reading of `text` of its own: `d` holds,
/// one reading after another, the dice drawn for each of them.
pub open spec fn rolled_each(text: Seq<char>, values: Seq<u8>, d: Seq<(u8, u8)>) -> bool
    decreases values.len(),
{
    if values.len() == 0 {
        d.len() == 0
    } else {
        let n = d.len() - text_dice_needed(text);
        &&& n >= 0
        &&& rolled_each(text, values.drop_last(), d.take(n))
        &&& text_value_rolled(text, d.skip(n), values.last())
    }
}

/// Another reading of a text, after readings of it for `values`: the dice
/// drawn for all of them are those before, then those of the new reading.
pub proof fn lemma_rolled_each_push(text: Seq<char>, values: Seq<u8>, d: Seq<(u8, u8)>, fresh: Seq<(u8, u8)>, v: u8)
    requires
        rolled_each(text, values, d),
        text_value_rolled(text, fresh, v),
    ensures
        rolled_each(text, values.push(v), d + fresh),
{
    let all = d + fresh;
    let n = all.len() - text_dice_needed(text);
    assert(fresh.len() == text_dice_needed(text));
    assert(values.push(v).drop_last() =~= values);
    assert(all.take(n) =~= d);
    assert(all.skip(n) =~= fresh);
}

/// `resolve_dice_string`, recording the dice it rolls in `log`: one
/// reading of the text, 1 where it does not parse.
pub fn resolve_dice_string_logged(input: &str, log: &mut DiceLog) -> (r: u8)
    requires
        dice_text_in_range(normalized_dice_text(input@)),
    ensures
        log_extends(old(log)@, final(log)@),
        text_value_rolled(input@, drawn_since(old(log)@, final(log)@), r),
        possible_dice_value(input@, r),
{
    let ghost start = log@;
    let read = roll_dice_text(input, log);
    let v: u8 = match read {
        Ok(v) => v,
        Err(_) => 1,
    };
    proof {
        if let Ok(e) = dice_parse(normalized_dice_text(input@)) {
            lemma_rolled_possible(e, drawn_since(start, log@), v);
        }
    }
    v
}

/// Values rolled one reading each: the dice drawn split into one run per
/// value, of the text's number of dice, in order, and each value is what the
/// dice of its own run give.
#[verifier::spinoff_prover]
#[verifier::rlimit(30)]
pub proof fn law_rolled_each_runs(text: Seq<char>, values: Seq<u8>, d: Seq<(u8, u8)>)
    requires
        rolled_each(text, values, d),
    ensures
        d.len() == values.len() * text_dice_needed(text),
        forall|k: int|
            0 <= k < values.len() ==> text_value_rolled(
                text,
                d.subrange(k * text_dice_needed(text), (k + 1) * text_dice_needed(text)),
                #[trigger] values[k],
            ),
    decreases values.len(),
{
    let m = text_dice_needed(text) as int;
    if values.len() > 0 {
        let n = d.len() - m;
        let vs = values.drop_last();
        let ds = d.take(n);
        law_rolled_each_runs(text, vs, ds);
        lemma_runs_step(vs.len() as int, m);
        assert forall|k: int| 0 <= k < values.len() implies text_value_rolled(
            text,
            d.subrange(k * m, (k + 1) * m),
            #[trigger] values[k],
        ) by {
            lemma_run_bounds(k, vs.len() as int, m);
            if k < vs.len() {
                assert(values[k] == vs[k]);
                assert(d.subrange(k * m, (k + 1) * m) =~= ds.subrange(k * m, (k + 1) * m));
            } else {
                assert(d.subrange(k * m, (k + 1) * m) =~= d.skip(n));
            }
        }
    }
}

proof fn lemma_runs_step(c: int, m: int)
    ensures
        (c + 1) * m == c * m + m,
{
    assert((c + 1) * m == c * m + m) by (nonlinear_arith);
}

proof fn lemma_run_bounds(k: int, c: int, m: int)
    requires
        0 <= k <= c,
        0 <= m,
    ensures
        0 <= k * m,
        k < c ==> (k + 1) * m <= c * m,
        k == c ==> k * m == c * m,
        (k + 1) * m == k * m + m,
{
    assert(0 <= k * m) by (nonlinear_arith) requires 0 <= k, 0 <= m;
    assert(k < c ==> (k + 1) * m <= c * m) by (nonlinear_arith) requires 0 <= m;
    assert((k + 1) * m == k * m + m) by (nonlinear_arith);
}

/// Whether reading a dice text keeps its modifier arithmetic within `i16`.
pub fn dice_text_within_range(input: &str) -> (r: bool)
    ensures
        r == dice_text_in_range(normalized_dice_text(input@)),
{
    let n = normalize_dice_text(input);
    match parse_dice_expr(n.as_str()) {
        Ok(e) => expr_within_range(&e),
        Err(_) => true,
    }
}

/// `parse_dice_string` for any text: `None` where applying the modifier
/// could leave the range of `i16`, the parse's outcome otherwise.
pub fn checked_parse_dice_string(input: &str) -> (r: Option<Result<u8, DiceParseError>>)
    ensures
        match r {
            None => !dice_text_in_range(normalized_dice_text(input@)),
            Some(res) => dice_text_in_range(normalized_dice_text(input@)) && dice_string_outcome(input@, res),
        },
{
    if dice_text_within_range(input) {
        Some(parse_dice_string(input))
    } else {
        None
    }
}

/// Resolves a dice string, giving 1 where it does not parse.
pub fn resolve_dice_string(input: &str) -> (r: u8)
    requires
        dice_text_in_range(normalized_dice_text(input@)),
    ensures
        possible_dice_value(input@, r),
{
    match parse_dice_string(input) {
        Ok(v) => v,
        Err(_) => 1,
    }
}

} // verus!
