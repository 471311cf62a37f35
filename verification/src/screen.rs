//! Positions on the screen.
//!
//! A screen coordinate is held as the bit pattern of a single-precision
//! number. Patterns compare as the numbers do: the two zeros are equal, and a
//! pattern that is not a number compares with nothing.

use vstd::prelude::*;

verus! {

/// The bit pattern of infinity, above which a magnitude is not a number.
pub const INFINITE_MAGNITUDE: u32 = 0x7f80_0000;

/// The bit that holds the sign.
pub const SIGN_BIT: u32 = 0x8000_0000;

/// Where a number stands among the numbers: patterns of greater numbers have
/// greater ranks, and both zeros have rank zero.
pub open spec fn rank(bits: u32) -> int {
    if bits >= SIGN_BIT {
        -(bits - SIGN_BIT)
    } else {
        bits as int
    }
}

/// Whether the pattern is a number, infinities among them.
pub open spec fn is_number(bits: u32) -> bool {
    -INFINITE_MAGNITUDE <= rank(bits) <= INFINITE_MAGNITUDE
}

/// Whether both are numbers and the left one is at most the right one.
pub open spec fn at_most(left: u32, right: u32) -> bool {
    is_number(left) && is_number(right) && rank(left) <= rank(right)
}

/// Whether both are numbers and the left one is less than the right one.
pub open spec fn less_than(left: u32, right: u32) -> bool {
    is_number(left) && is_number(right) && rank(left) < rank(right)
}

/// Whether both are equal numbers.
pub open spec fn equal_numbers(left: u32, right: u32) -> bool {
    is_number(left) && is_number(right) && rank(left) == rank(right)
}

fn rank_of(bits: u32) -> (result: i64)
    ensures
        result == rank(bits),
{
    if bits >= SIGN_BIT {
        -((bits - SIGN_BIT) as i64)
    } else {
        bits as i64
    }
}

/// The pattern of a number without its sign.
pub open spec fn magnitude(bits: u32) -> u32 {
    if bits >= SIGN_BIT {
        (bits - SIGN_BIT) as u32
    } else {
        bits
    }
}

/// The pattern of a number without its sign.
pub fn without_sign(bits: u32) -> (result: u32)
    ensures
        result == magnitude(bits),
{
    if bits >= SIGN_BIT {
        bits - SIGN_BIT
    } else {
        bits
    }
}

/// Whether the pattern is a number.
pub fn pattern_is_number(bits: u32) -> (number: bool)
    ensures
        number == is_number(bits),
{
    let place: i64 = rank_of(bits);
    let limit: i64 = INFINITE_MAGNITUDE as i64;
    -limit <= place && place <= limit
}

/// Whether both are numbers and the left one is at most the right one.
pub fn number_at_most(left: u32, right: u32) -> (result: bool)
    ensures
        result == at_most(left, right),
{
    pattern_is_number(left) && pattern_is_number(right) && rank_of(left) <= rank_of(right)
}

/// Whether both are numbers and the left one is less than the right one.
pub fn number_less_than(left: u32, right: u32) -> (result: bool)
    ensures
        result == less_than(left, right),
{
    pattern_is_number(left) && pattern_is_number(right) && rank_of(left) < rank_of(right)
}

fn numbers_equal(left: u32, right: u32) -> (result: bool)
    ensures
        result == equal_numbers(left, right),
{
    pattern_is_number(left) && pattern_is_number(right) && rank_of(left) == rank_of(right)
}

/// A position on the screen.
#[derive(Debug, Clone, Copy)]
pub struct Position {
    pub x: u32,
    pub y: u32,
}

/// Whether both are the same position.
pub open spec fn same_position(left: Position, right: Position) -> bool {
    equal_numbers(left.x, right.x) && equal_numbers(left.y, right.y)
}

/// Whether both are the same position, or both are none.
pub open spec fn same_optional_position(left: Option<Position>, right: Option<Position>) -> bool {
    match (left, right) {
        (Some(left), Some(right)) => same_position(left, right),
        (None, None) => true,
        _ => false,
    }
}

impl Position {
    /// Whether both are the same position.
    pub fn same_as(self, other: Self) -> (same: bool)
        ensures
            same == same_position(self, other),
    {
        numbers_equal(self.x, other.x) && numbers_equal(self.y, other.y)
    }
}

/// Whether both are the same position, or both are none.
pub fn optional_positions_match(left: Option<Position>, right: Option<Position>) -> (same: bool)
    ensures
        same == same_optional_position(left, right),
{
    match (left, right) {
        (Some(left), Some(right)) => left.same_as(right),
        (None, None) => true,
        _ => false,
    }
}

/// The lesser one of two numbers, and the other one where one is no number.
pub open spec fn least(left: u32, right: u32) -> u32 {
    if !is_number(left) || less_than(right, left) {
        right
    } else {
        left
    }
}

/// The greater one of two numbers, and the other one where one is no number.
pub open spec fn greatest(left: u32, right: u32) -> u32 {
    if !is_number(left) || less_than(left, right) {
        right
    } else {
        left
    }
}

/// The lesser one of each of the coordinates.
pub open spec fn least_position(left: Position, right: Position) -> Position {
    Position { x: least(left.x, right.x), y: least(left.y, right.y) }
}

/// The greater one of each of the coordinates.
pub open spec fn greatest_position(left: Position, right: Position) -> Position {
    Position { x: greatest(left.x, right.x), y: greatest(left.y, right.y) }
}

fn min_number(left: u32, right: u32) -> (result: u32)
    ensures
        result == least(left, right),
{
    if !pattern_is_number(left) || number_less_than(right, left) {
        right
    } else {
        left
    }
}

/// The greater one of two numbers, and the other one where one is no number.
pub fn max_number(left: u32, right: u32) -> (result: u32)
    ensures
        result == greatest(left, right),
{
    if !pattern_is_number(left) || number_less_than(left, right) {
        right
    } else {
        left
    }
}

/// The lesser one of each of the coordinates.
pub fn min_position(left: Position, right: Position) -> (result: Position)
    ensures
        result == least_position(left, right),
{
    Position { x: min_number(left.x, right.x), y: min_number(left.y, right.y) }
}

/// The greater one of each of the coordinates.
pub fn max_position(left: Position, right: Position) -> (result: Position)
    ensures
        result == greatest_position(left, right),
{
    Position { x: max_number(left.x, right.x), y: max_number(left.y, right.y) }
}

/// A rectangle on the screen.
#[derive(Debug, Clone, Copy)]
pub struct ScreenRect {
    pub min: Position,
    pub max: Position,
}

impl ScreenRect {
    /// Whether the position lies in the rectangle, its border included.
    pub open spec fn covers(self, position: Position) -> bool {
        &&& at_most(self.min.x, position.x)
        &&& at_most(position.x, self.max.x)
        &&& at_most(self.min.y, position.y)
        &&& at_most(position.y, self.max.y)
    }

    /// Whether the position lies in the rectangle, its border included.
    pub fn contains(&self, position: Position) -> (inside: bool)
        ensures
            inside == self.covers(position),
    {
        number_at_most(self.min.x, position.x) && number_at_most(position.x, self.max.x)
            && number_at_most(self.min.y, position.y) && number_at_most(position.y, self.max.y)
    }

    /// The rectangle that reaches as far as both.
    pub open spec fn joined(self, other: Self) -> Self {
        ScreenRect {
            min: least_position(self.min, other.min),
            max: greatest_position(self.max, other.max),
        }
    }

    /// Whether both rectangles have a position in common.
    pub open spec fn meets(self, other: Self) -> bool {
        &&& at_most(self.min.x, other.max.x)
        &&& at_most(other.min.x, self.max.x)
        &&& at_most(self.min.y, other.max.y)
        &&& at_most(other.min.y, self.max.y)
    }

    /// The rectangle with two positions at opposite corners.
    pub open spec fn spanned(first: Position, second: Position) -> Self {
        ScreenRect {
            min: least_position(first, second),
            max: greatest_position(first, second),
        }
    }

    /// The corners, from the upper left one on to the right.
    pub open spec fn corner_list(self) -> Seq<Position> {
        seq![
            self.min,
            Position { x: self.max.x, y: self.min.y },
            self.max,
            Position { x: self.min.x, y: self.max.y },
        ]
    }

    /// The rectangle that reaches as far as both.
    pub fn union(&self, other: &ScreenRect) -> (both: ScreenRect)
        ensures
            both == self.joined(*other),
    {
        ScreenRect {
            min: min_position(self.min, other.min),
            max: max_position(self.max, other.max),
        }
    }

    /// Whether both rectangles have a position in common.
    pub fn intersects(&self, other: &ScreenRect) -> (meets: bool)
        ensures
            meets == self.meets(*other),
    {
        number_at_most(self.min.x, other.max.x) && number_at_most(other.min.x, self.max.x)
            && number_at_most(self.min.y, other.max.y) && number_at_most(other.min.y, self.max.y)
    }

    /// The rectangle with two positions at opposite corners.
    pub fn from_two_pos(first: Position, second: Position) -> (rect: ScreenRect)
        ensures
            rect == Self::spanned(first, second),
    {
        ScreenRect { min: min_position(first, second), max: max_position(first, second) }
    }

    /// The corners, from the upper left one on to the right.
    pub fn corners(&self) -> (corners: Vec<Position>)
        ensures
            corners@ == self.corner_list(),
    {
        let mut corners: Vec<Position> = Vec::new();
        corners.push(self.min);
        corners.push(Position { x: self.max.x, y: self.min.y });
        corners.push(self.max);
        corners.push(Position { x: self.min.x, y: self.max.y });
        assert(corners@ =~= self.corner_list());
        corners
    }
}

/// A rectangle around two positions has both of them in it.
pub proof fn law_a_rectangle_holds_its_corners(first: Position, second: Position)
    requires
        is_number(first.x),
        is_number(first.y),
        is_number(second.x),
        is_number(second.y),
    ensures
        ScreenRect::spanned(first, second).covers(first),
        ScreenRect::spanned(first, second).covers(second),
{
}

/// Rectangles meet where a position lies in both.
pub proof fn law_rectangles_with_a_common_position_meet(
    left: ScreenRect,
    right: ScreenRect,
    position: Position,
)
    requires
        left.covers(position),
        right.covers(position),
    ensures
        left.meets(right),
        right.meets(left),
{
}

/// What joins two rectangles covers what either of them covers, and reaches no
/// further than one of them does on each side.
pub proof fn law_joined_rectangles_cover_both(
    left: ScreenRect,
    right: ScreenRect,
    position: Position,
)
    requires
        left.covers(position) || right.covers(position),
    ensures
        left.joined(right).covers(position),
        left.joined(right).min.x == left.min.x || left.joined(right).min.x == right.min.x,
        left.joined(right).min.y == left.min.y || left.joined(right).min.y == right.min.y,
        left.joined(right).max.x == left.max.x || left.joined(right).max.x == right.max.x,
        left.joined(right).max.y == left.max.y || left.joined(right).max.y == right.max.y,
{
}

} // verus!
