//! Coordinates as text.

use crate::text::{
    decimal_text, decimal_value, digit_char, is_digit, law_natural_text_writes_its_number,
    natural_text, push_natural,
};
use crate::tile_index::TileIndex;
use num_bigint::BigInt;
use vstd::arithmetic::power::{lemma_pow0, lemma_pow1, lemma_pow_adds, lemma_pow_positive, pow};
use vstd::prelude::*;

verus! {

/// A coordinate that is entered has at most so many digits.
pub const MAX_LATERAL_COORDINATE_DIGITS: usize = 10_000;

/// A coordinate with at most so many digits is shown in full.
pub const MAX_EXACT_OVERLAY_COORDINATE_DIGITS: usize = 18;

/// Of a longer one, so many digits are shown at both ends.
pub const OVERLAY_COORDINATE_EDGE_DIGITS: usize = 8;

/// Whether the character is white space.
pub open spec fn is_white(c: char) -> bool {
    ||| '\u{9}' <= c <= '\u{d}'
    ||| c == '\u{20}'
    ||| c == '\u{85}'
    ||| c == '\u{a0}'
    ||| c == '\u{1680}'
    ||| '\u{2000}' <= c <= '\u{200a}'
    ||| c == '\u{2028}'
    ||| c == '\u{2029}'
    ||| c == '\u{202f}'
    ||| c == '\u{205f}'
    ||| c == '\u{3000}'
}

fn white(c: char) -> (result: bool)
    ensures
        result == is_white(c),
{
    ('\u{9}' <= c && c <= '\u{d}') || c == '\u{20}' || c == '\u{85}' || c == '\u{a0}' || c
        == '\u{1680}' || ('\u{2000}' <= c && c <= '\u{200a}') || c == '\u{2028}' || c == '\u{2029}'
        || c == '\u{202f}' || c == '\u{205f}' || c == '\u{3000}'
}

/// The text without white space at its start.
pub open spec fn trimmed_start(text: Seq<char>) -> Seq<char>
    decreases text.len(),
{
    if text.len() > 0 && is_white(text.first()) {
        trimmed_start(text.drop_first())
    } else {
        text
    }
}

/// The text without white space at its end.
pub open spec fn trimmed_end(text: Seq<char>) -> Seq<char>
    decreases text.len(),
{
    if text.len() > 0 && is_white(text.last()) {
        trimmed_end(text.drop_last())
    } else {
        text
    }
}

/// The text without white space at both ends.
pub open spec fn trimmed(text: Seq<char>) -> Seq<char> {
    trimmed_end(trimmed_start(text))
}

/// The characters of a text.
pub fn characters(text: &str) -> (result: Vec<char>)
    ensures
        result@ == text@,
{
    let mut result: Vec<char> = Vec::new();
    for c in iter: text.chars()
        invariant
            result@ == iter.seq().take(iter.index()),
            iter.index() == iter.seq().len() ==> result@ =~= iter.seq(),
            0 <= iter.index() <= iter.seq().len(),
            iter.seq() == text@,
    {
        proof {
            assert(iter.seq().take(iter.index() + 1) =~= iter.seq().take(iter.index()).push(c));
        }
        result.push(c);
    }
    result
}

/// The characters of a text without white space at both ends.
pub fn trim(text: &str) -> (result: Vec<char>)
    ensures
        result@ == trimmed(text@),
{
    let all: Vec<char> = characters(text);
    let mut start: usize = 0;
    assert(all@.skip(0) =~= all@);
    while start < all.len() && white(all[start])
        invariant
            start <= all.len(),
            trimmed_start(all@) == trimmed_start(all@.skip(start as int)),
        decreases all.len() - start,
    {
        assert(all@.skip(start as int).drop_first() =~= all@.skip(start + 1));
        start = start + 1;
    }
    let ghost rest = all@.skip(start as int);
    assert(trimmed_start(all@) == rest);
    let mut end: usize = all.len();
    assert(rest =~= all@.subrange(start as int, end as int));
    while end > start && white(all[end - 1])
        invariant
            start <= end <= all.len(),
            trimmed_end(rest) == trimmed_end(all@.subrange(start as int, end as int)),
        decreases end,
    {
        let ghost part = all@.subrange(start as int, end as int);
        assert(part.last() == all@[end - 1]);
        assert(part.drop_last() =~= all@.subrange(start as int, end - 1));
        end = end - 1;
    }
    let ghost kept = all@.subrange(start as int, end as int);
    assert(trimmed_end(kept) == kept) by {
        if kept.len() > 0 {
            assert(kept.last() == all@[end - 1]);
        }
    }
    let mut result: Vec<char> = Vec::new();
    let mut i: usize = start;
    while i < end
        invariant
            start <= i <= end <= all.len(),
            result@ == all@.subrange(start as int, i as int),
        decreases end - i,
    {
        result.push(all[i]);
        i = i + 1;
        assert(result@ =~= all@.subrange(start as int, i as int));
    }
    result
}

/// How many signs the text begins with.
pub open spec fn sign_run(text: Seq<char>) -> int
    decreases text.len(),
{
    if text.len() > 0 && (text.first() == '+' || text.first() == '-') {
        1 + sign_run(text.drop_first())
    } else {
        0
    }
}

/// Whether all characters are decimal digits.
pub open spec fn all_digits(text: Seq<char>) -> bool {
    forall|i: int| 0 <= i < text.len() ==> is_digit(#[trigger] text[i])
}

/// The number that an optional sign and digits write; none where there is more
/// than one sign.
pub open spec fn signed_number(text: Seq<char>) -> Option<int> {
    if sign_run(text) > 1 {
        None
    } else if sign_run(text) == 1 && text[0] == '-' {
        Some(-decimal_value(text.skip(1)))
    } else {
        Some(decimal_value(text.skip(sign_run(text))))
    }
}

/// The place of the first exponent mark from `from` on; the length of the text
/// where there is none.
pub open spec fn exponent_mark(text: Seq<char>, from: int) -> int
    decreases text.len() - from,
{
    if from >= text.len() {
        text.len() as int
    } else if text[from] == 'e' || text[from] == 'E' {
        from
    } else {
        exponent_mark(text, from + 1)
    }
}

/// The digits of an exponent: what follows the mark, without a plus sign.
pub open spec fn exponent_digits(text: Seq<char>) -> Seq<char> {
    if text.len() > 0 && text[0] == '+' {
        text.skip(1)
    } else {
        text
    }
}

/// The number that a text without white space at its ends writes: digits after
/// an optional sign, and possibly a power of ten as an exponent. None where it
/// writes no such number, or one that is too long.
pub open spec fn coordinate_value(text: Seq<char>) -> Option<int> {
    let mark = exponent_mark(text, 0);
    let mantissa = text.take(mark);
    let digits = mantissa.skip(sign_run(mantissa));
    if text.len() == 0 || text.len() > 10_008 {
        None
    } else if mark == text.len() {
        if digits.len() == 0 || digits.len() > 10_000 || !all_digits(digits) {
            None
        } else {
            signed_number(text)
        }
    } else {
        let rest = text.skip(mark + 1);
        let exponent = exponent_digits(rest);
        if exponent_mark(rest, 0) != rest.len() || digits.len() == 0 || !all_digits(digits)
            || exponent.len() == 0 || !all_digits(exponent) || digits.len() + decimal_value(
            exponent,
        ) > 10_000 {
            None
        } else {
            match signed_number(mantissa) {
                Some(number) => Some(number * pow(10, decimal_value(exponent) as nat)),
                None => None,
            }
        }
    }
}

impl TileIndex {
    /// `BigInt::from_str` of num-bigint reads an integer in decimal. Of a text
    /// that is digits after any number of signs it reads the number, except
    /// that more than one sign is an error.
    #[verifier::external_body]
    pub(crate) fn from_decimal(text: &Vec<char>) -> (index: Option<Self>)
        requires
            sign_run(text@) < text@.len(),
            all_digits(text@.skip(sign_run(text@))),
        ensures
            match signed_number(text@) {
                Some(number) => index.is_some() && index.unwrap()@ == number,
                None => index.is_none(),
            },
    {
        let number = text.iter().collect::<String>().parse::<BigInt>().ok()?;
        Some(TileIndex::from_signed_bytes_le(number.to_signed_bytes_le()))
    }

    /// `BigInt::to_string` of num-bigint writes an integer in decimal, with a
    /// minus sign before a negative one.
    #[verifier::external_body]
    pub(crate) fn to_decimal(&self) -> (text: String)
        ensures
            text@ == decimal_text(self@),
    {
        BigInt::from_signed_bytes_le(&self.to_signed_bytes_le()).to_string()
    }
}

fn find_exponent_mark(text: &Vec<char>, from: usize) -> (mark: usize)
    requires
        from <= text.len(),
    ensures
        mark == exponent_mark(text@, from as int),
        from <= mark <= text.len(),
{
    let mut i: usize = from;
    while i < text.len() && text[i] != 'e' && text[i] != 'E'
        invariant
            from <= i <= text.len(),
            exponent_mark(text@, from as int) == exponent_mark(text@, i as int),
        decreases text.len() - i,
    {
        i = i + 1;
    }
    i
}

fn count_signs(text: &Vec<char>) -> (count: usize)
    ensures
        count == sign_run(text@),
        count <= text.len(),
{
    let mut i: usize = 0;
    assert(text@.skip(0) =~= text@);
    while i < text.len() && (text[i] == '+' || text[i] == '-')
        invariant
            i <= text.len(),
            sign_run(text@) == i + sign_run(text@.skip(i as int)),
        decreases text.len() - i,
    {
        assert(text@.skip(i as int).drop_first() =~= text@.skip(i + 1));
        i = i + 1;
    }
    i
}

fn digits_from(text: &Vec<char>, from: usize) -> (all: bool)
    requires
        from <= text.len(),
    ensures
        all == all_digits(text@.skip(from as int)),
{
    let mut i: usize = from;
    while i < text.len()
        invariant
            from <= i <= text.len(),
            forall|k: int| from <= k < i ==> is_digit(#[trigger] text@[k]),
        decreases text.len() - i,
    {
        if !('0' <= text[i] && text[i] <= '9') {
            assert(text@.skip(from as int)[i - from] == text@[i as int]);
            return false;
        }
        i = i + 1;
    }
    true
}

proof fn lemma_prefix_value(digits: Seq<char>, count: int)
    requires
        0 <= count <= digits.len(),
        all_digits(digits),
    ensures
        0 <= decimal_value(digits.take(count)) <= decimal_value(digits),
    decreases digits.len() - count,
{
    if count < digits.len() {
        lemma_prefix_value(digits, count + 1);
        assert(digits.take(count + 1).drop_last() =~= digits.take(count));
        assert(is_digit(digits[count]));
        lemma_digits_value_is_natural(digits.take(count));
    } else {
        assert(digits.take(count) =~= digits);
        lemma_digits_value_is_natural(digits);
    }
}

proof fn lemma_digits_value_is_natural(digits: Seq<char>)
    requires
        all_digits(digits),
    ensures
        decimal_value(digits) >= 0,
    decreases digits.len(),
{
    if digits.len() > 0 {
        assert(is_digit(digits[digits.len() - 1]));
        assert(all_digits(digits.drop_last())) by {
            assert forall|i: int| 0 <= i < digits.drop_last().len() implies is_digit(
                #[trigger] digits.drop_last()[i],
            ) by {
                assert(digits.drop_last()[i] == digits[i]);
            }
        }
        lemma_digits_value_is_natural(digits.drop_last());
    }
}

/// The number that the digits from `from` on write, where it is at most
/// `limit`.
fn bounded_value(text: &Vec<char>, from: usize, limit: u64) -> (value: Option<u64>)
    requires
        from <= text.len(),
        all_digits(text@.skip(from as int)),
        limit <= 1_000_000,
    ensures
        match value {
            Some(value) => value == decimal_value(text@.skip(from as int)) && value <= limit,
            None => decimal_value(text@.skip(from as int)) > limit,
        },
{
    let ghost digits = text@.skip(from as int);
    let mut value: u64 = 0;
    let mut i: usize = from;
    assert(digits.take(0) =~= Seq::<char>::empty());
    while i < text.len()
        invariant
            from <= i <= text.len(),
            digits == text@.skip(from as int),
            all_digits(digits),
            value == decimal_value(digits.take(i - from)),
            value <= limit <= 1_000_000,
        decreases text.len() - i,
    {
        proof {
            assert(digits.take(i - from + 1).drop_last() =~= digits.take(i - from));
            assert(digits[i - from] == text@[i as int]);
            assert(is_digit(digits[i - from]));
            lemma_prefix_value(digits, i - from + 1);
        }
        value = value * 10 + (text[i] as u64 - 48);
        if value > limit {
            return None;
        }
        i = i + 1;
    }
    assert(digits.take(i - from) =~= digits);
    Some(value)
}

fn first_characters(text: &Vec<char>, count: usize) -> (result: Vec<char>)
    requires
        count <= text.len(),
    ensures
        result@ == text@.take(count as int),
{
    let mut result: Vec<char> = Vec::new();
    let mut i: usize = 0;
    while i < count
        invariant
            i <= count <= text.len(),
            result@ == text@.take(i as int),
        decreases count - i,
    {
        result.push(text[i]);
        i = i + 1;
        assert(result@ =~= text@.take(i as int));
    }
    result
}

/// The tile number that a text writes: digits after an optional sign, possibly
/// with a power of ten as an exponent, white space around it left out.
pub fn parse_lateral_coordinate(input: &str) -> (index: Option<TileIndex>)
    ensures
        match coordinate_value(trimmed(input@)) {
            Some(number) => index.is_some() && index.unwrap()@ == number,
            None => index.is_none(),
        },
{
    let text: Vec<char> = trim(input);
    if text.len() == 0 || text.len() > MAX_LATERAL_COORDINATE_DIGITS + 8 {
        return None;
    }
    let mark: usize = find_exponent_mark(&text, 0);
    if mark == text.len() {
        assert(text@.take(mark as int) =~= text@);
        let signs: usize = count_signs(&text);
        if signs == text.len() || text.len() - signs > MAX_LATERAL_COORDINATE_DIGITS
            || !digits_from(&text, signs) {
            return None;
        }
        return TileIndex::from_decimal(&text);
    }
    let rest_start: usize = mark + 1;
    let ghost rest = text@.skip(mark + 1);
    proof {
        lemma_mark_after(text@, mark + 1, 0);
    }
    if find_exponent_mark(&text, rest_start) != text.len() {
        return None;
    }
    let exponent_start: usize = if rest_start < text.len() && text[rest_start] == '+' {
        rest_start + 1
    } else {
        rest_start
    };
    assert(text@.skip(exponent_start as int) =~= exponent_digits(rest));
    let mantissa: Vec<char> = first_characters(&text, mark);
    let signs: usize = count_signs(&mantissa);
    if signs == mantissa.len() || !digits_from(&mantissa, signs) || exponent_start == text.len()
        || !digits_from(&text, exponent_start) {
        return None;
    }
    let digits: u64 = (mantissa.len() - signs) as u64;
    proof {
        lemma_digits_value_is_natural(exponent_digits(rest));
    }
    if digits > 10_000 {
        return None;
    }
    let exponent: u64 = match bounded_value(&text, exponent_start, 10_000 - digits) {
        Some(value) => value,
        None => return None,
    };
    let number: TileIndex = match TileIndex::from_decimal(&mantissa) {
        Some(number) => number,
        None => return None,
    };
    let zero: TileIndex = TileIndex::from_number(0);
    if number.same_as(&zero) {
        assert(0int * pow(10, exponent as nat) == 0) by (nonlinear_arith);
        return Some(number);
    }
    let scale: TileIndex = TileIndex::from_number(10).power(exponent as u32);
    Some(number.product(&scale))
}

proof fn lemma_mark_after(text: Seq<char>, start: int, from: int)
    requires
        0 <= start <= text.len(),
        0 <= from <= text.len() - start,
    ensures
        exponent_mark(text, start + from) == start + exponent_mark(text.skip(start), from),
    decreases text.len() - start - from,
{
    if start + from < text.len() {
        assert(text.skip(start)[from] == text[start + from]);
        lemma_mark_after(text, start, from + 1);
    }
}

/// Whether the digits write a power of ten.
pub open spec fn writes_power_of_ten(digits: Seq<char>) -> bool {
    digits.len() > 0 && digits[0] == '1' && forall|i: int|
        1 <= i < digits.len() ==> #[trigger] digits[i] == '0'
}

/// A coordinate as it is shown: in full where it is short, a power of ten by
/// its exponent, and else by its first and last digits and their number.
pub open spec fn overlay_text(number: int) -> Seq<char> {
    let digits = natural_text(if number < 0 {
        -number
    } else {
        number
    });
    let sign = if number < 0 {
        seq!['-']
    } else {
        seq![]
    };
    if digits.len() <= 18 {
        decimal_text(number)
    } else if writes_power_of_ten(digits) {
        sign + "1e"@ + natural_text(digits.len() - 1)
    } else {
        sign + digits.take(8) + "..."@ + digits.skip(digits.len() - 8) + " ("@ + natural_text(
            digits.len() as int,
        ) + "d)"@
    }
}

fn push_characters(text: &mut String, characters: &Vec<char>, from: usize, to: usize)
    requires
        from <= to <= characters.len(),
    ensures
        final(text)@ == old(text)@ + characters@.subrange(from as int, to as int),
{
    let ghost before = text@;
    let mut i: usize = from;
    assert(text@ =~= before + characters@.subrange(from as int, i as int));
    while i < to
        invariant
            from <= i <= to <= characters.len(),
            text@ == before + characters@.subrange(from as int, i as int),
        decreases to - i,
    {
        text.push(characters[i]);
        i = i + 1;
        assert(text@ =~= before + characters@.subrange(from as int, i as int));
    }
}

/// A coordinate as it is shown.
pub fn format_overlay_coordinate(value: &TileIndex) -> (text: String)
    ensures
        text@ == overlay_text(value@),
{
    let text: String = value.to_decimal();
    let all: Vec<char> = characters(text.as_str());
    let ghost magnitude = if value@ < 0 {
        -value@
    } else {
        value@
    };
    let ghost digits = natural_text(magnitude);
    proof {
        law_natural_text_writes_its_number(magnitude);
    }
    let negative: bool = all.len() > 0 && all[0] == '-';
    proof {
        if value@ >= 0 {
            assert(is_digit(digits[0]));
        }
    }
    assert(negative == (value@ < 0));
    let start: usize = if negative {
        1
    } else {
        0
    };
    assert(all@.skip(start as int) =~= digits);
    let count: usize = all.len() - start;
    if count <= MAX_EXACT_OVERLAY_COORDINATE_DIGITS {
        return text;
    }
    let mut power: bool = all[start] == '1';
    let mut i: usize = start + 1;
    assert(digits[0] == all@[start as int]);
    while i < all.len() && power
        invariant
            start < i <= all.len(),
            digits == all@.skip(start as int),
            digits.len() == all.len() - start,
            power ==> digits[0] == '1' && forall|k: int|
                1 <= k < i - start ==> #[trigger] digits[k] == '0',
            !power ==> !writes_power_of_ten(digits),
        decreases all.len() - i,
    {
        assert(digits[i - start] == all@[i as int]);
        if all[i] != '0' {
            power = false;
        }
        i = i + 1;
    }
    let mut short = String::new();
    if negative {
        short.push('-');
    }
    let ghost sign = short@;
    assert(sign =~= if value@ < 0 {
        seq!['-']
    } else {
        seq![]
    });
    if power {
        short.append("1e");
        push_natural(&mut short, (count - 1) as u64);
        return short;
    }
    push_characters(&mut short, &all, start, start + OVERLAY_COORDINATE_EDGE_DIGITS);
    assert(all@.subrange(start as int, start + 8) =~= digits.take(8));
    short.append("...");
    push_characters(&mut short, &all, all.len() - OVERLAY_COORDINATE_EDGE_DIGITS, all.len());
    assert(all@.subrange(all.len() - 8, all.len() as int) =~= digits.skip(digits.len() - 8));
    short.append(" (");
    push_natural(&mut short, count as u64);
    short.append("d)");
    short
}

proof fn lemma_power_of_ten_text(exponent: nat)
    ensures
        natural_text(pow(10, exponent)).len() == exponent + 1,
        writes_power_of_ten(natural_text(pow(10, exponent))),
    decreases exponent,
{
    if exponent == 0 {
        lemma_pow0(10);
    } else {
        let before = (exponent - 1) as nat;
        lemma_power_of_ten_text(before);
        lemma_pow1(10);
        lemma_pow_adds(10, before, 1);
        lemma_pow_positive(10, before);
        assert(pow(10, exponent) == pow(10, before) * 10);
        let shorter = natural_text(pow(10, before));
        assert(natural_text(pow(10, exponent)) == shorter.push(digit_char(0)));
        assert forall|i: int| 1 <= i < shorter.push('0').len() implies #[trigger] shorter.push(
            '0',
        )[i] == '0' by {
            if i < shorter.len() {
                assert(shorter.push('0')[i] == shorter[i]);
            }
        }
    }
}

/// A long power of ten is shown by its exponent.
pub proof fn law_powers_of_ten_are_shown_short(exponent: nat)
    requires
        exponent >= 18,
    ensures
        overlay_text(pow(10, exponent)) == "1e"@ + natural_text(exponent as int),
        overlay_text(-pow(10, exponent)) == seq!['-'] + "1e"@ + natural_text(exponent as int),
{
    lemma_pow_positive(10, exponent);
    lemma_power_of_ten_text(exponent);
    assert(Seq::<char>::empty() + "1e"@ =~= "1e"@);
}

proof fn lemma_digits_have_no_mark(text: Seq<char>, from: int)
    requires
        0 <= from <= text.len(),
        forall|i: int| from <= i < text.len() ==> #[trigger] text[i] != 'e' && text[i] != 'E',
    ensures
        exponent_mark(text, from) == text.len(),
    decreases text.len() - from,
{
    if from < text.len() {
        lemma_digits_have_no_mark(text, from + 1);
    }
}

/// A coordinate that is written in full is read as the same coordinate, unless
/// it has more digits than may be entered.
pub proof fn law_written_coordinates_are_read_back(number: int)
    requires
        natural_text(if number < 0 {
            -number
        } else {
            number
        }).len() <= 10_000,
    ensures
        coordinate_value(decimal_text(number)) == Some(number),
{
    let magnitude = if number < 0 {
        -number
    } else {
        number
    };
    let digits = natural_text(magnitude);
    let text = decimal_text(number);
    law_natural_text_writes_its_number(magnitude);
    assert forall|i: int| 0 <= i < text.len() implies #[trigger] text[i] != 'e' && text[i]
        != 'E' by {
        if number < 0 {
            if i > 0 {
                assert(text[i] == digits[i - 1]);
            }
        } else {
            assert(is_digit(digits[i]));
        }
    }
    lemma_digits_have_no_mark(text, 0);
    assert(text.take(text.len() as int) =~= text);
    assert(is_digit(digits[0]));
    if number < 0 {
        assert(text.drop_first() =~= digits);
        assert(text.skip(1) =~= digits);
        assert(sign_run(digits) == 0);
        assert(sign_run(text) == 1);
    } else {
        assert(sign_run(text) == 0);
        assert(text.skip(0) =~= digits);
    }
}

/// The text of both coordinates of the camera's tile, kept as long as the tile
/// is the same.
#[derive(Debug)]
pub struct CoordinateOverlayCache {
    pub tile_x: Option<TileIndex>,
    pub tile_y: Option<TileIndex>,
    pub formatted_x: String,
    pub formatted_y: String,
    pub exact_x: String,
    pub exact_y: String,
}

impl CoordinateOverlayCache {
    /// The texts are those of the tile.
    pub open spec fn wf(self) -> bool {
        &&& match self.tile_x {
            Some(tile) => self.formatted_x@ == overlay_text(tile@) && self.exact_x@ == decimal_text(
                tile@,
            ),
            None => true,
        }
        &&& match self.tile_y {
            Some(tile) => self.formatted_y@ == overlay_text(tile@) && self.exact_y@ == decimal_text(
                tile@,
            ),
            None => true,
        }
    }

    /// No tile, and no text.
    pub open spec fn is_blank(self) -> bool {
        &&& self.tile_x is None
        &&& self.tile_y is None
        &&& self.formatted_x@ == Seq::<char>::empty()
        &&& self.formatted_y@ == Seq::<char>::empty()
        &&& self.exact_x@ == Seq::<char>::empty()
        &&& self.exact_y@ == Seq::<char>::empty()
    }

    /// No text.
    pub fn new() -> (cache: Self)
        ensures
            cache.wf(),
            cache.is_blank(),
    {
        CoordinateOverlayCache {
            tile_x: None,
            tile_y: None,
            formatted_x: String::new(),
            formatted_y: String::new(),
            exact_x: String::new(),
            exact_y: String::new(),
        }
    }

    /// Brings the texts up to date with the camera's tile.
    pub fn update(&mut self, tile_x: &TileIndex, tile_y: &TileIndex)
        requires
            old(self).wf(),
        ensures
            final(self).wf(),
            final(self).formatted_x@ == overlay_text(tile_x@),
            final(self).exact_x@ == decimal_text(tile_x@),
            final(self).formatted_y@ == overlay_text(tile_y@),
            final(self).exact_y@ == decimal_text(tile_y@),
            final(self).tile_x.is_some() && final(self).tile_x.unwrap()@ == tile_x@,
            final(self).tile_y.is_some() && final(self).tile_y.unwrap()@ == tile_y@,
    {
        let same_x: bool = match &self.tile_x {
            Some(tile) => tile.same_as(tile_x),
            None => false,
        };
        if !same_x {
            self.formatted_x = format_overlay_coordinate(tile_x);
            self.exact_x = tile_x.to_decimal();
            self.tile_x = Some(tile_x.clone());
        }
        let same_y: bool = match &self.tile_y {
            Some(tile) => tile.same_as(tile_y),
            None => false,
        };
        if !same_y {
            self.formatted_y = format_overlay_coordinate(tile_y);
            self.exact_y = tile_y.to_decimal();
            self.tile_y = Some(tile_y.clone());
        }
    }
}

/// The highest depth that quick navigation reaches.
pub const MIN_QUICK_DEPTH: i64 = -10_000;

/// The deepest depth that quick navigation reaches.
pub const MAX_QUICK_DEPTH: i64 = 10_000;

/// The depth that a jump leads to: no further than to the deepest and highest
/// ones that can be jumped to.
pub open spec fn reachable_depth(depth: i64) -> i64 {
    if depth < MIN_QUICK_DEPTH {
        MIN_QUICK_DEPTH
    } else if depth > MAX_QUICK_DEPTH {
        MAX_QUICK_DEPTH
    } else {
        depth
    }
}

/// The nearest depth that quick navigation reaches.
pub fn clamp_quick_depth(depth: i64) -> (clamped: i64)
    ensures
        clamped == reachable_depth(depth),
{
    if depth < MIN_QUICK_DEPTH {
        MIN_QUICK_DEPTH
    } else if depth > MAX_QUICK_DEPTH {
        MAX_QUICK_DEPTH
    } else {
        depth
    }
}

/// What a jump to another depth comes to.
#[derive(Debug)]
pub struct DepthJump {
    /// The depth, within what quick navigation reaches.
    pub target: i64,
    /// Whether the camera has to move.
    pub moves: bool,
    pub message: String,
}

/// What a jump to a depth comes to.
pub fn depth_jump(requested: i64, camera_depth: i64) -> (jump: DepthJump)
    ensures
        jump.target == reachable_depth(requested),
        jump.moves == (jump.target != camera_depth),
        jump.message@ == if jump.moves {
            "Depth "@ + decimal_text(jump.target as int)
        } else {
            "Already at depth "@ + decimal_text(jump.target as int)
        },
{
    let target: i64 = clamp_quick_depth(requested);
    let number: String = crate::text::decimal(target);
    if target == camera_depth {
        let message: String = crate::text::joined("Already at depth ", number.as_str());
        DepthJump { target, moves: false, message }
    } else {
        let message: String = crate::text::joined("Depth ", number.as_str());
        DepthJump { target, moves: true, message }
    }
}

/// What a jump to a tile comes to.
#[derive(Debug)]
pub enum LateralJump {
    InvalidX,
    InvalidY,
    To(TileIndex, TileIndex),
}

/// What a jump to the tile that two texts write comes to.
pub fn lateral_jump(text_x: &str, text_y: &str) -> (jump: LateralJump)
    ensures
        match (coordinate_value(trimmed(text_x@)), coordinate_value(trimmed(text_y@))) {
            (None, _) => jump is InvalidX,
            (Some(_), None) => jump is InvalidY,
            (Some(x), Some(y)) => jump matches LateralJump::To(tile_x, tile_y) && tile_x@ == x
                && tile_y@ == y,
        },
{
    let tile_x: TileIndex = match parse_lateral_coordinate(text_x) {
        Some(tile) => tile,
        None => return LateralJump::InvalidX,
    };
    let tile_y: TileIndex = match parse_lateral_coordinate(text_y) {
        Some(tile) => tile,
        None => return LateralJump::InvalidY,
    };
    LateralJump::To(tile_x, tile_y)
}

impl LateralJump {
    /// What to tell the user.
    pub fn message(&self) -> (message: &'static str)
        ensures
            message@ == match self {
                LateralJump::InvalidX => "Invalid Tile X"@,
                LateralJump::InvalidY => "Invalid Tile Y"@,
                LateralJump::To(_, _) => "Tile position updated"@,
            },
    {
        match self {
            LateralJump::InvalidX => "Invalid Tile X",
            LateralJump::InvalidY => "Invalid Tile Y",
            LateralJump::To(_, _) => "Tile position updated",
        }
    }
}

proof fn lemma_start_is_trimmed(text: Seq<char>) -> (from: int)
    ensures
        0 <= from <= text.len(),
        trimmed_start(text) == text.skip(from),
        forall|i: int| 0 <= i < from ==> is_white(#[trigger] text[i]),
        from < text.len() ==> !is_white(text[from]),
    decreases text.len(),
{
    if text.len() > 0 && is_white(text.first()) {
        let rest = text.drop_first();
        let from = lemma_start_is_trimmed(rest);
        assert(rest.skip(from) =~= text.skip(from + 1));
        assert forall|i: int| 0 <= i < from + 1 implies is_white(#[trigger] text[i]) by {
            if i > 0 {
                assert(text[i] == rest[i - 1]);
            }
        }
        from + 1
    } else {
        assert(text.skip(0) =~= text);
        0
    }
}

proof fn lemma_end_is_trimmed(text: Seq<char>) -> (to: int)
    ensures
        0 <= to <= text.len(),
        trimmed_end(text) == text.take(to),
        forall|i: int| to <= i < text.len() ==> is_white(#[trigger] text[i]),
        to > 0 ==> !is_white(text[to - 1]),
    decreases text.len(),
{
    if text.len() > 0 && is_white(text.last()) {
        let rest = text.drop_last();
        let to = lemma_end_is_trimmed(rest);
        assert(rest.take(to) =~= text.take(to));
        assert forall|i: int| to <= i < text.len() implies is_white(#[trigger] text[i]) by {
            if i < text.len() - 1 {
                assert(text[i] == rest[i]);
            }
        }
        to
    } else {
        assert(text.take(text.len() as int) =~= text);
        text.len() as int
    }
}

/// Trimming cuts off all the space at both ends of a text, and nothing else.
pub proof fn law_only_space_is_trimmed(text: Seq<char>) -> (ends: (int, int))
    ensures
        0 <= ends.0 <= ends.1 <= text.len(),
        trimmed(text) == text.subrange(ends.0, ends.1),
        forall|i: int| 0 <= i < ends.0 ==> is_white(#[trigger] text[i]),
        forall|i: int| ends.1 <= i < text.len() ==> is_white(#[trigger] text[i]),
        trimmed(text).len() > 0 ==> !is_white(trimmed(text).first()) && !is_white(
            trimmed(text).last(),
        ),
{
    let from = lemma_start_is_trimmed(text);
    let rest = text.skip(from);
    let to = lemma_end_is_trimmed(rest);
    assert(rest.take(to) =~= text.subrange(from, from + to));
    assert forall|i: int| from + to <= i < text.len() implies is_white(#[trigger] text[i]) by {
        assert(text[i] == rest[i - from]);
    }
    (from, from + to)
}

proof fn lemma_mark_is_found(text: Seq<char>, from: int, place: int)
    requires
        0 <= from <= place < text.len(),
        text[place] == 'e' || text[place] == 'E',
        forall|i: int| from <= i < place ==> #[trigger] text[i] != 'e' && text[i] != 'E',
    ensures
        exponent_mark(text, from) == place,
    decreases place - from,
{
    if from < place {
        lemma_mark_is_found(text, from + 1, place);
    }
}

/// A coordinate with an exponent is that many times ten as large, whichever way
/// the exponent is marked, and whether or not it has a sign.
pub proof fn law_exponents_multiply(number: int, exponent: nat, mark: char, plus: Seq<char>)
    requires
        mark == 'e' || mark == 'E',
        plus == Seq::<char>::empty() || plus == seq!['+'],
        natural_text(if number < 0 {
            -number
        } else {
            number
        }).len() + exponent <= 10_000,
        (decimal_text(number).push(mark) + plus + natural_text(exponent as int)).len() <= 10_008,
    ensures
        coordinate_value(decimal_text(number).push(mark) + plus + natural_text(exponent as int))
            == Some(number * pow(10, exponent)),
{
    let magnitude = if number < 0 {
        -number
    } else {
        number
    };
    let digits = natural_text(magnitude);
    let mantissa = decimal_text(number);
    let power = natural_text(exponent as int);
    let text = mantissa.push(mark) + plus + power;
    let rest = plus + power;
    law_natural_text_writes_its_number(magnitude);
    law_natural_text_writes_its_number(exponent as int);
    assert forall|i: int| 0 <= i < mantissa.len() implies #[trigger] text[i] != 'e' && text[i]
        != 'E' by {
        assert(text[i] == mantissa[i]);
        if number < 0 {
            if i > 0 {
                assert(mantissa[i] == digits[i - 1]);
            }
        } else {
            assert(is_digit(digits[i]));
        }
    }
    lemma_mark_is_found(text, 0, mantissa.len() as int);
    assert(text.take(mantissa.len() as int) =~= mantissa);
    assert(text.skip((mantissa.len() + 1) as int) =~= rest);
    assert forall|i: int| 0 <= i < rest.len() implies #[trigger] rest[i] != 'e' && rest[i]
        != 'E' by {
        if i >= plus.len() {
            assert(rest[i] == power[i - plus.len()]);
        }
    }
    lemma_digits_have_no_mark(rest, 0);
    assert(is_digit(power[0]));
    assert(is_digit(digits[0]));
    if plus.len() == 0 {
        assert(rest =~= power);
    } else {
        assert(rest.skip(1) =~= power);
    }
    reveal_with_fuel(sign_run, 2);
    if number < 0 {
        assert(mantissa.drop_first() =~= digits);
        assert(mantissa.skip(1) =~= digits);
    } else {
        assert(mantissa.skip(0) =~= digits);
    }
}

/// A coordinate of few digits is shown in full, so that it can be read back from
/// what is shown.
pub proof fn law_short_coordinates_are_shown_in_full(number: int)
    requires
        -1_000_000_000_000_000_000 < number < 1_000_000_000_000_000_000,
    ensures
        coordinate_value(overlay_text(number)) == Some(number),
{
    let magnitude = if number < 0 {
        -number
    } else {
        number
    };
    lemma_pow_adds(10, 9, 9);
    assert(pow(10, 9) == 1_000_000_000) by {
        reveal(pow);
        reveal_with_fuel(pow, 10);
    }
    assert(1_000_000_000int * 1_000_000_000int == 1_000_000_000_000_000_000int);
    lemma_digits_are_few(magnitude, 18);
    law_written_coordinates_are_read_back(number);
}

proof fn lemma_digits_are_few(number: int, count: nat)
    requires
        0 <= number < pow(10, count),
        count > 0,
    ensures
        natural_text(number).len() <= count,
    decreases count,
{
    if number >= 10 {
        lemma_pow1(10);
        if count == 1 {
            assert(false);
        }
        lemma_pow_adds(10, (count - 1) as nat, 1);
        lemma_digits_are_few(number / 10, (count - 1) as nat);
    }
}

/// A long coordinate that is no power of ten begins and ends as it would in full.
pub proof fn law_long_coordinates_show_both_ends(number: int)
    requires
        number > 0,
        natural_text(number).len() > 18,
        !writes_power_of_ten(natural_text(number)),
    ensures
        ({
            let shown = overlay_text(number);
            let full = natural_text(number);
            let tail = " ("@ + natural_text(full.len() as int) + "d)"@;
            &&& shown.len() == 19 + tail.len()
            &&& shown.take(8) == full.take(8)
            &&& shown.subrange(11, 19) == full.skip(full.len() - 8)
            &&& shown.skip(19) == tail
        }),
{
    reveal_strlit("...");
    let full = natural_text(number);
    let shown = overlay_text(number);
    let tail = " ("@ + natural_text(full.len() as int) + "d)"@;
    assert(shown =~= full.take(8) + "..."@ + full.skip(full.len() - 8) + tail);
}

} // verus!
