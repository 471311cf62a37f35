//! Text of numbers and messages.

use vstd::prelude::*;

verus! {

/// `String::push` of std appends a character.
pub assume_specification[ String::push ](text: &mut String, c: char)
    ensures
        final(text)@ == old(text)@.push(c),
;

/// The character of a decimal digit.
pub open spec fn digit_char(digit: int) -> char {
    ('0' as int + digit) as char
}

/// Whether the character is a decimal digit.
pub open spec fn is_digit(c: char) -> bool {
    '0' <= c <= '9'
}

/// A natural number in decimal, without leading zeros.
pub open spec fn natural_text(number: int) -> Seq<char>
    decreases number,
{
    if number < 10 {
        seq![digit_char(number)]
    } else {
        natural_text(number / 10).push(digit_char(number % 10))
    }
}

/// An integer in decimal, with a minus sign before a negative one.
pub open spec fn decimal_text(number: int) -> Seq<char> {
    if number < 0 {
        seq!['-'] + natural_text(-number)
    } else {
        natural_text(number)
    }
}

/// The number that decimal digits write.
pub open spec fn decimal_value(digits: Seq<char>) -> int
    decreases digits.len(),
{
    if digits.len() == 0 {
        0
    } else {
        decimal_value(digits.drop_last()) * 10 + (digits.last() as int - '0' as int)
    }
}

/// The decimal text of a natural number consists of digits and writes that
/// number.
pub proof fn law_natural_text_writes_its_number(number: int)
    requires
        number >= 0,
    ensures
        natural_text(number).len() > 0,
        forall|i: int|
            0 <= i < natural_text(number).len() ==> is_digit(#[trigger] natural_text(number)[i]),
        decimal_value(natural_text(number)) == number,
    decreases number,
{
    if number < 10 {
        reveal_with_fuel(decimal_value, 2);
        assert(natural_text(number).drop_last() =~= Seq::<char>::empty());
    } else {
        law_natural_text_writes_its_number(number / 10);
        assert(natural_text(number).drop_last() =~= natural_text(number / 10));
    }
}

/// The decimal text of a number other than zero begins with another digit than
/// zero.
pub proof fn law_numbers_have_no_leading_zero(number: int)
    requires
        number > 0,
    ensures
        natural_text(number)[0] != '0',
    decreases number,
{
    law_natural_text_writes_its_number(number);
    if number >= 10 {
        law_numbers_have_no_leading_zero(number / 10);
        law_natural_text_writes_its_number(number / 10);
        assert(natural_text(number)[0] == natural_text(number / 10)[0]);
    }
}

/// Appends a decimal digit.
fn push_digit(text: &mut String, digit: u8)
    requires
        digit < 10,
    ensures
        final(text)@ == old(text)@.push(digit_char(digit as int)),
{
    text.push((48 + digit) as char);
}

/// Appends a natural number in decimal.
pub fn push_natural(text: &mut String, number: u64)
    ensures
        final(text)@ == old(text)@ + natural_text(number as int),
    decreases number,
{
    let ghost start = text@;
    if number < 10 {
        push_digit(text, number as u8);
    } else {
        push_natural(text, number / 10);
        push_digit(text, (number % 10) as u8);
    }
    assert(text@ =~= start + natural_text(number as int));
}

/// A natural number in decimal.
pub fn natural(number: u64) -> (text: String)
    ensures
        text@ == natural_text(number as int),
{
    let mut text = String::new();
    push_natural(&mut text, number);
    assert(text@ =~= natural_text(number as int));
    text
}

/// An integer in decimal.
pub fn decimal(number: i64) -> (text: String)
    ensures
        text@ == decimal_text(number as int),
{
    let mut text = String::new();
    if number < 0 {
        text.push('-');
        let magnitude: u64 = if number == i64::MIN {
            0x8000_0000_0000_0000
        } else {
            (-number) as u64
        };
        push_natural(&mut text, magnitude);
    } else {
        push_natural(&mut text, number as u64);
    }
    assert(text@ =~= decimal_text(number as int));
    text
}

/// The text of the characters.
pub fn text_of(characters: &Vec<char>) -> (text: String)
    ensures
        text@ == characters@,
{
    let mut text = String::new();
    let mut i: usize = 0;
    while i < characters.len()
        invariant
            i <= characters@.len(),
            text@ == characters@.take(i as int),
        decreases characters@.len() - i,
    {
        text.push(characters[i]);
        i = i + 1;
        assert(text@ =~= characters@.take(i as int));
    }
    assert(text@ =~= characters@);
    text
}

/// Two texts, one after the other.
pub fn joined(first: &str, second: &str) -> (text: String)
    ensures
        text@ == first@ + second@,
{
    let mut text = String::from_str(first);
    text.append(second);
    text
}

/// A text, a natural number in decimal, and another text.
pub fn with_number(before: &str, number: u64, after: &str) -> (text: String)
    ensures
        text@ == before@ + natural_text(number as int) + after@,
{
    let mut text = String::from_str(before);
    push_natural(&mut text, number);
    text.append(after);
    text
}

} // verus!
