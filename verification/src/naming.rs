//! File names for carved images. A name is the number of the image in
//! decimal, padded with leading zeros to nine digits, followed by the
//! extension `.png`.
//!
//! A number with more than nine digits is written in full, so that two
//! different numbers never share a name.

use vstd::prelude::*;
use vstd::string::*;

verus! {

/// Minimum number of digits in a name.
pub const NAME_DIGITS: usize = 9;

/// The character for a decimal digit.
pub open spec fn digit_char(d: nat) -> char
    recommends
        d < 10,
{
    if d == 0 {
        '0'
    } else if d == 1 {
        '1'
    } else if d == 2 {
        '2'
    } else if d == 3 {
        '3'
    } else if d == 4 {
        '4'
    } else if d == 5 {
        '5'
    } else if d == 6 {
        '6'
    } else if d == 7 {
        '7'
    } else if d == 8 {
        '8'
    } else {
        '9'
    }
}

/// The decimal numeral of `n`, without leading zeros.
pub open spec fn decimal(n: nat) -> Seq<char>
    decreases n,
{
    if n < 10 {
        seq![digit_char(n)]
    } else {
        decimal(n / 10).push(digit_char(n % 10))
    }
}

/// A sequence of `count` zeros.
pub open spec fn zeros(count: nat) -> Seq<char> {
    Seq::new(count, |i: int| '0')
}

/// The decimal numeral of `n`, padded with leading zeros to at least `width`
/// digits.
pub open spec fn zero_padded(n: nat, width: nat) -> Seq<char> {
    let numeral = decimal(n);
    if numeral.len() >= width {
        numeral
    } else {
        zeros((width - numeral.len()) as nat) + numeral
    }
}

/// The extension shared by all names.
pub open spec fn extension() -> Seq<char> {
    seq!['.', 'p', 'n', 'g']
}

/// The file name of the image with number `id`.
pub open spec fn file_name(id: nat) -> Seq<char> {
    zero_padded(id, 9) + extension()
}

/// The numeral for a sequence of digits that is given with the least
/// significant digit first.
pub open spec fn numeral_of(digits: Seq<u8>) -> Seq<char> {
    Seq::new(digits.len(), |i: int| digit_char(digits[digits.len() - 1 - i] as nat))
}

/// Returns the one-character string for a decimal digit.
fn digit_str(d: u8) -> (s: &'static str)
    requires
        d < 10,
    ensures
        s@ == seq![digit_char(d as nat)],
{
    proof {
        reveal_strlit("0");
        reveal_strlit("1");
        reveal_strlit("2");
        reveal_strlit("3");
        reveal_strlit("4");
        reveal_strlit("5");
        reveal_strlit("6");
        reveal_strlit("7");
        reveal_strlit("8");
        reveal_strlit("9");
    }
    let s = if d == 0 {
        "0"
    } else if d == 1 {
        "1"
    } else if d == 2 {
        "2"
    } else if d == 3 {
        "3"
    } else if d == 4 {
        "4"
    } else if d == 5 {
        "5"
    } else if d == 6 {
        "6"
    } else if d == 7 {
        "7"
    } else if d == 8 {
        "8"
    } else {
        "9"
    };
    s
}

/// Returns the decimal digits of `n`, least significant digit first.
fn digits_of(n: u64) -> (digits: Vec<u8>)
    ensures
        numeral_of(digits@) == decimal(n as nat),
        forall|i: int| 0 <= i < digits@.len() ==> digits@[i] < 10,
{
    let mut digits: Vec<u8> = Vec::new();
    digits.push((n % 10) as u8);
    let mut rest: u64 = n / 10;
    while rest > 0
        invariant
            forall|i: int| 0 <= i < digits@.len() ==> digits@[i] < 10,
            rest > 0 ==> decimal(n as nat) == decimal(rest as nat) + numeral_of(digits@),
            rest == 0 ==> decimal(n as nat) == numeral_of(digits@),
        decreases rest,
    {
        let ghost before = digits@;
        let d: u8 = (rest % 10) as u8;
        digits.push(d);
        proof {
            let head = decimal((rest / 10) as nat);
            if rest >= 10 {
                assert(head.push(digit_char(d as nat)) + numeral_of(before) =~= head + numeral_of(
                    digits@,
                ));
            }
        }
        rest = rest / 10;
    }
    digits
}

/// Returns the file name for the image with number `id`.
pub fn output_name(id: u64) -> (name: String)
    ensures
        name@ == file_name(id as nat),
{
    let digits = digits_of(id);
    let count = digits.len();
    let mut name = String::new();
    let mut width: usize = count;
    while width < NAME_DIGITS
        invariant
            count <= width,
            width == count || width <= NAME_DIGITS,
            name@ == zeros((width - count) as nat),
        decreases NAME_DIGITS - width,
    {
        proof {
            reveal_strlit("0");
        }
        name.append("0");
        width = width + 1;
    }
    let ghost padding = name@;
    let mut left: usize = count;
    while left > 0
        invariant
            left <= count == digits@.len(),
            forall|i: int| 0 <= i < digits@.len() ==> digits@[i] < 10,
            padding + numeral_of(digits@) == zero_padded(id as nat, 9),
            name@ == padding + numeral_of(digits@).take(count - left),
        decreases left,
    {
        left = left - 1;
        name.append(digit_str(digits[left]));
    }
    proof {
        reveal_strlit(".png");
    }
    name.append(".png");
    name
}

/// The value of a decimal digit. Any other character has the value zero.
pub open spec fn digit_value(c: char) -> nat {
    if c == '1' {
        1
    } else if c == '2' {
        2
    } else if c == '3' {
        3
    } else if c == '4' {
        4
    } else if c == '5' {
        5
    } else if c == '6' {
        6
    } else if c == '7' {
        7
    } else if c == '8' {
        8
    } else if c == '9' {
        9
    } else {
        0
    }
}

/// The number denoted by a sequence of decimal digits.
pub open spec fn value_of(text: Seq<char>) -> nat
    decreases text.len(),
{
    if text.len() == 0 {
        0
    } else {
        value_of(text.drop_last()) * 10 + digit_value(text.last())
    }
}

/// The decimal numeral of a number denotes that number.
pub proof fn lemma_value_of_decimal(n: nat)
    ensures
        value_of(decimal(n)) == n,
    decreases n,
{
    if n < 10 {
        assert(value_of(decimal(n).drop_last()) == 0);
    } else {
        lemma_value_of_decimal(n / 10);
        assert(decimal(n).drop_last() =~= decimal(n / 10));
    }
}

/// Leading zeros do not change the number that a sequence of digits denotes.
pub proof fn lemma_value_of_padded(count: nat, text: Seq<char>)
    ensures
        value_of(zeros(count) + text) == value_of(text),
    decreases text.len(), count,
{
    let padded = zeros(count) + text;
    if text.len() > 0 {
        lemma_value_of_padded(count, text.drop_last());
        assert(padded.drop_last() =~= zeros(count) + text.drop_last());
    } else if count > 0 {
        lemma_value_of_padded((count - 1) as nat, text);
        assert(padded.drop_last() =~= zeros((count - 1) as nat) + text);
    }
}

/// The digits of a name denote the number of the image.
pub proof fn lemma_name_denotes_id(id: nat)
    ensures
        file_name(id).len() >= 4,
        value_of(file_name(id).take(file_name(id).len() - 4)) == id,
{
    let digits = zero_padded(id, 9);
    assert(file_name(id).take(file_name(id).len() - 4) =~= digits);
    lemma_value_of_decimal(id);
    if decimal(id).len() < 9 {
        lemma_value_of_padded((9 - decimal(id).len()) as nat, decimal(id));
    }
}

/// No name is used twice: images with different numbers have different
/// names.
pub proof fn lemma_names_differ(a: nat, b: nat)
    requires
        a != b,
    ensures
        file_name(a) != file_name(b),
{
    lemma_name_denotes_id(a);
    lemma_name_denotes_id(b);
}

/// The name for a number of at most nine digits consists of exactly nine
/// digits and the extension.
pub proof fn lemma_short_number_has_nine_digits(id: nat)
    requires
        id < 1_000_000_000,
    ensures
        file_name(id).len() == 13,
{
    assert(1 <= decimal(id).len() <= 9) by {
        reveal_with_fuel(decimal, 10);
    }
}

} // verus!
