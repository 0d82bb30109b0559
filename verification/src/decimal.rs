//! Decimal rendering of unsigned integers.
//!
//! Shared characteristics are reported as formatted strings, so every numeric
//! attribute must be turned into its base-10 text. The rendering is written
//! and proved here against `spec_decimal`.
use vstd::prelude::*;
use vstd::string::StringExecFns;

verus! {

/// The character standing for one decimal digit.
pub open spec fn spec_digit_char(d: int) -> char {
    if d == 0 {
        '0'
    } else if d == 1 {
        '1'
    } else if d == 2 {
        '2'
    } else if d == 3 {
        '3'
    } else if d == 4 {
        '4'
    } else if d == 5 {
        '5'
    } else if d == 6 {
        '6'
    } else if d == 7 {
        '7'
    } else if d == 8 {
        '8'
    } else {
        '9'
    }
}

/// Base-10 text of a non-negative integer, most significant digit first,
/// without leading zeros (except for the number 0 itself).
pub open spec fn spec_decimal(n: int) -> Seq<char>
    recommends
        n >= 0,
    decreases n,
{
    if n < 10 {
        seq![spec_digit_char(n)]
    } else {
        spec_decimal(n / 10).push(spec_digit_char(n % 10))
    }
}

/// True of the ten digit characters.
pub open spec fn is_dec_digit(c: char) -> bool {
    c == '0' || c == '1' || c == '2' || c == '3' || c == '4' || c == '5' || c == '6' || c == '7'
        || c == '8' || c == '9'
}

fn digit_str(d: u32) -> (r: &'static str)
    requires
        d < 10,
    ensures
        r@ =~= seq![spec_digit_char(d as int)],
{
    proof {
        reveal_strlit("0");
        reveal_strlit("1");
        reveal_strlit("2");
        reveal_strlit("3");
        reveal_strlit("4");
        reveal_strlit("5");
        reveal_strlit("6");
        reveal_strlit("7");
        reveal_strlit("8");
        reveal_strlit("9");
    }
    match d {
        0 => "0",
        1 => "1",
        2 => "2",
        3 => "3",
        4 => "4",
        5 => "5",
        6 => "6",
        7 => "7",
        8 => "8",
        _ => "9",
    }
}

/// Render `n` in base 10.
pub fn u32_to_string(n: u32) -> (r: String)
    ensures
        r@ == spec_decimal(n as int),
    decreases n,
{
    if n < 10 {
        String::from_str(digit_str(n))
    } else {
        let mut s = u32_to_string(n / 10);
        s.append(digit_str(n % 10));
        s
    }
}

/// Every character of a decimal rendering is a digit.
pub proof fn lemma_decimal_all_digits(n: int)
    ensures
        forall|i: int|
            0 <= i < spec_decimal(n).len() ==> is_dec_digit(#[trigger] spec_decimal(n)[i]),
    decreases n,
{
    if n < 10 {
    } else {
        lemma_decimal_all_digits(n / 10);
        assert forall|i: int| 0 <= i < spec_decimal(n).len() implies is_dec_digit(
            #[trigger] spec_decimal(n)[i],
        ) by {
            if i < spec_decimal(n).len() - 1 {
                assert(spec_decimal(n)[i] == spec_decimal(n / 10)[i]);
            } else {
                assert(spec_decimal(n)[i] == spec_digit_char(n % 10));
            }
        }
    }
}

/// A decimal rendering never equals a string that holds a non-digit
/// character somewhere.
pub proof fn lemma_decimal_ne(n: int, label: Seq<char>, i: int)
    requires
        0 <= i < label.len(),
        !is_dec_digit(label[i]),
    ensures
        spec_decimal(n) != label,
{
    lemma_decimal_all_digits(n);
    if spec_decimal(n) == label {
        assert(is_dec_digit(spec_decimal(n)[i]));
    }
}

} // verus!
