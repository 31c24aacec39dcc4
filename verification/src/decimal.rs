use vstd::arithmetic::div_mod::{
    lemma_basic_div, lemma_fundamental_div_mod_converse, lemma_small_mod,
};
use vstd::prelude::*;
use vstd::string::*;

verus! {

/// The digit `d` (0 to 9) as a character.
pub open spec fn digit_char(d: nat) -> char {
    ((d + 48) as u8) as char
}

/// Whether `c` is one of the characters `0` to `9`.
pub open spec fn is_digit(c: char) -> bool {
    '0' as u32 <= c as u32 <= '9' as u32
}

/// Whether `text` is made of the characters `0` to `9` alone.
pub open spec fn all_digits(text: Seq<char>) -> bool {
    forall|i: int| 0 <= i < text.len() ==> is_digit(#[trigger] text[i])
}

/// The number that the digit `c` stands for.
pub open spec fn digit_value(c: char) -> nat {
    (c as u32 - '0' as u32) as nat
}

/// The number that a decimal numeral stands for; leading zeros count for
/// nothing.
pub open spec fn decimal_value(text: Seq<char>) -> nat
    decreases text.len(),
{
    if text.len() == 0 {
        0
    } else {
        decimal_value(text.drop_last()) * 10 + digit_value(text.last())
    }
}

/// Ten to the power `exponent`.
pub open spec fn pow10(exponent: nat) -> nat
    decreases exponent,
{
    if exponent == 0 {
        1
    } else {
        10 * pow10((exponent - 1) as nat)
    }
}

/// The decimal numeral of `n`: most significant digit first, no leading zero,
/// and the single digit `0` for zero.
pub open spec fn decimal_digits(n: nat) -> Seq<char>
    decreases n,
{
    if n < 10 {
        seq![digit_char(n)]
    } else {
        decimal_digits(n / 10).push(digit_char(n % 10))
    }
}

/// `count` zeros in a row.
pub open spec fn zeros(count: nat) -> Seq<char> {
    Seq::new(count, |i: int| '0')
}

/// The part of a fixed-point numeral before the point: what is left of `digits`
/// once the last `decimals` of them are taken away, or `0` where nothing is left.
pub open spec fn integer_part(digits: Seq<char>, decimals: nat) -> Seq<char> {
    if digits.len() > decimals {
        digits.subrange(0, digits.len() - decimals)
    } else {
        seq!['0']
    }
}

/// The part of a fixed-point numeral after the point: the last `decimals` of
/// `digits`, with zeros in front where `digits` has fewer. With no decimals at
/// all it is the single digit `0`.
pub open spec fn fraction_part(digits: Seq<char>, decimals: nat) -> Seq<char> {
    if digits.len() > decimals {
        if decimals > 0 {
            digits.subrange(digits.len() - decimals, digits.len() as int)
        } else {
            seq!['0']
        }
    } else {
        zeros((decimals - digits.len()) as nat) + digits
    }
}

/// `digits` with a point set `decimals` places from the right.
pub open spec fn fixed_point_text(digits: Seq<char>, decimals: nat) -> Seq<char> {
    integer_part(digits, decimals) + seq!['.'] + fraction_part(digits, decimals)
}

/// Sets the decimal point into a string of digits, `decimals` places from the
/// right. The result always has an integer part, a point and a fraction part.
pub fn place_decimal_point(digits: &str, decimals: usize) -> (text: String)
    ensures
        text@ == fixed_point_text(digits@, decimals as nat),
{
    proof {
        reveal_strlit("0");
        reveal_strlit(".");
    }
    let len: usize = digits.unicode_len();
    let mut text = String::new();
    if len > decimals {
        text.append(digits.substring_char(0, len - decimals));
        text.append(".");
        if decimals > 0 {
            text.append(digits.substring_char(len - decimals, len));
        } else {
            text.append("0");
        }
    } else {
        text.append("0");
        text.append(".");
        let missing: usize = decimals - len;
        let mut written: usize = 0;
        while written < missing
            invariant
                written <= missing,
                text@ == seq!['0', '.'] + zeros(written as nat),
            decreases missing - written,
        {
            proof {
                reveal_strlit("0");
            }
            text.append("0");
            written += 1;
            assert(zeros(written as nat) =~= zeros((written - 1) as nat) + seq!['0']);
        }
        text.append(digits);
    }
    text
}

/// The digit `d` as text.
fn digit_text(d: u64) -> (text: &'static str)
    requires
        d < 10,
    ensures
        text@ == seq![digit_char(d as nat)],
{
    proof {
        reveal_strlit("0");
        reveal_strlit("1");
        reveal_strlit("2");
        reveal_strlit("3");
        reveal_strlit("4");
        reveal_strlit("5");
        reveal_strlit("6");
        reveal_strlit("7");
        reveal_strlit("8");
        reveal_strlit("9");
    }
    let text = if d == 0 {
        "0"
    } else if d == 1 {
        "1"
    } else if d == 2 {
        "2"
    } else if d == 3 {
        "3"
    } else if d == 4 {
        "4"
    } else if d == 5 {
        "5"
    } else if d == 6 {
        "6"
    } else if d == 7 {
        "7"
    } else if d == 8 {
        "8"
    } else {
        "9"
    };
    assert(text@ =~= seq![digit_char(d as nat)]);
    text
}

/// The decimal numeral of `n`.
pub fn decimal_string(n: u64) -> (text: String)
    ensures
        text@ == decimal_digits(n as nat),
    decreases n,
{
    if n < 10 {
        String::from_str(digit_text(n))
    } else {
        let mut text = decimal_string(n / 10);
        text.append(digit_text(n % 10));
        text
    }
}

/// A decimal numeral has at least one digit and holds digits alone.
pub proof fn lemma_digits_are_digits(n: nat)
    ensures
        decimal_digits(n).len() >= 1,
        all_digits(decimal_digits(n)),
    decreases n,
{
    if n >= 10 {
        lemma_digits_are_digits(n / 10);
    }
}

/// A fixed-point numeral made from digits has exactly one point: an integer
/// part of at least one digit stands before it, and after it a fraction part
/// of `decimals` digits, or of one digit where `decimals` is zero.
pub proof fn lemma_fixed_point_shape(digits: Seq<char>, decimals: nat)
    requires
        digits.len() >= 1,
        all_digits(digits),
    ensures
        ({
            let text = fixed_point_text(digits, decimals);
            let point = integer_part(digits, decimals).len() as int;
            &&& point >= 1
            &&& text.len() == point + 1 + fraction_part(digits, decimals).len()
            &&& fraction_part(digits, decimals).len() == if decimals > 0 {
                decimals
            } else {
                1
            }
            &&& text[point] == '.'
            &&& forall|i: int| 0 <= i < text.len() && i != point ==> is_digit(#[trigger] text[i])
        }),
{
    let whole = integer_part(digits, decimals);
    let fraction = fraction_part(digits, decimals);
    assert(all_digits(whole));
    assert(all_digits(fraction)) by {
        assert forall|i: int| 0 <= i < fraction.len() implies is_digit(
            #[trigger] fraction[i],
        ) by {
            if digits.len() <= decimals && i >= decimals - digits.len() {
                assert(fraction[i] == digits[i - (decimals - digits.len())]);
            }
        }
    }
    let text = fixed_point_text(digits, decimals);
    assert forall|i: int| 0 <= i < text.len() && i != whole.len() implies is_digit(
        #[trigger] text[i],
    ) by {
        if i < whole.len() {
            assert(text[i] == whole[i]);
        } else {
            assert(text[i] == fraction[i - whole.len() - 1]);
        }
    }
}

/// The fixed-point numeral of any number has exactly one point, and its
/// fraction part has `decimals` digits, or one digit where `decimals` is zero.
pub proof fn lemma_number_shape(n: nat, decimals: nat)
    ensures
        ({
            let text = fixed_point_text(decimal_digits(n), decimals);
            let width = if decimals > 0 {
                decimals as int
            } else {
                1
            };
            let point = text.len() - width - 1;
            &&& point >= 1
            &&& text[point] == '.'
            &&& forall|i: int| 0 <= i < text.len() && i != point ==> text[i] != '.'
        }),
{
    lemma_digits_are_digits(n);
    lemma_fixed_point_shape(decimal_digits(n), decimals);
}

/// A decimal numeral stands for the number it was made from.
pub proof fn lemma_value_of_digits(n: nat)
    ensures
        decimal_value(decimal_digits(n)) == n,
    decreases n,
{
    if n < 10 {
        assert(decimal_digits(n).drop_last() =~= Seq::<char>::empty());
        assert(decimal_value(Seq::<char>::empty()) == 0);
    } else {
        lemma_value_of_digits(n / 10);
        assert(decimal_digits(n).drop_last() =~= decimal_digits(n / 10));
        assert(decimal_digits(n).last() == digit_char(n % 10));
    }
}

/// Setting one numeral behind another shifts the first by as many decimal
/// places as the second has digits.
pub proof fn lemma_value_of_joined(front: Seq<char>, back: Seq<char>)
    ensures
        decimal_value(front + back) == decimal_value(front) * pow10(back.len()) + decimal_value(
            back,
        ),
    decreases back.len(),
{
    let high = decimal_value(front);
    if back.len() == 0 {
        assert(front + back =~= front);
        assert(pow10(0) == 1);
        assert(high * 1 == high) by (nonlinear_arith);
    } else {
        let shorter = back.drop_last();
        lemma_value_of_joined(front, shorter);
        assert((front + back).drop_last() =~= front + shorter);
        assert((front + back).last() == back.last());
        let scale = pow10(shorter.len());
        let low = decimal_value(shorter);
        let unit = digit_value(back.last());
        assert(pow10(back.len()) == 10 * scale);
        assert(decimal_value(front + back) == (high * scale + low) * 10 + unit);
        assert(decimal_value(back) == low * 10 + unit);
        assert((high * scale + low) * 10 == high * (10 * scale) + low * 10) by (nonlinear_arith);
    }
}

/// A numeral of digits stands for a number below ten to the power of its
/// length.
pub proof fn lemma_value_bound(text: Seq<char>)
    requires
        all_digits(text),
    ensures
        decimal_value(text) < pow10(text.len()),
    decreases text.len(),
{
    if text.len() > 0 {
        lemma_value_bound(text.drop_last());
        assert(is_digit(text.last()));
    }
}

/// Zeros stand for zero.
pub proof fn lemma_value_of_zeros(count: nat)
    ensures
        decimal_value(zeros(count)) == 0,
    decreases count,
{
    if count > 0 {
        lemma_value_of_zeros((count - 1) as nat);
        assert(zeros(count).drop_last() =~= zeros((count - 1) as nat));
    }
}

/// Powers of ten are positive and grow with the exponent.
pub proof fn lemma_pow10_grows(low: nat, high: nat)
    requires
        low <= high,
    ensures
        1 <= pow10(low) <= pow10(high),
    decreases high,
{
    if low < high {
        lemma_pow10_grows(low, (high - 1) as nat);
    } else if low > 0 {
        lemma_pow10_grows((low - 1) as nat, (high - 1) as nat);
    }
}

/// What the two parts of a fixed-point numeral stand for: the integer part
/// for the number divided by ten to the power `decimals`, the fraction part
/// for the remainder of that division.
pub proof fn lemma_fixed_point_value(n: nat, decimals: nat)
    ensures
        decimal_value(integer_part(decimal_digits(n), decimals)) == n / pow10(decimals),
        decimal_value(fraction_part(decimal_digits(n), decimals)) == n % pow10(decimals),
{
    let digits = decimal_digits(n);
    let scale = pow10(decimals);
    lemma_digits_are_digits(n);
    lemma_value_of_digits(n);
    lemma_pow10_grows(0, decimals);
    assert(decimal_value(seq!['0']) == 0) by {
        assert(seq!['0'].drop_last() =~= Seq::<char>::empty());
        assert(decimal_value(Seq::<char>::empty()) == 0);
    }
    if digits.len() > decimals {
        let high = digits.subrange(0, digits.len() - decimals);
        let low = digits.subrange(digits.len() - decimals, digits.len() as int);
        assert(digits =~= high + low);
        lemma_value_of_joined(high, low);
        lemma_value_bound(low);
        lemma_fundamental_div_mod_converse(
            n as int,
            scale as int,
            decimal_value(high) as int,
            decimal_value(low) as int,
        );
    } else {
        lemma_value_bound(digits);
        lemma_pow10_grows(digits.len(), decimals);
        lemma_basic_div(n as int, scale as int);
        lemma_small_mod(n, scale);
        let padding = zeros((decimals - digits.len()) as nat);
        lemma_value_of_joined(padding, digits);
        lemma_value_of_zeros((decimals - digits.len()) as nat);
        assert(decimal_value(padding) * pow10(digits.len()) == 0) by (nonlinear_arith)
            requires
                decimal_value(padding) == 0,
        ;
    }
}

} // verus!
