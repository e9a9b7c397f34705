//! Whole numbers in decimal notation.

use vstd::prelude::*;
use vstd::string::StringExecFns;

verus! {

/// The character of a digit.
pub open spec fn digit(d: nat) -> char {
    ((48 + d) as u32) as char
}

/// Whether a character is a decimal digit.
pub open spec fn is_digit(ch: char) -> bool {
    '0' <= ch && ch <= '9'
}

/// A number in decimal notation, without leading zeros.
pub open spec fn decimal(n: nat) -> Seq<char>
    decreases n,
{
    if n < 10 {
        seq![digit(n)]
    } else {
        decimal(n / 10).push(digit(n % 10))
    }
}

/// A whole number in decimal notation, with a minus sign where it is negative.
pub open spec fn signed_decimal(n: int) -> Seq<char> {
    if n < 0 {
        seq!['-'] + decimal((-n) as nat)
    } else {
        decimal(n as nat)
    }
}

/// `s` with as many zeros before it as make it `width` characters long.
pub open spec fn zero_padded(s: Seq<char>, width: nat) -> Seq<char>
    decreases width - s.len(),
{
    if s.len() >= width {
        s
    } else {
        zero_padded(seq!['0'] + s, width)
    }
}

/// Decimal notation consists of digits, at least one.
pub proof fn lemma_decimal_digits(n: nat)
    ensures
        decimal(n).len() >= 1,
        forall|i: int| 0 <= i < decimal(n).len() ==> is_digit(#[trigger] decimal(n)[i]),
    decreases n,
{
    if n >= 10 {
        lemma_decimal_digits(n / 10);
    }
}

/// Different numbers have different decimal notations.
pub proof fn lemma_decimal_injective(a: nat, b: nat)
    requires
        decimal(a) == decimal(b),
    ensures
        a == b,
    decreases a + b,
{
    lemma_decimal_digits(a);
    lemma_decimal_digits(b);
    let x = decimal(a);
    let y = decimal(b);
    assert(x.last() == digit(a % 10)) by {
        if a < 10 {
            assert(a % 10 == a);
        }
    }
    assert(y.last() == digit(b % 10)) by {
        if b < 10 {
            assert(b % 10 == b);
        }
    }
    assert(a % 10 == b % 10);
    if a < 10 {
        if b >= 10 {
            lemma_decimal_digits(b / 10);
            assert(y.len() >= 2);
        }
    } else if b < 10 {
        lemma_decimal_digits(a / 10);
        assert(x.len() >= 2);
    } else {
        assert(x.drop_last() =~= decimal(a / 10));
        assert(y.drop_last() =~= decimal(b / 10));
        lemma_decimal_injective(a / 10, b / 10);
    }
}

/// The number that digits stand for.
pub open spec fn number_of(s: Seq<char>) -> int
    decreases s.len(),
{
    if s.len() == 0 {
        0
    } else {
        10 * number_of(s.drop_last()) + (s.last() as int - 48)
    }
}

/// Decimal notation stands for its number.
pub proof fn lemma_number_of_decimal(n: nat)
    ensures
        number_of(decimal(n)) == n,
    decreases n,
{
    if n < 10 {
        assert(seq![digit(n)].drop_last() =~= Seq::<char>::empty());
        assert(number_of(Seq::<char>::empty()) == 0);
    } else {
        lemma_number_of_decimal(n / 10);
        assert(decimal(n).drop_last() =~= decimal(n / 10));
    }
}

/// A zero before digits does not change their number.
pub proof fn lemma_number_of_leading_zero(s: Seq<char>)
    ensures
        number_of(seq!['0'] + s) == number_of(s),
    decreases s.len(),
{
    let longer = seq!['0'] + s;
    if s.len() == 0 {
        assert(longer =~= seq!['0']);
        assert(seq!['0'].drop_last() =~= Seq::<char>::empty());
        assert(number_of(Seq::<char>::empty()) == 0);
    } else {
        lemma_number_of_leading_zero(s.drop_last());
        assert(longer.drop_last() =~= seq!['0'] + s.drop_last());
        assert(longer.last() == s.last());
    }
}

/// Padding keeps the number, and adds digits alone.
pub proof fn lemma_zero_padded(s: Seq<char>, width: nat)
    requires
        forall|i: int| 0 <= i < s.len() ==> is_digit(#[trigger] s[i]),
    ensures
        number_of(zero_padded(s, width)) == number_of(s),
        forall|i: int|
            0 <= i < zero_padded(s, width).len() ==> is_digit(#[trigger] zero_padded(s, width)[i]),
    decreases width - s.len(),
{
    if s.len() < width {
        let longer = seq!['0'] + s;
        assert forall|i: int| 0 <= i < longer.len() implies is_digit(#[trigger] longer[i]) by {
            if i > 0 {
                assert(longer[i] == s[i - 1]);
            }
        }
        lemma_zero_padded(longer, width);
        lemma_number_of_leading_zero(s);
    }
}

/// Decimal notation consists of digits that stand for the number, without leading
/// zeros.
pub proof fn law_decimal_notation_stands_for_the_number(n: nat)
    ensures
        decimal(n).len() >= 1,
        forall|i: int|
            0 <= i < decimal(n).len() ==> '0' <= #[trigger] decimal(n)[i] && decimal(n)[i] <= '9',
        number_of(decimal(n)) == n,
        n > 0 ==> decimal(n)[0] != '0',
    decreases n,
{
    lemma_decimal_digits(n);
    lemma_number_of_decimal(n);
    assert forall|i: int| 0 <= i < decimal(n).len() implies '0' <= #[trigger] decimal(n)[i]
        && decimal(n)[i] <= '9' by {
        assert(is_digit(decimal(n)[i]));
    }
    if n >= 10 {
        law_decimal_notation_stands_for_the_number(n / 10);
        assert(decimal(n)[0] == decimal(n / 10)[0]);
    }
}

/// Digits are read by their places: each has ten times the weight of the one
/// behind it.
pub proof fn law_digits_are_read_by_their_places(s: Seq<char>, ch: char)
    ensures
        number_of(Seq::<char>::empty()) == 0,
        number_of(s.push(ch)) == 10 * number_of(s) + (ch as int - '0' as int),
{
    assert(s.push(ch).drop_last() =~= s);
}

/// Negative numbers have a minus sign before the digits of their magnitude.
pub proof fn law_negative_numbers_have_a_sign(n: int)
    ensures
        n < 0 ==> signed_decimal(n)[0] == '-' && signed_decimal(n).skip(1) == decimal((-n) as nat),
        n >= 0 ==> signed_decimal(n) == decimal(n as nat),
{
    if n < 0 {
        assert(signed_decimal(n).skip(1) =~= decimal((-n) as nat));
    }
}

/// Padding makes a text as long as is asked for, and only zeros are put before it.
pub proof fn law_padding_puts_zeros_before(s: Seq<char>, width: nat)
    ensures
        s.len() >= width ==> zero_padded(s, width) == s,
        s.len() < width ==> zero_padded(s, width).len() == width,
        zero_padded(s, width).skip(zero_padded(s, width).len() - s.len()) == s,
        forall|i: int|
            0 <= i < zero_padded(s, width).len() - s.len() ==> #[trigger] zero_padded(s, width)[i]
                == '0',
    decreases width - s.len(),
{
    let out = zero_padded(s, width);
    if s.len() < width {
        let longer = seq!['0'] + s;
        law_padding_puts_zeros_before(longer, width);
        let cut = out.skip(out.len() - longer.len());
        assert(cut.skip(1) =~= s);
        assert(out.skip(out.len() - s.len()) =~= cut.skip(1));
        assert forall|i: int| 0 <= i < out.len() - s.len() implies #[trigger] out[i] == '0' by {
            if i == out.len() - longer.len() {
                assert(cut[0] == out[i]);
            }
        }
    } else {
        assert(out.skip(0) =~= s);
    }
}

/// Appends a number in decimal notation.
pub fn append_number(out: &mut String, n: u64)
    ensures
        final(out)@ == old(out)@ + decimal(n as nat),
    decreases n,
{
    if n >= 10 {
        append_number(out, n / 10);
    }
    let ghost before = out@;
    let d: u8 = (n % 10) as u8;
    out.push((48 + d) as char);
    proof {
        if n < 10 {
            assert(before.push(digit(n as nat)) =~= before + seq![digit(n as nat)]);
        } else {
            let head = decimal((n / 10) as nat);
            assert((old(out)@ + head).push(digit((n % 10) as nat)) =~= old(out)@ + head.push(
                digit((n % 10) as nat),
            ));
        }
    }
}

/// A number in decimal notation.
pub fn number_text(n: u64) -> (out: String)
    ensures
        out@ == decimal(n as nat),
{
    let mut out: String = String::new();
    append_number(&mut out, n);
    assert(Seq::<char>::empty() + decimal(n as nat) =~= decimal(n as nat));
    out
}

/// A signed number in decimal notation.
pub fn signed_number_text(n: i64) -> (out: String)
    ensures
        out@ == signed_decimal(n as int),
{
    if n < 0 {
        let magnitude: u64 = if n == i64::MIN {
            0x8000_0000_0000_0000u64
        } else {
            (-n) as u64
        };
        let mut out: String = String::new();
        out.push('-');
        append_number(&mut out, magnitude);
        assert(Seq::<char>::empty().push('-') =~= seq!['-']);
        out
    } else {
        number_text(n as u64)
    }
}

/// A number in decimal notation with at least three characters.
pub fn three_digit_text(n: u64) -> (out: String)
    ensures
        out@ == zero_padded(decimal(n as nat), 3),
{
    proof {
        lemma_decimal_digits(n as nat);
        reveal_with_fuel(zero_padded, 4);
    }
    let plain = number_text(n);
    let ghost p = plain@;
    if n < 10 {
        let mut out: String = String::new();
        out.push('0');
        out.push('0');
        out.append(plain.as_str());
        assert(p.len() == 1);
        assert(out@ =~= seq!['0'] + (seq!['0'] + p));
        out
    } else if n < 100 {
        assert(p.len() == 2) by {
            reveal_with_fuel(decimal, 3);
        }
        let mut out: String = String::new();
        out.push('0');
        out.append(plain.as_str());
        assert(out@ =~= seq!['0'] + p);
        out
    } else {
        assert(p.len() >= 3) by {
            reveal_with_fuel(decimal, 3);
            lemma_decimal_digits((n / 100) as nat);
            assert(n / 10 / 10 == n / 100);
        }
        plain
    }
}

} // verus!
