//! Decimal numerals and the few string helpers the rest of the crate shares.

use vstd::prelude::*;
use vstd::string::*;

verus! {

/// Whether `c` is one of the ASCII digits `0` to `9`.
pub open spec fn is_digit(c: char) -> bool {
    48 <= c as int <= 57
}

/// The number that the ASCII digit `c` stands for.
pub open spec fn digit_value(c: char) -> int {
    c as int - 48
}

/// The ASCII digit that stands for `d`, for `d` from 0 to 9.
pub open spec fn digit_char(d: int) -> char {
    (d + 48) as char
}

/// Whether every character of `text` is an ASCII digit.
pub open spec fn all_digits(text: Seq<char>) -> bool {
    forall|i: int| 0 <= i < text.len() ==> is_digit(#[trigger] text[i])
}

/// Ten to the power `e`.
pub open spec fn pow10(e: nat) -> nat
    decreases e,
{
    if e == 0 {
        1
    } else {
        10 * pow10((e - 1) as nat)
    }
}

/// The last `len` decimal digits of `n`, most significant first, with leading
/// zeros where `n` is short.
pub open spec fn numeral(n: nat, len: nat) -> Seq<char>
    decreases len,
{
    if len == 0 {
        Seq::empty()
    } else {
        numeral(n / 10, (len - 1) as nat).push(digit_char((n % 10) as int))
    }
}

/// The number that a string of decimal digits denotes.
pub open spec fn numeral_value(text: Seq<char>) -> nat
    decreases text.len(),
{
    if text.len() == 0 {
        0
    } else {
        (numeral_value(text.drop_last()) * 10 + digit_value(text.last())) as nat
    }
}

/// The shortest decimal numeral of `n`.
pub open spec fn decimal_nat(n: nat) -> Seq<char>
    decreases n,
{
    if n < 10 {
        seq![digit_char(n as int)]
    } else {
        decimal_nat(n / 10).push(digit_char((n % 10) as int))
    }
}

/// The decimal numeral of an integer: a minus sign before a negative one, no
/// sign before the others, no leading zeros.
pub open spec fn decimal(v: int) -> Seq<char> {
    if v < 0 {
        seq!['-'] + decimal_nat((-v) as nat)
    } else {
        decimal_nat(v as nat)
    }
}

/// The lowercase hexadecimal digit that stands for `d`, for `d` from 0 to 15.
pub open spec fn hex_char(d: int) -> char {
    if d < 10 {
        (d + 48) as char
    } else {
        (d + 87) as char
    }
}

/// The last `len` hexadecimal digits of `n`, most significant first, in
/// lowercase, with leading zeros where `n` is short.
pub open spec fn hex_numeral(n: nat, len: nat) -> Seq<char>
    decreases len,
{
    if len == 0 {
        Seq::empty()
    } else {
        hex_numeral(n / 16, (len - 1) as nat).push(hex_char((n % 16) as int))
    }
}

/// `digit_char` and `digit_value` undo each other on the ten digits.
pub proof fn lemma_digit_roundtrip(d: int)
    requires
        0 <= d <= 9,
    ensures
        is_digit(digit_char(d)),
        digit_value(digit_char(d)) == d,
{
}

/// A digit is the `digit_char` of its value.
pub proof fn lemma_char_roundtrip(c: char)
    requires
        is_digit(c),
    ensures
        0 <= digit_value(c) <= 9,
        digit_char(digit_value(c)) == c,
{
}

/// `pow10` grows with its exponent.
pub proof fn lemma_pow10_increasing(a: nat, b: nat)
    requires
        a <= b,
    ensures
        0 < pow10(a) <= pow10(b),
    decreases b,
{
    if b == 0 {
    } else if a == b {
        lemma_pow10_increasing(0, (b - 1) as nat);
    } else {
        lemma_pow10_increasing(a, (b - 1) as nat);
    }
}

/// The two powers of ten that bound card numbers.
pub proof fn lemma_pow10_values()
    ensures
        pow10(15) == 1_000_000_000_000_000,
        pow10(16) == 10_000_000_000_000_000,
{
    reveal_with_fuel(pow10, 17);
}

/// A numeral of `len` digits has `len` characters, all of them digits.
pub proof fn lemma_numeral_shape(n: nat, len: nat)
    ensures
        numeral(n, len).len() == len,
        all_digits(numeral(n, len)),
    decreases len,
{
    if len > 0 {
        lemma_numeral_shape(n / 10, (len - 1) as nat);
        lemma_digit_roundtrip((n % 10) as int);
    }
}

/// A digit string is the numeral of its own value.
pub proof fn lemma_numeral_of_value(text: Seq<char>)
    requires
        all_digits(text),
    ensures
        numeral(numeral_value(text), text.len()) == text,
        numeral_value(text) < pow10(text.len()),
    decreases text.len(),
{
    if text.len() > 0 {
        let front = text.drop_last();
        lemma_numeral_of_value(front);
        lemma_char_roundtrip(text.last());
        let v = numeral_value(front);
        let d = digit_value(text.last());
        assert((v * 10 + d) / 10 == v);
        assert((v * 10 + d) % 10 == d);
        assert(front.push(text.last()) =~= text);
    }
}

/// A number below ten to the `len` is the value of its `len`-digit numeral.
pub proof fn lemma_value_of_numeral(n: nat, len: nat)
    requires
        n < pow10(len),
    ensures
        numeral_value(numeral(n, len)) == n,
    decreases len,
{
    if len > 0 {
        let front = numeral(n / 10, (len - 1) as nat);
        let d = (n % 10) as int;
        lemma_value_of_numeral(n / 10, (len - 1) as nat);
        lemma_digit_roundtrip(d);
        assert(front.push(digit_char(d)).drop_last() =~= front);
    }
}

/// The shortest numeral of a number is made of digits and denotes the number.
pub proof fn lemma_decimal_nat(n: nat)
    ensures
        decimal_nat(n).len() > 0,
        all_digits(decimal_nat(n)),
        numeral_value(decimal_nat(n)) == n,
    decreases n,
{
    if n < 10 {
        lemma_digit_roundtrip(n as int);
        let text = decimal_nat(n);
        assert(text.drop_last() =~= Seq::<char>::empty());
        assert(numeral_value(text.drop_last()) == 0);
    } else {
        let front = decimal_nat(n / 10);
        let d = (n % 10) as int;
        lemma_decimal_nat(n / 10);
        lemma_digit_roundtrip(d);
        assert(front.push(digit_char(d)).drop_last() =~= front);
    }
}

/// Different integers have different numerals.
pub proof fn lemma_decimal_injective(a: int, b: int)
    requires
        decimal(a) == decimal(b),
    ensures
        a == b,
{
    let minus = seq!['-'];
    if a < 0 {
        lemma_decimal_nat((-a) as nat);
    } else {
        lemma_decimal_nat(a as nat);
    }
    if b < 0 {
        lemma_decimal_nat((-b) as nat);
    } else {
        lemma_decimal_nat(b as nat);
    }
    if a < 0 && b < 0 {
        let x = decimal_nat((-a) as nat);
        let y = decimal_nat((-b) as nat);
        assert((minus + x).drop_first() =~= x);
        assert((minus + y).drop_first() =~= y);
    } else if a < 0 {
        assert(decimal(a)[0] == '-');
        assert(is_digit(decimal(b)[0]));
    } else if b < 0 {
        assert(decimal(b)[0] == '-');
        assert(is_digit(decimal(a)[0]));
    }
}

/// The one-character string of the digit `d`.
fn digit_str(d: u8) -> (s: &'static str)
    requires
        d <= 9,
    ensures
        s@ == seq![digit_char(d as int)],
{
    proof {
        reveal_strlit("0");
        reveal_strlit("1");
        reveal_strlit("2");
        reveal_strlit("3");
        reveal_strlit("4");
        reveal_strlit("5");
        reveal_strlit("6");
        reveal_strlit("7");
        reveal_strlit("8");
        reveal_strlit("9");
    }
    let s = match d {
        0 => "0",
        1 => "1",
        2 => "2",
        3 => "3",
        4 => "4",
        5 => "5",
        6 => "6",
        7 => "7",
        8 => "8",
        _ => "9",
    };
    assert(s@ =~= seq![digit_char(d as int)]);
    s
}

/// The one-character string of the hexadecimal digit `d`.
fn hex_str(d: u8) -> (s: &'static str)
    requires
        d <= 15,
    ensures
        s@ == seq![hex_char(d as int)],
{
    proof {
        reveal_strlit("a");
        reveal_strlit("b");
        reveal_strlit("c");
        reveal_strlit("d");
        reveal_strlit("e");
        reveal_strlit("f");
    }
    if d < 10 {
        digit_str(d)
    } else {
        let s = match d {
            10 => "a",
            11 => "b",
            12 => "c",
            13 => "d",
            14 => "e",
            _ => "f",
        };
        assert(s@ =~= seq![hex_char(d as int)]);
        s
    }
}

/// Renders the last `len` hexadecimal digits of `n`.
pub fn hex_string(n: u128, len: usize) -> (s: String)
    ensures
        s@ == hex_numeral(n as nat, len as nat),
{
    let mut rest: u128 = n;
    let mut done: usize = 0;
    let mut tail = String::new();
    while done < len
        invariant
            done <= len,
            hex_numeral(n as nat, len as nat) == hex_numeral(rest as nat, (len - done) as nat)
                + tail@,
        decreases len - done,
    {
        let d: u8 = (rest % 16) as u8;
        let mut next = String::from_str(hex_str(d));
        next.append(tail.as_str());
        proof {
            let m = (len - done) as nat;
            let front = hex_numeral((rest / 16) as nat, (m - 1) as nat);
            assert(hex_numeral(rest as nat, m) == front.push(hex_char(d as int)));
            assert(front.push(hex_char(d as int)) + tail@ =~= front + next@);
        }
        tail = next;
        rest = rest / 16;
        done = done + 1;
    }
    assert(hex_numeral(rest as nat, 0) + tail@ =~= tail@);
    tail
}

/// The value of `c` where it is an ASCII digit.
pub fn digit_of(c: char) -> (d: Option<u8>)
    ensures
        d is Some <==> is_digit(c),
        d matches Some(v) ==> v == digit_value(c),
{
    if c >= '0' && c <= '9' {
        Some((c as u32 - 48) as u8)
    } else {
        None
    }
}

/// Renders the last `len` decimal digits of `n`.
pub fn numeral_string(n: u64, len: usize) -> (s: String)
    ensures
        s@ == numeral(n as nat, len as nat),
{
    let mut rest: u64 = n;
    let mut done: usize = 0;
    let mut tail = String::new();
    while done < len
        invariant
            done <= len,
            numeral(n as nat, len as nat) == numeral(rest as nat, (len - done) as nat) + tail@,
        decreases len - done,
    {
        let d: u8 = (rest % 10) as u8;
        let mut next = String::from_str(digit_str(d));
        next.append(tail.as_str());
        proof {
            let m = (len - done) as nat;
            let front = numeral((rest / 10) as nat, (m - 1) as nat);
            assert(numeral(rest as nat, m) == front.push(digit_char(d as int)));
            assert(front.push(digit_char(d as int)) + tail@ =~= front + next@);
        }
        tail = next;
        rest = rest / 10;
        done = done + 1;
    }
    assert(numeral(rest as nat, 0) + tail@ =~= tail@);
    tail
}

/// Renders `n` in decimal without leading zeros.
pub fn decimal_u64(n: u64) -> (s: String)
    ensures
        s@ == decimal_nat(n as nat),
    decreases n,
{
    if n < 10 {
        let s = String::from_str(digit_str(n as u8));
        s
    } else {
        let mut s = decimal_u64(n / 10);
        s.append(digit_str((n % 10) as u8));
        assert(s@ =~= decimal_nat(n as nat));
        s
    }
}

/// Renders `v` in decimal, as `decimal` defines it.
pub fn decimal_i64(v: i64) -> (s: String)
    ensures
        s@ == decimal(v as int),
{
    if v < 0 {
        let magnitude: u64 = (-(v as i128)) as u64;
        let mut s = String::from_str("-");
        let digits = decimal_u64(magnitude);
        s.append(digits.as_str());
        proof {
            reveal_strlit("-");
            assert(s@ =~= decimal(v as int));
        }
        s
    } else {
        decimal_u64(v as u64)
    }
}

} // verus!
