//! Card numbers: sixteen decimal digits, the last of which is a Luhn check
//! digit over the fifteen before it.

use crate::entropy::random_bits;
use crate::text::{
    all_digits, digit_char, digit_of, digit_value, is_digit, lemma_digit_roundtrip,
    lemma_numeral_of_value, lemma_numeral_shape, lemma_pow10_increasing, lemma_pow10_values,
    lemma_value_of_numeral, numeral, numeral_string, numeral_value,
};
use vstd::prelude::*;

verus! {

/// Number of digits in a card number.
pub const CARD_LENGTH: usize = 16;

/// Number of well-formed card numbers: one for each fifteen-digit payload.
pub const PAYLOAD_LIMIT: u64 = 1_000_000_000_000_000;

/// What one digit adds to a Luhn sum: itself, or, at a doubled position, the
/// digit sum of its double.
pub open spec fn luhn_term(d: int, doubled: bool) -> int {
    if !doubled {
        d
    } else if 2 * d > 9 {
        2 * d - 9
    } else {
        2 * d
    }
}

/// The Luhn sum of a digit string. Positions alternate from the right; the
/// rightmost digit is doubled exactly if `doubled` is set.
pub open spec fn luhn_sum(text: Seq<char>, doubled: bool) -> int
    decreases text.len(),
{
    if text.len() == 0 {
        0
    } else {
        luhn_sum(text.drop_last(), !doubled) + luhn_term(digit_value(text.last()), doubled)
    }
}

/// The format of a card number: sixteen ASCII digits whose Luhn sum, the
/// last digit taken plain, is a multiple of ten.
pub open spec fn is_card_text(text: Seq<char>) -> bool {
    &&& text.len() == CARD_LENGTH
    &&& all_digits(text)
    &&& luhn_sum(text, false) % 10 == 0
}

/// The digit that completes the fifteen-digit `payload` to a card number.
pub open spec fn check_digit(payload: nat) -> nat {
    ((10 - luhn_sum(numeral(payload, 15), true) % 10) % 10) as nat
}

/// Why a text is no card number.
#[derive(Clone, Copy, Debug, PartialEq, Eq, Structural)]
pub enum FormatError {
    /// The text does not have sixteen characters.
    WrongLength,
    /// The text has sixteen characters, and one of them is no ASCII digit.
    NotNumeric,
    /// The text has sixteen digits, and their Luhn sum is no multiple of ten.
    BadChecksum,
}

/// A card number. Two card numbers are equal exactly if their digits are,
/// and they are ordered as the numbers that their digits spell.
#[derive(Clone, Copy, Debug, PartialEq, Eq, Structural, PartialOrd, Ord, Hash)]
pub struct CardNumber {
    value: u64,
}

impl View for CardNumber {
    type V = Seq<char>;

    /// The sixteen digits, most significant first.
    closed spec fn view(&self) -> Seq<char> {
        numeral(self.value as nat, CARD_LENGTH as nat)
    }
}

/// The Luhn sum of the last `len` digits of `n`.
fn luhn_total(n: u64, len: usize, doubled: bool) -> (total: u64)
    requires
        len <= 32,
    ensures
        total == luhn_sum(numeral(n as nat, len as nat), doubled),
        total <= 9 * len,
{
    let mut rest: u64 = n;
    let mut done: usize = 0;
    let mut flag = doubled;
    let mut total: u64 = 0;
    while done < len
        invariant
            done <= len <= 32,
            total <= 9 * done,
            luhn_sum(numeral(n as nat, len as nat), doubled) == total + luhn_sum(
                numeral(rest as nat, (len - done) as nat),
                flag,
            ),
        decreases len - done,
    {
        let d: u64 = rest % 10;
        let term: u64 = if !flag {
            d
        } else if 2 * d > 9 {
            2 * d - 9
        } else {
            2 * d
        };
        proof {
            let m = (len - done) as nat;
            let front = numeral((rest / 10) as nat, (m - 1) as nat);
            let whole = numeral(rest as nat, m);
            assert(whole == front.push(digit_char(d as int)));
            assert(whole.drop_last() =~= front);
            lemma_digit_roundtrip(d as int);
        }
        total = total + term;
        rest = rest / 10;
        flag = !flag;
        done = done + 1;
    }
    total
}

impl CardNumber {
    /// What every card number satisfies: its digits have the card format.
    #[verifier::type_invariant]
    pub closed spec fn valid(self) -> bool {
        &&& self.value < 10 * PAYLOAD_LIMIT
        &&& is_card_text(self@)
    }

    /// The card number that the digits `text` spell.
    pub closed spec fn of_text(text: Seq<char>) -> CardNumber {
        CardNumber { value: numeral_value(text) as u64 }
    }

    /// The first fifteen digits, read as a number.
    pub closed spec fn payload(self) -> nat {
        self.value as nat / 10
    }

    /// The card number whose first fifteen digits spell `payload`.
    pub closed spec fn of_payload(payload: nat) -> CardNumber {
        CardNumber { value: (payload * 10 + check_digit(payload)) as u64 }
    }

    /// Every payload below the limit has a card number, and no two payloads
    /// share one.
    pub proof fn lemma_of_payload(payload: nat)
        requires
            payload < PAYLOAD_LIMIT,
        ensures
            Self::of_payload(payload).valid(),
            Self::of_payload(payload).payload() == payload,
    {
        let c = check_digit(payload);
        let n = payload * 10 + c;
        let text = numeral(n, 16);
        let front = numeral(payload, 15);
        assert(n / 10 == payload && n % 10 == c);
        assert(text == front.push(digit_char(c as int)));
        assert(text.drop_last() =~= front);
        lemma_digit_roundtrip(c as int);
        lemma_numeral_shape(n, 16);
    }

    /// A valid card number is the card number of its own payload.
    pub proof fn lemma_payload_determines(self)
        requires
            self.valid(),
        ensures
            self.payload() < PAYLOAD_LIMIT,
            Self::of_payload(self.payload()) == self,
    {
        let n = self.value as nat;
        let p = n / 10;
        let d = n % 10;
        let text = numeral(n, 16);
        let front = numeral(p, 15);
        assert(text == front.push(digit_char(d as int)));
        assert(text.drop_last() =~= front);
        lemma_digit_roundtrip(d as int);
        let s = luhn_sum(front, true);
        assert((s + d) % 10 == 0);
        assert(d == (10 - s % 10) % 10);
    }

    /// A card number is the one that its own digits spell.
    pub proof fn lemma_of_text(self)
        requires
            self.valid(),
        ensures
            is_card_text(self@),
            Self::of_text(self@) == self,
    {
        lemma_pow10_values();
        lemma_value_of_numeral(self.value as nat, 16);
    }

    /// Card numbers with the same digits are the same card number.
    pub proof fn lemma_digits_identify(self, other: CardNumber)
        requires
            self.valid(),
            other.valid(),
            self@ == other@,
        ensures
            self == other,
    {
        lemma_pow10_values();
        lemma_value_of_numeral(self.value as nat, 16);
        lemma_value_of_numeral(other.value as nat, 16);
    }

    /// The card number whose first fifteen digits spell `payload`.
    pub fn from_payload(payload: u64) -> (card: CardNumber)
        requires
            payload < PAYLOAD_LIMIT,
        ensures
            card == Self::of_payload(payload as nat),
            card.valid(),
    {
        let sum = luhn_total(payload, 15, true);
        let check = (10 - sum % 10) % 10;
        proof {
            Self::lemma_of_payload(payload as nat);
        }
        CardNumber { value: payload * 10 + check }
    }

    /// The card number that the random draw `seed` stands for: that of the
    /// payload `seed` modulo `PAYLOAD_LIMIT`.
    pub fn from_seed(seed: u128) -> (card: CardNumber)
        ensures
            card == Self::of_payload((seed % (PAYLOAD_LIMIT as u128)) as nat),
            card.valid(),
    {
        Self::from_payload((seed % (PAYLOAD_LIMIT as u128)) as u64)
    }

    /// A card number drawn at random. It has the card format; that no other
    /// holder has it is for the caller to see to.
    pub fn generate() -> (card: CardNumber)
        ensures
            card.valid(),
    {
        Self::from_seed(random_bits())
    }

    /// Reads a card number from its sixteen digits.
    pub fn parse(text: &str) -> (parsed: Result<CardNumber, FormatError>)
        ensures
            parsed is Ok <==> is_card_text(text@),
            parsed matches Ok(card) ==> card@ == text@ && card.valid() && card == Self::of_text(
                text@,
            ),
            parsed == Err::<CardNumber, FormatError>(FormatError::WrongLength) <==> text@.len()
                != CARD_LENGTH,
            parsed == Err::<CardNumber, FormatError>(FormatError::NotNumeric) <==> text@.len()
                == CARD_LENGTH && !all_digits(text@),
            parsed == Err::<CardNumber, FormatError>(FormatError::BadChecksum) <==> text@.len()
                == CARD_LENGTH && all_digits(text@) && luhn_sum(text@, false) % 10 != 0,
    {
        if text.unicode_len() != CARD_LENGTH {
            return Err(FormatError::WrongLength);
        }
        let mut value: u64 = 0;
        let mut i: usize = 0;
        while i < CARD_LENGTH
            invariant
                i <= CARD_LENGTH,
                text@.len() == CARD_LENGTH,
                all_digits(text@.take(i as int)),
                value == numeral_value(text@.take(i as int)),
            decreases CARD_LENGTH - i,
        {
            let c = text.get_char(i);
            let d = match digit_of(c) {
                Some(d) => d,
                None => {
                    return Err(FormatError::NotNumeric);
                },
            };
            proof {
                let before = text@.take(i as int);
                let now = text@.take(i + 1);
                assert(now.drop_last() =~= before);
                assert(now.last() == c);
                assert forall|j: int| 0 <= j < now.len() implies is_digit(#[trigger] now[j]) by {
                    if j < i {
                        assert(now[j] == before[j]);
                    }
                }
                lemma_numeral_of_value(before);
                lemma_pow10_increasing(i as nat, 15);
                lemma_pow10_values();
            }
            value = value * 10 + d as u64;
            i = i + 1;
        }
        proof {
            assert(text@.take(CARD_LENGTH as int) =~= text@);
            lemma_numeral_of_value(text@);
            lemma_pow10_values();
        }
        if luhn_total(value, CARD_LENGTH, false) % 10 != 0 {
            return Err(FormatError::BadChecksum);
        }
        Ok(CardNumber { value })
    }

    /// The sixteen digits as a string.
    pub fn to_string(&self) -> (s: String)
        ensures
            s@ == self@,
            is_card_text(s@),
    {
        proof {
            use_type_invariant(self);
        }
        numeral_string(self.value, CARD_LENGTH)
    }

    /// Whether this card number comes before `other` in the order of the
    /// numbers that the digits spell.
    pub fn is_before(&self, other: &CardNumber) -> (before: bool)
        ensures
            before == (numeral_value(self@) < numeral_value(other@)),
    {
        self.number() < other.number()
    }

    /// The card number read as an integer.
    pub fn number(&self) -> (n: u64)
        ensures
            n == numeral_value(self@),
            n < 10 * PAYLOAD_LIMIT,
    {
        proof {
            use_type_invariant(self);
            lemma_pow10_values();
            lemma_value_of_numeral(self.value as nat, 16);
        }
        self.value
    }
}

} // verus!
