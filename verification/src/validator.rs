//! Structural and checksum validation of the three number categories.
//!
//! Each validator is a pure function of the text's bytes: a phone number is
//! eleven digits shaped `1[3-9]…`, a bank card number passes the Luhn check,
//! and a national identity number carries a mod-11 weighted checksum and a
//! plausible birth date.

use vstd::prelude::*;
use vstd::string::StrSliceExecFns;
use vstd::string::StringSliceAdditionalSpecFns;

use crate::text::{digits_of, is_all_digit_bytes, is_digit_byte};

verus! {

/// Numeric value of a digit byte.
pub open spec fn digit_val(b: u8) -> int {
    b - 0x30
}

/// A byte allowed as the final check character of an identity number:
/// a digit, `X` or `x`.
pub open spec fn is_check_byte(b: u8) -> bool {
    is_digit_byte(b) || b == 0x58 || b == 0x78
}

/// `x` folded to `X`; other check bytes are their own upper case.
pub open spec fn upper_check_byte(b: u8) -> u8 {
    if b == 0x78 {
        0x58
    } else {
        b
    }
}

/// A doubled Luhn digit, reduced below ten.
pub open spec fn luhn_double(d: int) -> int {
    if 2 * d > 9 {
        2 * d - 9
    } else {
        2 * d
    }
}

/// The Luhn sum of a digit string: counting positions from the rightmost
/// digit starting at one, every digit at an even position is doubled (and
/// reduced below ten), and all values are added.
pub open spec fn luhn_sum(digits: Seq<u8>) -> int
    decreases digits.len(),
{
    if digits.len() == 0 {
        0
    } else {
        let head = if digits.len() % 2 == 0 {
            luhn_double(digit_val(digits.first()))
        } else {
            digit_val(digits.first())
        };
        head + luhn_sum(digits.drop_first())
    }
}

/// The Luhn predicate over a digit string.
pub open spec fn spec_luhn(digits: Seq<u8>) -> bool {
    luhn_sum(digits) % 10 == 0
}

/// A valid phone number: stripped of non-digits it has exactly eleven
/// digits, starts with `1`, and its second digit is `3` to `9`.
pub open spec fn spec_valid_phone(bytes: Seq<u8>) -> bool {
    let d = digits_of(bytes);
    d.len() == 11 && d[0] == 0x31 && 0x33 <= d[1] <= 0x39
}

/// A valid bank card number: stripped of non-digits it has sixteen to
/// nineteen digits and passes the Luhn check.
pub open spec fn spec_valid_bank_card(bytes: Seq<u8>) -> bool {
    let d = digits_of(bytes);
    16 <= d.len() <= 19 && spec_luhn(d)
}

/// The weights of the first seventeen identity-number digits.
pub open spec fn id_weights() -> Seq<int> {
    seq![7, 9, 10, 5, 8, 4, 2, 1, 6, 3, 7, 9, 10, 5, 8, 4, 2]
}

/// The check byte that a weighted sum remainder demands.
pub open spec fn id_check_codes() -> Seq<u8> {
    seq![0x31, 0x30, 0x58, 0x39, 0x38, 0x37, 0x36, 0x35, 0x34, 0x33, 0x32]
}

/// The weighted sum of the first `n` digits of an identity number.
pub open spec fn id_checksum_sum(bytes: Seq<u8>, n: int) -> int
    decreases n,
{
    if n <= 0 {
        0
    } else {
        id_checksum_sum(bytes, n - 1) + digit_val(bytes[n - 1]) * id_weights()[n - 1]
    }
}

/// The identity-number checksum holds: the folded last byte equals the
/// check code of the weighted sum of the first seventeen digits, mod 11.
pub open spec fn spec_id_checksum_ok(bytes: Seq<u8>) -> bool {
    upper_check_byte(bytes[17]) == id_check_codes()[id_checksum_sum(bytes, 17) % 11]
}

/// The Gregorian leap-year rule.
pub open spec fn spec_is_leap_year(year: int) -> bool {
    (year % 4 == 0 && year % 100 != 0) || year % 400 == 0
}

/// Days in a month; zero for a month outside one to twelve.
pub open spec fn spec_days_in_month(year: int, month: int) -> int {
    if month == 1 || month == 3 || month == 5 || month == 7 || month == 8 || month == 10 || month
        == 12 {
        31
    } else if month == 4 || month == 6 || month == 9 || month == 11 {
        30
    } else if month == 2 {
        if spec_is_leap_year(year) {
            29
        } else {
            28
        }
    } else {
        0
    }
}

/// The year spelled by bytes 6 to 9 of an identity number.
pub open spec fn id_year(bytes: Seq<u8>) -> int {
    digit_val(bytes[6]) * 1000 + digit_val(bytes[7]) * 100 + digit_val(bytes[8]) * 10 + digit_val(
        bytes[9],
    )
}

/// The month spelled by bytes 10 and 11.
pub open spec fn id_month(bytes: Seq<u8>) -> int {
    digit_val(bytes[10]) * 10 + digit_val(bytes[11])
}

/// The day spelled by bytes 12 and 13.
pub open spec fn id_day(bytes: Seq<u8>) -> int {
    digit_val(bytes[12]) * 10 + digit_val(bytes[13])
}

/// The birth-date check: year 1900 to 2099, month 1 to 12, day within the
/// month's calendar length.
pub open spec fn spec_id_birth_date_ok(bytes: Seq<u8>) -> bool {
    &&& 1900 <= id_year(bytes) <= 2099
    &&& 1 <= id_month(bytes) <= 12
    &&& 1 <= id_day(bytes) <= spec_days_in_month(id_year(bytes), id_month(bytes))
}

/// A valid identity number: eighteen bytes, the first seventeen digits, the
/// last a check byte, and both the checksum and the birth date in order.
pub open spec fn spec_valid_id_card(bytes: Seq<u8>) -> bool {
    &&& bytes.len() == 18
    &&& forall|i: int| 0 <= i < 17 ==> is_digit_byte(#[trigger] bytes[i])
    &&& is_check_byte(bytes[17])
    &&& spec_id_checksum_ok(bytes)
    &&& spec_id_birth_date_ok(bytes)
}

/// Law: on a text made of digits alone, phone validity is exactly the shape
/// test — eleven digits, the first `1`, the second `3` to `9`; any other
/// digit count or prefix fails.
pub proof fn lemma_phone_rule_on_digits(bytes: Seq<u8>)
    requires
        is_all_digit_bytes(bytes),
    ensures
        spec_valid_phone(bytes) <==> (bytes.len() == 11 && bytes[0] == 0x31 && 0x33 <= bytes[1]
            <= 0x39),
{
    crate::text::lemma_digits_of_identity(bytes);
}

/// Law: on a text of sixteen to nineteen digits, bank card validity is
/// exactly the Luhn predicate.
pub proof fn lemma_bank_card_rule_on_digits(bytes: Seq<u8>)
    requires
        is_all_digit_bytes(bytes),
        16 <= bytes.len() <= 19,
    ensures
        spec_valid_bank_card(bytes) <==> spec_luhn(bytes),
{
    crate::text::lemma_digits_of_identity(bytes);
}

/// The first `n` weighted digits are blind to later bytes.
proof fn lemma_id_checksum_sum_prefix(b1: Seq<u8>, b2: Seq<u8>, n: int)
    requires
        forall|i: int| 0 <= i < n ==> b1[i] == b2[i],
    ensures
        id_checksum_sum(b1, n) == id_checksum_sum(b2, n),
    decreases n,
{
    if n > 0 {
        lemma_id_checksum_sum_prefix(b1, b2, n - 1);
    }
}

/// Law: the checksum pins the check character. A valid identity number
/// stays valid under no other final character — only the computed check
/// code (up to case folding of `x`) passes.
pub proof fn lemma_id_check_character_unique(bytes: Seq<u8>, c: u8)
    requires
        spec_valid_id_card(bytes),
        upper_check_byte(c) != upper_check_byte(bytes[17]),
    ensures
        !spec_valid_id_card(bytes.update(17, c)),
{
    let b2 = bytes.update(17, c);
    lemma_id_checksum_sum_prefix(bytes, b2, 17);
    assert(b2[17] == c);
}

/// The category validators.
pub struct Validator;

impl Validator {
    /// The weight of digit position `i`.
    fn id_weight_at(i: usize) -> (w: u32)
        requires
            i < 17,
        ensures
            w == id_weights()[i as int],
    {
        match i {
            0 => 7,
            1 => 9,
            2 => 10,
            3 => 5,
            4 => 8,
            5 => 4,
            6 => 2,
            7 => 1,
            8 => 6,
            9 => 3,
            10 => 7,
            11 => 9,
            12 => 10,
            13 => 5,
            14 => 8,
            15 => 4,
            _ => 2,
        }
    }

    /// The check byte demanded by remainder `r`.
    fn id_check_code_at(r: usize) -> (c: u8)
        requires
            r < 11,
        ensures
            c == id_check_codes()[r as int],
    {
        match r {
            0 => 0x31,
            1 => 0x30,
            2 => 0x58,
            3 => 0x39,
            4 => 0x38,
            5 => 0x37,
            6 => 0x36,
            7 => 0x35,
            8 => 0x34,
            9 => 0x33,
            _ => 0x32,
        }
    }

    /// Days in `month` of `year`, by the calendar rule alone.
    pub fn days_in_month(year: u32, month: u32) -> (d: u32)
        ensures
            d == spec_days_in_month(year as int, month as int),
    {
        match month {
            1 | 3 | 5 | 7 | 8 | 10 | 12 => 31,
            4 | 6 | 9 | 11 => 30,
            2 => {
                if (year % 4 == 0 && year % 100 != 0) || year % 400 == 0 {
                    29
                } else {
                    28
                }
            },
            _ => 0,
        }
    }

    /// Whether `id_card` is a valid national identity number.
    pub fn validate_id_card(id_card: &str) -> (r: bool)
        ensures
            r == spec_valid_id_card(id_card.spec_bytes()),
    {
        let bytes = id_card.as_bytes();
        if bytes.len() != 18 {
            return false;
        }
        let mut i: usize = 0;
        while i < 17
            invariant
                0 <= i <= 17,
                bytes@.len() == 18,
                bytes@ == id_card.spec_bytes(),
                forall|j: int| 0 <= j < i ==> is_digit_byte(#[trigger] bytes@[j]),
            decreases 17 - i,
        {
            let b = bytes[i];
            if !(0x30 <= b && b <= 0x39) {
                return false;
            }
            i = i + 1;
        }
        let last = bytes[17];
        if !((0x30 <= last && last <= 0x39) || last == 0x58 || last == 0x78) {
            return false;
        }
        if !Self::verify_id_card_checksum(bytes) {
            return false;
        }
        Self::verify_id_card_birth_date(bytes)
    }

    /// The mod-11 weighted checksum of an identity number.
    fn verify_id_card_checksum(bytes: &[u8]) -> (r: bool)
        requires
            bytes@.len() == 18,
            forall|j: int| 0 <= j < 17 ==> is_digit_byte(#[trigger] bytes@[j]),
            is_check_byte(bytes@[17]),
        ensures
            r == spec_id_checksum_ok(bytes@),
    {
        let mut sum: u32 = 0;
        let mut i: usize = 0;
        while i < 17
            invariant
                0 <= i <= 17,
                bytes@.len() == 18,
                forall|j: int| 0 <= j < 17 ==> is_digit_byte(#[trigger] bytes@[j]),
                sum == id_checksum_sum(bytes@, i as int),
                sum <= 90 * i,
            decreases 17 - i,
        {
            let b = bytes[i];
            let w = Self::id_weight_at(i);
            proof {
                assert(is_digit_byte(bytes@[i as int]));
                assert(0 <= digit_val(bytes@[i as int]) <= 9);
                assert(1 <= id_weights()[i as int] <= 10);
                assert(id_checksum_sum(bytes@, i + 1) == id_checksum_sum(bytes@, i as int)
                    + digit_val(bytes@[i as int]) * id_weights()[i as int]);
                assert(digit_val(bytes@[i as int]) * id_weights()[i as int] <= 90)
                    by (nonlinear_arith)
                    requires
                        0 <= digit_val(bytes@[i as int]) <= 9,
                        1 <= id_weights()[i as int] <= 10,
                ;
                assert(digit_val(bytes@[i as int]) * id_weights()[i as int] >= 0)
                    by (nonlinear_arith)
                    requires
                        0 <= digit_val(bytes@[i as int]) <= 9,
                        1 <= id_weights()[i as int] <= 10,
                ;
            }
            sum = sum + (b - 0x30) as u32 * w;
            i = i + 1;
        }
        let remainder = (sum % 11) as usize;
        let expected = Self::id_check_code_at(remainder);
        let last = bytes[17];
        let folded = if last == 0x78 {
            0x58
        } else {
            last
        };
        folded == expected
    }

    /// The birth-date check of an identity number.
    fn verify_id_card_birth_date(bytes: &[u8]) -> (r: bool)
        requires
            bytes@.len() == 18,
            forall|j: int| 0 <= j < 17 ==> is_digit_byte(#[trigger] bytes@[j]),
        ensures
            r == spec_id_birth_date_ok(bytes@),
    {
        let year: u32 = (bytes[6] - 0x30) as u32 * 1000 + (bytes[7] - 0x30) as u32 * 100 + (
        bytes[8] - 0x30) as u32 * 10 + (bytes[9] - 0x30) as u32;
        let month: u32 = (bytes[10] - 0x30) as u32 * 10 + (bytes[11] - 0x30) as u32;
        let day: u32 = (bytes[12] - 0x30) as u32 * 10 + (bytes[13] - 0x30) as u32;
        if !(1900 <= year && year <= 2099) {
            return false;
        }
        if !(1 <= month && month <= 12) {
            return false;
        }
        let days = Self::days_in_month(year, month);
        1 <= day && day <= days
    }

    /// Whether `card_number`, stripped of separators, is a valid bank card
    /// number by length and Luhn check.
    pub fn validate_bank_card(card_number: &str) -> (r: bool)
        ensures
            r == spec_valid_bank_card(card_number.spec_bytes()),
    {
        let clean = crate::text::clean_digits(card_number);
        let cs = clean.as_str();
        let ghost d = digits_of(card_number.spec_bytes());
        proof {
            crate::text::lemma_digits_of_all_digits(card_number.spec_bytes());
            crate::text::lemma_ascii_str_bytes(cs, d);
        }
        let len = cs.unicode_len();
        if !(16 <= len && len <= 19) {
            return false;
        }
        Self::luhn_check(cs)
    }

    /// The Luhn check over a string of digits; false if any character is
    /// not a digit.
    pub fn luhn_check(number: &str) -> (r: bool)
        ensures
            r == (is_all_digit_bytes(number.spec_bytes()) && spec_luhn(number.spec_bytes())),
    {
        let bytes = number.as_bytes();
        let n = bytes.len();
        let mut sum: u32 = 0;
        let mut i: usize = 0;
        proof {
            assert(bytes@.skip(0) =~= bytes@);
        }
        while i < n
            invariant
                0 <= i <= n,
                n == bytes@.len(),
                bytes@ == number.spec_bytes(),
                forall|j: int| 0 <= j < i ==> is_digit_byte(#[trigger] bytes@[j]),
                0 <= sum < 10,
                (sum + luhn_sum(bytes@.skip(i as int))) % 10 == luhn_sum(bytes@) % 10,
            decreases n - i,
        {
            let b = bytes[i];
            if !(0x30 <= b && b <= 0x39) {
                proof {
                    assert(!is_digit_byte(number.spec_bytes()[i as int]));
                }
                return false;
            }
            let d = (b - 0x30) as u32;
            let term: u32 = if (n - i) % 2 == 0 {
                let doubled = d * 2;
                if doubled > 9 {
                    doubled - 9
                } else {
                    doubled
                }
            } else {
                d
            };
            proof {
                let rest = bytes@.skip(i as int);
                assert(rest.len() == n - i);
                assert(rest.first() == bytes@[i as int]);
                assert(rest.drop_first() =~= bytes@.skip(i + 1));
                assert(luhn_sum(rest) == term + luhn_sum(bytes@.skip(i + 1)));
                vstd::arithmetic::div_mod::lemma_add_mod_noop(
                    sum + term,
                    luhn_sum(bytes@.skip(i + 1)),
                    10,
                );
                vstd::arithmetic::div_mod::lemma_add_mod_noop(
                    (sum + term) % 10,
                    luhn_sum(bytes@.skip(i + 1)),
                    10,
                );
                vstd::arithmetic::div_mod::lemma_mod_twice(sum + term, 10);
            }
            sum = (sum + term) % 10;
            i = i + 1;
        }
        proof {
            assert(bytes@.skip(n as int) =~= Seq::<u8>::empty());
            assert(luhn_sum(bytes@) % 10 == sum % 10);
            vstd::arithmetic::div_mod::lemma_small_mod(sum as nat, 10);
            assert(is_all_digit_bytes(number.spec_bytes()));
        }
        sum == 0
    }

    /// Whether `phone`, stripped of separators, is a valid mobile phone
    /// number: eleven digits, the first `1`, the second `3` to `9`.
    pub fn validate_phone(phone: &str) -> (r: bool)
        ensures
            r == spec_valid_phone(phone.spec_bytes()),
    {
        let clean = crate::text::clean_digits(phone);
        let cs = clean.as_str();
        let ghost d = digits_of(phone.spec_bytes());
        proof {
            crate::text::lemma_digits_of_all_digits(phone.spec_bytes());
            crate::text::lemma_ascii_str_bytes(cs, d);
        }
        if cs.unicode_len() != 11 {
            return false;
        }
        let first = cs.get_ascii(0);
        proof {
            assert(cs@[0] == d[0] as char);
            assert(first == d[0]);
        }
        if first != 0x31 {
            return false;
        }
        let second = cs.get_ascii(1);
        proof {
            assert(cs@[1] == d[1] as char);
            assert(second == d[1]);
        }
        0x33 <= second && second <= 0x39
    }
}

} // verus!
