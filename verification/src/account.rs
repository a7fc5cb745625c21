//! Rules for account identifiers of payment methods: which are acceptable,
//! and what is kept of them.
//!
//! The kind of a payment method is its type in lower case. Cards must pass
//! the Luhn check. Of an identifier only a masked form is ever kept.

use crate::text::{byte_len, lowercase, same_text, to_lowercase, trim, trimmed};
use vstd::prelude::*;
use vstd::string::*;

verus! {

pub open spec fn is_digit(c: char) -> bool {
    '0' <= c <= '9'
}

pub open spec fn is_alphanumeric(c: char) -> bool {
    is_digit(c) || 'a' <= c <= 'z' || 'A' <= c <= 'Z'
}

pub open spec fn all_digits(s: Seq<char>) -> bool {
    forall|i: int| 0 <= i < s.len() ==> is_digit(#[trigger] s[i])
}

pub open spec fn all_alphanumeric(s: Seq<char>) -> bool {
    forall|i: int| 0 <= i < s.len() ==> is_alphanumeric(#[trigger] s[i])
}

/// The number that a decimal digit stands for.
pub open spec fn digit_value(c: char) -> int {
    c as u32 - 48
}

/// What a digit adds to the Luhn sum: itself, or, where it is doubled, twice
/// itself less nine if that exceeds nine.
pub open spec fn luhn_term(d: int, doubled: bool) -> int {
    if doubled {
        if 2 * d > 9 {
            2 * d - 9
        } else {
            2 * d
        }
    } else {
        d
    }
}

/// The Luhn sum of the digits `s`, counted from the right; `doubled` says
/// whether the rightmost digit is doubled, and doubling alternates from
/// there.
pub open spec fn luhn_sum(s: Seq<char>, doubled: bool) -> int
    decreases s.len(),
{
    if s.len() == 0 {
        0
    } else {
        luhn_term(digit_value(s.last()), doubled) + luhn_sum(s.drop_last(), !doubled)
    }
}

/// `s` consists of decimal digits whose Luhn sum, with every second digit
/// from the right doubled, is a multiple of ten.
pub open spec fn luhn_valid(s: Seq<char>) -> bool {
    all_digits(s) && luhn_sum(s, false) % 10 == 0
}

/// Digits and ASCII letters are ASCII characters.
proof fn lemma_only_ascii(s: Seq<char>)
    ensures
        all_alphanumeric(s) ==> vstd::utf8::is_ascii_chars(s),
        all_digits(s) ==> all_alphanumeric(s),
{
    if all_alphanumeric(s) {
        assert forall|i: int| 0 <= i < s.len() implies '\0' <= #[trigger] s[i] <= '\u{7f}' by {
            assert(is_alphanumeric(s[i]));
        }
    }
    if all_digits(s) {
        assert forall|i: int| 0 <= i < s.len() implies is_alphanumeric(#[trigger] s[i]) by {
            assert(is_digit(s[i]));
        }
    }
}

/// Whether `number` passes the Luhn check.
pub fn luhn_check(number: &str) -> (r: bool)
    ensures
        r == luhn_valid(number@),
{
    broadcast use {is_ascii_spec_bytes, vstd::utf8::is_ascii_chars_encode_utf8};

    if !number.is_ascii() {
        proof {
            lemma_only_ascii(number@);
        }
        return false;
    }
    let bytes = number.as_bytes();
    let ghost s = number@;
    assert(bytes@.len() == s.len());
    let mut i: usize = bytes.len();
    let mut sum: u32 = 0;
    let mut alt = false;
    let ghost mut acc: int = 0;
    assert(s.subrange(0, i as int) =~= s);
    while i > 0
        invariant
            i <= bytes@.len(),
            s == number@,
            bytes@.len() == s.len(),
            vstd::utf8::is_ascii_chars(s),
            forall|j: int| 0 <= j < s.len() ==> #[trigger] s[j] as u8 == bytes@[j],
            0 <= sum < 10,
            sum == acc % 10,
            0 <= acc,
            forall|j: int| i <= j < s.len() ==> is_digit(#[trigger] s[j]),
            luhn_sum(s, false) == acc + luhn_sum(s.subrange(0, i as int), alt),
        decreases i,
    {
        let b = bytes[i - 1];
        let ghost c = s[i - 1];
        assert(c as u8 == b);
        assert('\0' <= c <= '\u{7f}');
        if b < 48 || b > 57 {
            assert(!is_digit(c));
            return false;
        }
        assert(is_digit(c));
        let mut d: u32 = (b - 48) as u32;
        assert(d == digit_value(c));
        if alt {
            d = d * 2;
            if d > 9 {
                d = d - 9;
            }
        }
        proof {
            let prefix = s.subrange(0, i as int);
            assert(prefix.last() == c);
            assert(prefix.drop_last() =~= s.subrange(0, i - 1));
            acc = acc + d;
        }
        sum = (sum + d) % 10;
        alt = !alt;
        i = i - 1;
    }
    sum == 0
}

/// Whether `s` consists of decimal digits.
fn digits_only(s: &str) -> (r: bool)
    ensures
        r == all_digits(s@),
        r ==> s@.len() == vstd::utf8::encode_utf8(s@).len(),
{
    broadcast use {is_ascii_spec_bytes, vstd::utf8::is_ascii_chars_encode_utf8};

    if !s.is_ascii() {
        proof {
            lemma_only_ascii(s@);
        }
        return false;
    }
    let bytes = s.as_bytes();
    let mut i: usize = 0;
    while i < bytes.len()
        invariant
            i <= bytes@.len(),
            bytes@.len() == s@.len(),
            vstd::utf8::is_ascii_chars(s@),
            forall|j: int| 0 <= j < s@.len() ==> #[trigger] s@[j] as u8 == bytes@[j],
            forall|j: int| 0 <= j < i ==> is_digit(#[trigger] s@[j]),
        decreases bytes@.len() - i,
    {
        let b = bytes[i];
        let ghost c = s@[i as int];
        assert(c as u8 == b);
        assert('\0' <= c <= '\u{7f}');
        if b < 48 || b > 57 {
            assert(!is_digit(c));
            return false;
        }
        i += 1;
    }
    true
}

/// Whether `s` consists of ASCII letters and decimal digits.
fn alphanumeric_only(s: &str) -> (r: bool)
    ensures
        r == all_alphanumeric(s@),
        r ==> s@.len() == vstd::utf8::encode_utf8(s@).len(),
{
    broadcast use {is_ascii_spec_bytes, vstd::utf8::is_ascii_chars_encode_utf8};

    if !s.is_ascii() {
        proof {
            lemma_only_ascii(s@);
        }
        return false;
    }
    let bytes = s.as_bytes();
    let mut i: usize = 0;
    while i < bytes.len()
        invariant
            i <= bytes@.len(),
            bytes@.len() == s@.len(),
            vstd::utf8::is_ascii_chars(s@),
            forall|j: int| 0 <= j < s@.len() ==> #[trigger] s@[j] as u8 == bytes@[j],
            forall|j: int| 0 <= j < i ==> is_alphanumeric(#[trigger] s@[j]),
        decreases bytes@.len() - i,
    {
        let b = bytes[i];
        let ghost c = s@[i as int];
        assert(c as u8 == b);
        assert('\0' <= c <= '\u{7f}');
        let ok = (48 <= b && b <= 57) || (97 <= b && b <= 122) || (65 <= b && b <= 90);
        if !ok {
            assert(!is_alphanumeric(c));
            return false;
        }
        i += 1;
    }
    true
}

/// Whether `identifier` is acceptable for a payment method of kind `kind`.
/// Surrounding whitespace does not count, and an identifier that is empty
/// without it is never acceptable. A card has 13 to 19 digits that pass the
/// Luhn check; a wallet has 7 to 15 digits; an IBAN or bank account has 8 to
/// 34 ASCII letters and digits; for any other kind there is no further rule.
pub open spec fn account_ok(kind: Seq<char>, identifier: Seq<char>) -> bool {
    let s = trimmed(identifier);
    if s.len() == 0 {
        false
    } else if kind == "card"@ {
        all_digits(s) && 13 <= s.len() <= 19 && luhn_valid(s)
    } else if kind == "wallet"@ {
        all_digits(s) && 7 <= s.len() <= 15
    } else if kind == "iban"@ || kind == "bank"@ {
        all_alphanumeric(s) && 8 <= s.len() <= 34
    } else {
        true
    }
}

/// Whether `identifier` is acceptable for a payment method of kind `kind`,
/// the kind being given in lower case.
pub fn validate_for_kind(kind: &str, identifier: &str) -> (r: bool)
    ensures
        r == account_ok(kind@, identifier@),
{
    let s = trim(identifier);
    if s.is_empty() {
        return false;
    }
    if same_text(kind, "card") {
        if !digits_only(s) {
            return false;
        }
        let len = byte_len(s);
        if len < 13 || len > 19 {
            return false;
        }
        luhn_check(s)
    } else if same_text(kind, "wallet") {
        let len = byte_len(s);
        digits_only(s) && (len >= 7 && len <= 15)
    } else if same_text(kind, "iban") || same_text(kind, "bank") {
        let len = byte_len(s);
        alphanumeric_only(s) && (len >= 8 && len <= 34)
    } else {
        true
    }
}

/// Whether `identifier` is acceptable for a payment method of type
/// `method_type`, whose lower-case form is its kind.
pub fn validate_account_identifier(method_type: &str, identifier: &str) -> (r: bool)
    ensures
        r == account_ok(lowercase(method_type@), identifier@),
{
    let kind = to_lowercase(method_type);
    validate_for_kind(kind.as_str(), identifier)
}

/// The last `n` characters of `s`.
pub open spec fn last_chars(s: Seq<char>, n: int) -> Seq<char> {
    s.subrange(s.len() - n, s.len() as int)
}

/// The masked form of `identifier` for a payment method of kind `kind`:
/// stars followed by the last characters of the identifier without
/// surrounding whitespace. A card shows its last four characters after
/// twelve stars, a wallet its last three after six stars, any other kind its
/// last four after four stars. An identifier of four characters or fewer is
/// masked whole.
pub open spec fn masked(kind: Seq<char>, identifier: Seq<char>) -> Seq<char> {
    let s = trimmed(identifier);
    if s.len() <= 4 {
        "****"@
    } else if kind == "card"@ {
        "************"@ + last_chars(s, 4)
    } else if kind == "wallet"@ {
        "******"@ + last_chars(s, 3)
    } else {
        "****"@ + last_chars(s, 4)
    }
}

/// The masked form of `identifier` for a payment method of kind `kind`, the
/// kind being given in lower case.
pub fn mask_for_kind(kind: &str, identifier: &str) -> (r: String)
    ensures
        r@ == masked(kind@, identifier@),
{
    let s = trim(identifier);
    let n = s.unicode_len();
    if n <= 4 {
        return "****".to_owned();
    }
    if same_text(kind, "card") {
        let mut out = "************".to_owned();
        out.append(s.substring_char(n - 4, n));
        out
    } else if same_text(kind, "wallet") {
        let mut out = "******".to_owned();
        out.append(s.substring_char(n - 3, n));
        out
    } else {
        let mut out = "****".to_owned();
        out.append(s.substring_char(n - 4, n));
        out
    }
}

/// The masked form of `identifier` for a payment method of type
/// `method_type`, whose lower-case form is its kind.
pub fn mask_account_identifier(method_type: &str, identifier: &str) -> (r: String)
    ensures
        r@ == masked(lowercase(method_type@), identifier@),
{
    let kind = to_lowercase(method_type);
    mask_for_kind(kind.as_str(), identifier)
}

/// Card masking. The masked form of a card identifier of more than four
/// characters is sixteen characters long: twelve stars, then the last four
/// characters of the identifier, and nothing else of it.
pub proof fn lemma_card_mask_shows_last_four(identifier: Seq<char>)
    requires
        trimmed(identifier).len() > 4,
    ensures
        masked("card"@, identifier).len() == 16,
        forall|i: int| 0 <= i < 12 ==> masked("card"@, identifier)[i] == '*',
        masked("card"@, identifier).subrange(12, 16) == last_chars(trimmed(identifier), 4),
{
    reveal_strlit("************");
    let m = masked("card"@, identifier);
    assert(m.subrange(12, 16) =~= last_chars(trimmed(identifier), 4));
}

/// A card number that fails the Luhn check is not acceptable.
pub proof fn lemma_luhn_invalid_card_refused(identifier: Seq<char>)
    requires
        !luhn_valid(trimmed(identifier)),
    ensures
        !account_ok("card"@, identifier),
{
}

} // verus!
