//! Unsigned numbers written in decimal or octal digits.

use crate::text::lemma_char_code;
use vstd::prelude::*;
use vstd::string::*;
use vstd::utf8::*;

verus! {

/// Whether `c` is a digit of the given radix, which is at most ten.
pub open spec fn is_digit(c: char, radix: nat) -> bool {
    48 <= c as nat && (c as nat) < 48 + radix
}

/// Whether every character of `text` is a digit of the given radix.
pub open spec fn all_digits(text: Seq<char>, radix: nat) -> bool {
    forall|i: int| 0 <= i < text.len() ==> is_digit(#[trigger] text[i], radix)
}

/// The number that a digit string spells, the most significant digit first.
pub open spec fn digits_value(text: Seq<char>, radix: nat) -> nat
    decreases text.len(),
{
    if text.len() == 0 {
        0
    } else {
        (digits_value(text.drop_last(), radix) * radix + (text.last() as nat - 48)) as nat
    }
}

/// The number that `text` spells, if it is a non-empty digit string whose value is at most
/// `max`.
pub open spec fn number_of(text: Seq<char>, radix: nat, max: nat) -> Option<nat> {
    if text.len() > 0 && all_digits(text, radix) && digits_value(text, radix) <= max {
        Some(digits_value(text, radix))
    } else {
        None
    }
}

/// A digit string spells at least as much as each of its prefixes.
proof fn lemma_prefix_value(text: Seq<char>, radix: nat, n: int)
    requires
        0 <= n <= text.len(),
        all_digits(text, radix),
        radix >= 1,
    ensures
        digits_value(text.take(n), radix) <= digits_value(text, radix),
    decreases text.len() - n,
{
    if n == text.len() {
        assert(text.take(n) =~= text);
    } else {
        let longer = text.take(n + 1);
        assert(longer.drop_last() =~= text.take(n));
        assert(is_digit(text[n], radix));
        assert(longer.last() == text[n]);
        let v = digits_value(text.take(n), radix);
        assert(v * radix >= v) by (nonlinear_arith)
            requires
                radix >= 1,
        ;
        lemma_prefix_value(text, radix, n + 1);
    }
}

/// Reads a number written in decimal digits: see [`number_of`].
pub fn parse_decimal(text: &str, max: u64) -> (r: Option<u64>)
    ensures
        match r {
            Some(v) => number_of(text@, 10, max as nat) == Some(v as nat),
            None => number_of(text@, 10, max as nat) is None,
        },
{
    parse_number(text, 10, max)
}

/// Reads a number written in octal digits: see [`number_of`].
pub fn parse_octal(text: &str, max: u64) -> (r: Option<u64>)
    ensures
        match r {
            Some(v) => number_of(text@, 8, max as nat) == Some(v as nat),
            None => number_of(text@, 8, max as nat) is None,
        },
{
    parse_number(text, 8, max)
}

/// Reads a number written in digits of the given radix.
fn parse_number(text: &str, radix: u64, max: u64) -> (r: Option<u64>)
    requires
        2 <= radix <= 10,
    ensures
        match r {
            Some(v) => number_of(text@, radix as nat, max as nat) == Some(v as nat),
            None => number_of(text@, radix as nat, max as nat) is None,
        },
{
    if !text.is_ascii() {
        proof {
            let k = choose|k: int|
                0 <= k < text@.len() && !('\0' <= #[trigger] text@[k] <= '\u{7f}');
            lemma_char_code(text@[k]);
            assert(!is_digit(text@[k], radix as nat));
        }
        return None;
    }
    let bytes = text.as_bytes();
    proof {
        is_ascii_spec_bytes(text);
        is_ascii_chars_nat_bound(text@);
        assert(text@.take(0) =~= Seq::empty());
    }
    if bytes.len() == 0 {
        return None;
    }
    let mut value: u64 = 0;
    let mut i: usize = 0;
    while i < bytes.len()
        invariant
            2 <= radix <= 10,
            i <= bytes@.len(),
            bytes@.len() == text@.len(),
            forall|k: int| 0 <= k < bytes@.len() ==> bytes@[k] == text@[k] as u8,
            forall|k: int| 0 <= k < bytes@.len() ==> (text@[k] as nat) < 128,
            all_digits(text@.take(i as int), radix as nat),
            value as nat == digits_value(text@.take(i as int), radix as nat),
            value <= max,
        decreases bytes@.len() - i,
    {
        let b = bytes[i];
        let ghost longer = text@.take(i + 1);
        proof {
            assert(longer.drop_last() =~= text@.take(i as int));
            assert(longer.last() == text@[i as int]);
            assert((text@[i as int] as nat) < 128);
        }
        proof {
            lemma_char_code(text@[i as int]);
        }
        if b < 48 || (b as u64) >= 48 + radix {
            assert(!is_digit(text@[i as int], radix as nat));
            return None;
        }
        assert(all_digits(longer, radix as nat)) by {
            assert forall|k: int| 0 <= k < longer.len() implies is_digit(
                #[trigger] longer[k],
                radix as nat,
            ) by {
                if k < i {
                    assert(longer[k] == text@.take(i as int)[k]);
                }
            }
        }
        assert((value as int) * (radix as int) <= 0xffff_ffff_ffff_ffff * 10) by (nonlinear_arith)
            requires
                0 <= value <= 0xffff_ffff_ffff_ffff,
                0 <= radix <= 10,
        ;
        let next: u128 = (value as u128) * (radix as u128) + ((b - 48) as u128);
        assert(next == digits_value(longer, radix as nat)) by (nonlinear_arith)
            requires
                next == (value as int) * (radix as int) + (b as int - 48),
                digits_value(longer, radix as nat) == (value as nat * radix as nat + (b as nat
                    - 48)) as nat,
                b >= 48,
        ;
        if next > max as u128 {
            proof {
                if all_digits(text@, radix as nat) {
                    lemma_prefix_value(text@, radix as nat, i + 1);
                }
            }
            return None;
        }
        value = next as u64;
        i += 1;
    }
    proof {
        assert(text@.take(i as int) =~= text@);
    }
    Some(value)
}

} // verus!
