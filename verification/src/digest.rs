//! Content digests and their hexadecimal spelling.

use sha1::Digest;
use vstd::prelude::*;
use vstd::string::*;
use vstd::utf8::*;

verus! {

/// The 160-bit digest of a byte string, as the SHA-1 implementation computes it.
pub uninterp spec fn sha1_of(data: Seq<u8>) -> Seq<u8>;

/// Computes the digest of `data` with `sha1::Sha1::digest`. The contract only names the result:
/// the same bytes always hash to the same twenty bytes.
#[verifier::external_body]
pub(crate) fn sha1_digest(data: &[u8]) -> (digest: [u8; 20])
    ensures
        digest@ == sha1_of(data@),
{
    sha1::Sha1::digest(data).into()
}

/// The lower-case hexadecimal digit for a value below sixteen.
pub open spec fn hex_digit(n: int) -> char {
    if n < 10 {
        ((48 + n) as u8) as char
    } else {
        ((87 + n) as u8) as char
    }
}

/// The lower-case hexadecimal spelling of a byte string, two digits per byte.
pub open spec fn hex_string(bytes: Seq<u8>) -> Seq<char> {
    Seq::new(
        2 * bytes.len(),
        |i: int|
            if i % 2 == 0 {
                hex_digit(bytes[i / 2] as int / 16)
            } else {
                hex_digit(bytes[i / 2] as int % 16)
            },
    )
}

/// A character with an upper-case ASCII letter replaced by its lower-case form.
pub open spec fn ascii_lower(c: char) -> char {
    if 'A' <= c <= 'Z' {
        ((c as u8 + 32) as u8) as char
    } else {
        c
    }
}

/// A text with every upper-case ASCII letter replaced by its lower-case form.
pub open spec fn lowercase(text: Seq<char>) -> Seq<char> {
    text.map_values(|c: char| ascii_lower(c))
}

/// Whether a declared hexadecimal digest names `digest`, letter case aside.
pub open spec fn digest_matches(declared: Seq<char>, digest: Seq<u8>) -> bool {
    lowercase(declared) == hex_string(digest)
}

fn hex_digit_of(n: u8) -> (c: char)
    requires
        n < 16,
    ensures
        c == hex_digit(n as int),
{
    if n < 10 {
        (n + 48) as char
    } else {
        (n + 87) as char
    }
}

/// The digit of a value below sixteen, as a text of one character.
fn hex_digit_text(n: u8) -> (t: &'static str)
    requires
        n < 16,
    ensures
        t@ == seq![hex_digit(n as int)],
{
    proof {
        reveal_strlit("0");
        reveal_strlit("1");
        reveal_strlit("2");
        reveal_strlit("3");
        reveal_strlit("4");
        reveal_strlit("5");
        reveal_strlit("6");
        reveal_strlit("7");
        reveal_strlit("8");
        reveal_strlit("9");
        reveal_strlit("a");
        reveal_strlit("b");
        reveal_strlit("c");
        reveal_strlit("d");
        reveal_strlit("e");
        reveal_strlit("f");
    }
    let t = match n {
        0 => "0",
        1 => "1",
        2 => "2",
        3 => "3",
        4 => "4",
        5 => "5",
        6 => "6",
        7 => "7",
        8 => "8",
        9 => "9",
        10 => "a",
        11 => "b",
        12 => "c",
        13 => "d",
        14 => "e",
        _ => "f",
    };
    assert(t@ =~= seq![hex_digit(n as int)]);
    t
}

/// Spells a byte string in lower-case hexadecimal.
pub fn to_hex(bytes: &[u8]) -> (s: String)
    ensures
        s@ == hex_string(bytes@),
{
    let mut s = String::new();
    let mut i: usize = 0;
    while i < bytes.len()
        invariant
            i <= bytes@.len(),
            s@.len() == 2 * i,
            forall|k: int| 0 <= k < 2 * i ==> s@[k] == hex_string(bytes@)[k],
        decreases bytes@.len() - i,
    {
        let b = bytes[i];
        s.append(hex_digit_text(b / 16));
        s.append(hex_digit_text(b % 16));
        i += 1;
    }
    assert(s@ =~= hex_string(bytes@));
    s
}

fn lower_byte(b: u8) -> (r: u8)
    requires
        b < 128,
    ensures
        r as char == ascii_lower(b as char),
        r < 128,
{
    if 65 <= b && b <= 90 {
        b + 32
    } else {
        b
    }
}

/// Every hexadecimal digit is an ASCII character that `ascii_lower` leaves alone.
proof fn lemma_hex_string_ascii(bytes: Seq<u8>, k: int)
    requires
        0 <= k < 2 * bytes.len(),
    ensures
        (hex_string(bytes)[k] as u32) < 128,
{
    let b = bytes[k / 2] as int;
    assert(0 <= b / 16 < 16 && 0 <= b % 16 < 16);
}

/// Compares a declared hexadecimal digest with a computed one, without regard to letter case.
pub fn matches_digest(declared: &str, digest: &[u8]) -> (r: bool)
    ensures
        r == digest_matches(declared@, digest@),
{
    if !declared.is_ascii() {
        proof {
            let k = choose|k: int|
                0 <= k < declared@.len() && !('\0' <= #[trigger] declared@[k] <= '\u{7f}');
            if digest_matches(declared@, digest@) {
                assert(lowercase(declared@).len() == declared@.len());
                assert(hex_string(digest@).len() == 2 * digest@.len());
                assert(lowercase(declared@)[k] == ascii_lower(declared@[k]));
                lemma_hex_string_ascii(digest@, k);
            }
        }
        return false;
    }
    let text = declared.as_bytes();
    proof {
        is_ascii_spec_bytes(declared);
        is_ascii_chars_nat_bound(declared@);
        assert(text@.len() == declared@.len());
    }
    let n = text.len();
    if digest.len() > usize::MAX / 2 || n != 2 * digest.len() {
        assert(lowercase(declared@).len() == declared@.len());
        assert(hex_string(digest@).len() == 2 * digest@.len());
        assert(declared@.len() != 2 * digest@.len());
        return false;
    }
    let mut i: usize = 0;
    while i < digest.len()
        invariant
            i <= digest@.len(),
            digest@.len() <= usize::MAX / 2,
            is_ascii_chars(declared@),
            text@.len() == declared@.len(),
            text@.len() == 2 * digest@.len(),
            forall|k: int| 0 <= k < text@.len() ==> text@[k] == declared@[k] as u8,
            forall|k: int| 0 <= k < 2 * i ==> lowercase(declared@)[k] == hex_string(digest@)[k],
        decreases digest@.len() - i,
    {
        let b = digest[i];
        let hi = text[2 * i];
        let lo = text[2 * i + 1];
        proof {
            is_ascii_chars_nat_bound(declared@);
            assert((declared@[2 * i as int] as nat) < 128);
            assert((declared@[2 * i + 1] as nat) < 128);
        }
        let same = lower_byte(hi) as char == hex_digit_of(b / 16) && lower_byte(lo) as char
            == hex_digit_of(b % 16);
        if !same {
            assert(lowercase(declared@)[2 * i as int] != hex_string(digest@)[2 * i as int]
                || lowercase(declared@)[2 * i + 1] != hex_string(digest@)[2 * i + 1]);
            return false;
        }
        i += 1;
    }
    assert(lowercase(declared@) =~= hex_string(digest@));
    true
}

} // verus!
