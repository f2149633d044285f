//! Hexadecimal text.
use crate::text::{chars_of, same_but_for_ascii_case, ascii_small};
use vstd::prelude::*;

verus! {

/// The value of a hexadecimal digit.
pub open spec fn nibble(c: char) -> Option<u8> {
    if '0' <= c <= '9' {
        Some((c as u32 - 48) as u8)
    } else if 'a' <= c <= 'f' {
        Some((c as u32 - 87) as u8)
    } else if 'A' <= c <= 'F' {
        Some((c as u32 - 55) as u8)
    } else {
        None
    }
}

/// Whether a text consists of pairs of hexadecimal digits.
pub open spec fn is_hex(s: Seq<char>) -> bool {
    &&& s.len() % 2 == 0
    &&& forall|i: int| 0 <= i < s.len() ==> nibble(#[trigger] s[i]) is Some
}

/// The bytes that pairs of hexadecimal digits stand for, the high half first.
pub open spec fn hex_bytes(s: Seq<char>) -> Seq<u8> {
    Seq::new(
        s.len() / 2,
        |i: int| (nibble(s[2 * i])->0 * 16 + nibble(s[2 * i + 1])->0) as u8,
    )
}

/// What decoding a hexadecimal text gives.
pub open spec fn decoded_hex(s: Seq<char>) -> Option<Seq<u8>> {
    if is_hex(s) {
        Some(hex_bytes(s))
    } else {
        None
    }
}

/// The small hexadecimal digit of a value below sixteen.
pub open spec fn small_digit(n: int) -> char {
    if n < 10 {
        (48 + n) as char
    } else {
        (87 + n) as char
    }
}

/// Bytes as small hexadecimal digits, two for each, the high half first.
pub open spec fn small_hex(bytes: Seq<u8>) -> Seq<char> {
    Seq::new(
        bytes.len() * 2,
        |i: int|
            if i % 2 == 0 {
                small_digit(bytes[i / 2] as int / 16)
            } else {
                small_digit(bytes[i / 2] as int % 16)
            },
    )
}

/// Each byte is written as its two digits, the high half first, one byte after the other.
pub proof fn law_bytes_are_written_digit_by_digit(bytes: Seq<u8>, byte: u8)
    ensures
        small_hex(bytes.push(byte)) == small_hex(bytes) + seq![
            "0123456789abcdef"@[byte as int / 16],
            "0123456789abcdef"@[byte as int % 16],
        ],
        small_hex(Seq::empty()) == Seq::<char>::empty(),
{
    reveal_strlit("0123456789abcdef");
    let digits = "0123456789abcdef"@;
    assert forall|n: int| 0 <= n < 16 implies #[trigger] small_digit(n) == digits[n] by {}
    let (high, low) = (byte as int / 16, byte as int % 16);
    assert(small_digit(high) == digits[high] && small_digit(low) == digits[low]);
    let (r, t) = (small_hex(bytes.push(byte)), small_hex(bytes) + seq![digits[high], digits[low]]);
    assert forall|i: int| 0 <= i < r.len() implies r[i] == t[i] by {
        if i < 2 * bytes.len() {
            assert(bytes.push(byte)[i / 2] == bytes[i / 2]);
        } else {
            assert(i / 2 == bytes.len());
        }
    }
    assert(r =~= t);
    assert(small_hex(Seq::empty()) =~= Seq::<char>::empty());
}

/// Only pairs of the characters from 0 to 9, a to f and A to F are decoded.
pub proof fn law_only_hexadecimal_digits_are_decoded(s: Seq<char>)
    ensures
        decoded_hex(s) is Some <==> s.len() % 2 == 0 && forall|i: int|
            0 <= i < s.len() ==> '0' <= #[trigger] s[i] <= '9' || 'a' <= s[i] <= 'f' || 'A' <= s[i]
                <= 'F',
{
    assert forall|i: int| 0 <= i < s.len() implies (nibble(#[trigger] s[i]) is Some <==> ('0'
        <= s[i] <= '9' || 'a' <= s[i] <= 'f' || 'A' <= s[i] <= 'F')) by {}
}

/// Decoding what was encoded gives the bytes back, whatever the case of the letters.
pub proof fn law_encoded_hex_decodes(bytes: Seq<u8>, s: Seq<char>)
    requires
        same_but_for_ascii_case(s, small_hex(bytes)),
    ensures
        decoded_hex(s) == Some(bytes),
{
    let t = small_hex(bytes);
    assert forall|i: int| 0 <= i < s.len() implies nibble(#[trigger] s[i]) == Some(
        (if i % 2 == 0 {
            bytes[i / 2] as int / 16
        } else {
            bytes[i / 2] as int % 16
        }) as u8,
    ) by {
        assert(ascii_small(s[i]) == ascii_small(t[i]));
        let n = if i % 2 == 0 {
            bytes[i / 2] as int / 16
        } else {
            bytes[i / 2] as int % 16
        };
        assert(0 <= n < 16);
        assert(t[i] == small_digit(n));
    }
    assert forall|i: int| 0 <= i < bytes.len() implies #[trigger] hex_bytes(s)[i] == bytes[i] by {
        assert(nibble(s[2 * i]) is Some);
        assert(nibble(s[2 * i + 1]) is Some);
        assert((2 * i) / 2 == i && (2 * i) % 2 == 0);
        assert((2 * i + 1) / 2 == i && (2 * i + 1) % 2 == 1);
    }
    assert(hex_bytes(s) =~= bytes);
}

/// Encoding what was decoded gives the text back, in small letters.
pub proof fn law_decoded_hex_encodes(s: Seq<char>)
    requires
        is_hex(s),
    ensures
        small_hex(hex_bytes(s)) == s.map_values(|c: char| ascii_small(c)),
{
    let t = small_hex(hex_bytes(s));
    assert forall|i: int| 0 <= i < s.len() implies #[trigger] t[i] == ascii_small(s[i]) by {
        let k = i / 2;
        assert(nibble(s[2 * k]) is Some && nibble(s[2 * k + 1]) is Some);
        let (high, low) = (nibble(s[2 * k])->0, nibble(s[2 * k + 1])->0);
        assert(high < 16 && low < 16);
        let byte = hex_bytes(s)[k];
        assert(byte == high * 16 + low);
        assert(byte as int / 16 == high && byte as int % 16 == low);
        assert(i == 2 * k || i == 2 * k + 1);
    }
    assert(t =~= s.map_values(|c: char| ascii_small(c)));
}

fn nibble_of(c: char) -> (r: Option<u8>)
    ensures
        r == nibble(c),
{
    if '0' <= c && c <= '9' {
        Some((c as u32 - 48) as u8)
    } else if 'a' <= c && c <= 'f' {
        Some((c as u32 - 87) as u8)
    } else if 'A' <= c && c <= 'F' {
        Some((c as u32 - 55) as u8)
    } else {
        None
    }
}

/// Decodes pairs of hexadecimal digits of either case.
pub(crate) fn decode(s: &str) -> (r: Option<Vec<u8>>)
    ensures
        r is Some <==> is_hex(s@),
        r matches Some(v) ==> v@ == hex_bytes(s@),
{
    let cs = chars_of(s);
    if cs.len() % 2 != 0 {
        return None;
    }
    let mut out: Vec<u8> = Vec::with_capacity(cs.len() / 2);
    let mut i: usize = 0;
    while i < cs.len()
        invariant
            i <= cs.len(),
            cs@ == s@,
            i % 2 == 0,
            cs.len() % 2 == 0,
            out.len() == i / 2,
            forall|k: int| 0 <= k < i ==> nibble(#[trigger] s@[k]) is Some,
            forall|k: int| 0 <= k < out.len() ==> out@[k] == #[trigger] hex_bytes(s@)[k],
        decreases cs.len() - i,
    {
        let high = nibble_of(cs[i]);
        let low = nibble_of(cs[i + 1]);
        match (high, low) {
            (Some(h), Some(l)) => {
                let ghost n = out.len() as int;
                assert(h < 16 && l < 16);
                out.push(h * 16 + l);
                assert(2 * n == i);
                assert(hex_bytes(s@)[n] == out@[n]);
            },
            _ => {
                assert(nibble(s@[i as int]) is None || nibble(s@[i + 1]) is None);
                return None;
            },
        }
        i = i + 2;
    }
    assert(out@ =~= hex_bytes(s@));
    Some(out)
}

/// `hex::encode`: two small hexadecimal digits for each byte, the high half first.
#[verifier::external_body]
pub(crate) fn encode(bytes: &[u8; 32]) -> (r: String)
    ensures
        r@ == small_hex(bytes@),
{
    hex::encode(bytes)
}

} // verus!
