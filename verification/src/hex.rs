//! Hexadecimal text for key bytes: two digits per byte, high digit first.
//!
//! Text is written in lower case and read in either case.

use vstd::prelude::*;
use vstd::string::StringExecFns;
use vstd::utf8::*;
use crate::{KEY_LENGTH, KEY_STR_LENGTH};

verus! {

/// The sixteen digits in the order of their values.
pub open spec fn hex_digits() -> Seq<char> {
    seq!['0', '1', '2', '3', '4', '5', '6', '7', '8', '9', 'a', 'b', 'c', 'd', 'e', 'f']
}

/// The lower-case digit that stands for `n`, for `n` below 16.
pub open spec fn hex_digit(n: int) -> char
    recommends
        0 <= n < 16,
{
    hex_digits()[n]
}

/// The value of the digit with character code `code`, if it is one:
/// `0`-`9`, `a`-`f` or `A`-`F`.
pub open spec fn digit_value(code: int) -> Option<u8> {
    if 0x30 <= code <= 0x39 {
        Some((code - 0x30) as u8)
    } else if 0x61 <= code <= 0x66 {
        Some((code - 0x61 + 10) as u8)
    } else if 0x41 <= code <= 0x46 {
        Some((code - 0x41 + 10) as u8)
    } else {
        None
    }
}

/// The value of a hexadecimal digit, or `None` for any other character.
pub open spec fn hex_value(c: char) -> Option<u8> {
    digit_value(c as int)
}

/// Every character of `s` is a hexadecimal digit.
pub open spec fn is_hex(s: Seq<char>) -> bool {
    forall|i: int| 0 <= i < s.len() ==> (#[trigger] hex_value(s[i])) is Some
}

/// Every character of `s` is a digit as `hex_encode` writes it: `0`-`9` or `a`-`f`.
pub open spec fn is_lower_hex(s: Seq<char>) -> bool {
    forall|i: int|
        0 <= i < s.len() ==> {
            let c = #[trigger] s[i];
            '0' <= c <= '9' || 'a' <= c <= 'f'
        }
}

/// `s` is the textual form of a key: exactly 32 hexadecimal digits.
pub open spec fn is_key_hex(s: Seq<char>) -> bool {
    s.len() == KEY_STR_LENGTH && is_hex(s)
}

/// The bytes that the digit pairs of `s` stand for. A trailing odd digit is not read.
pub open spec fn hex_decode(s: Seq<char>) -> Seq<u8>
    recommends
        is_hex(s),
{
    Seq::new(
        s.len() / 2,
        |i: int| (hex_value(s[2 * i])->0 * 16 + hex_value(s[2 * i + 1])->0) as u8,
    )
}

/// The lower-case text of `bytes`.
pub open spec fn hex_encode(bytes: Seq<u8>) -> Seq<char> {
    Seq::new(
        2 * bytes.len(),
        |i: int|
            if i % 2 == 0 {
                hex_digit(bytes[i / 2] as int / 16)
            } else {
                hex_digit(bytes[i / 2] as int % 16)
            },
    )
}

/// Each of the sixteen digits has its own position as its value.
pub proof fn lemma_digit_value(n: int)
    requires
        0 <= n < 16,
    ensures
        hex_value(hex_digit(n)) == Some(n as u8),
        '0' <= hex_digit(n) <= '9' || 'a' <= hex_digit(n) <= 'f',
{
    let d = hex_digits();
}

/// A lower-case digit is the digit of its own value.
pub proof fn lemma_lower_digit(c: char)
    requires
        '0' <= c <= '9' || 'a' <= c <= 'f',
    ensures
        hex_value(c) is Some,
        hex_digit(hex_value(c)->0 as int) == c,
{
    let v = hex_value(c)->0 as int;
    lemma_digit_value(v);
}

/// The text of any bytes is made of lower-case digits, two for each byte.
pub proof fn lemma_encode_is_hex(bytes: Seq<u8>)
    ensures
        hex_encode(bytes).len() == 2 * bytes.len(),
        is_hex(hex_encode(bytes)),
        is_lower_hex(hex_encode(bytes)),
        bytes.len() == KEY_LENGTH ==> is_key_hex(hex_encode(bytes)),
{
    let s = hex_encode(bytes);
    assert forall|i: int| 0 <= i < s.len() implies (#[trigger] hex_value(s[i])) is Some && ('0'
        <= s[i] <= '9' || 'a' <= s[i] <= 'f') by {
        let b = bytes[i / 2] as int;
        if i % 2 == 0 {
            lemma_digit_value(b / 16);
        } else {
            lemma_digit_value(b % 16);
        }
    }
}

/// Reading back the text of `bytes` gives `bytes`.
pub proof fn lemma_decode_encode(bytes: Seq<u8>)
    ensures
        hex_decode(hex_encode(bytes)) == bytes,
{
    let s = hex_encode(bytes);
    let back = hex_decode(s);
    assert forall|i: int| 0 <= i < bytes.len() implies back[i] == bytes[i] by {
        let b = bytes[i] as int;
        lemma_digit_value(b / 16);
        lemma_digit_value(b % 16);
    }
}

/// Writing the bytes of a lower-case text of even length gives that text again.
pub proof fn lemma_encode_decode(s: Seq<char>)
    requires
        is_lower_hex(s),
        s.len() % 2 == 0,
    ensures
        hex_encode(hex_decode(s)) == s,
{
    let bytes = hex_decode(s);
    let text = hex_encode(bytes);
    assert forall|i: int| 0 <= i < s.len() implies text[i] == s[i] by {
        let k = i / 2;
        let hi = s[2 * k];
        let lo = s[2 * k + 1];
        lemma_lower_digit(hi);
        lemma_lower_digit(lo);
        let h = hex_value(hi)->0 as int;
        let l = hex_value(lo)->0 as int;
        if i % 2 == 0 {
        } else {
        }
    }
}

/// A text made of hexadecimal digits has one byte for each character.
pub proof fn lemma_hex_is_ascii(s: Seq<char>)
    requires
        is_hex(s),
    ensures
        is_ascii_chars(s),
        encode_utf8(s).len() == s.len(),
{
    assert forall|i: int| 0 <= i < s.len() implies '\0' <= #[trigger] s[i] <= '\u{7f}' by {
        assert(hex_value(s[i]) is Some);
    }
    is_ascii_chars_encode_utf8(s);
}

/// The value of the digit in byte `b`, if it holds one.
pub fn digit_of_byte(b: u8) -> (r: Option<u8>)
    ensures
        r == digit_value(b as int),
        r is Some ==> r->0 < 16,
{
    if 0x30 <= b && b <= 0x39 {
        Some(b - 0x30)
    } else if 0x61 <= b && b <= 0x66 {
        Some(b - 0x61 + 10)
    } else if 0x41 <= b && b <= 0x46 {
        Some(b - 0x41 + 10)
    } else {
        None
    }
}

/// Reads a key from its text. `None` unless `hex` is exactly 32 hexadecimal digits.
pub fn decode_key(hex: &str) -> (r: Option<[u8; 16]>)
    ensures
        r is Some <==> is_key_hex(hex@),
        r is Some ==> r->0@ == hex_decode(hex@),
{
    let bytes = hex.as_bytes();
    if bytes.len() != KEY_STR_LENGTH {
        proof {
            if is_key_hex(hex@) {
                lemma_hex_is_ascii(hex@);
            }
        }
        return None;
    }
    if !hex.is_ascii() {
        proof {
            if is_hex(hex@) {
                lemma_hex_is_ascii(hex@);
            }
        }
        return None;
    }
    proof {
        is_ascii_chars_encode_utf8(hex@);
    }
    let mut key: [u8; 16] = [0u8; 16];
    let mut j: usize = 0;
    while j < KEY_LENGTH
        invariant
            j <= 16,
            bytes@.len() == 32,
            hex@.len() == 32,
            forall|i: int| 0 <= i < 32 ==> bytes@[i] as int == hex@[i] as int,
            forall|i: int| 0 <= i < 2 * j ==> (#[trigger] hex_value(hex@[i])) is Some,
            forall|k: int| 0 <= k < j ==> key@[k] == #[trigger] hex_decode(hex@)[k],
        decreases 16 - j,
    {
        let high = match digit_of_byte(bytes[2 * j]) {
            Some(d) => d,
            None => {
                return None;
            },
        };
        let low = match digit_of_byte(bytes[2 * j + 1]) {
            Some(d) => d,
            None => {
                return None;
            },
        };
        assert(hex_value(hex@[2 * j as int]) == Some(high));
        assert(hex_value(hex@[2 * j + 1]) == Some(low));
        key[j] = high * 16 + low;
        j += 1;
    }
    Some(key)
}

/// The one-character text of the digit for `n`.
fn digit_str(n: u8) -> (r: &'static str)
    requires
        n < 16,
    ensures
        r@ == seq![hex_digit(n as int)],
{
    proof {
        reveal_strlit("0");
        reveal_strlit("1");
        reveal_strlit("2");
        reveal_strlit("3");
        reveal_strlit("4");
        reveal_strlit("5");
        reveal_strlit("6");
        reveal_strlit("7");
        reveal_strlit("8");
        reveal_strlit("9");
        reveal_strlit("a");
        reveal_strlit("b");
        reveal_strlit("c");
        reveal_strlit("d");
        reveal_strlit("e");
        reveal_strlit("f");
    }
    match n {
        0 => "0",
        1 => "1",
        2 => "2",
        3 => "3",
        4 => "4",
        5 => "5",
        6 => "6",
        7 => "7",
        8 => "8",
        9 => "9",
        10 => "a",
        11 => "b",
        12 => "c",
        13 => "d",
        14 => "e",
        _ => "f",
    }
}

/// Writes a key as text: 32 lower-case hexadecimal digits.
pub fn encode_key(key: &[u8; 16]) -> (r: String)
    ensures
        r@ == hex_encode(key@),
{
    let mut text = String::new();
    let mut j: usize = 0;
    while j < KEY_LENGTH
        invariant
            j <= 16,
            text@.len() == 2 * j,
            forall|i: int| 0 <= i < 2 * j ==> text@[i] == #[trigger] hex_encode(key@)[i],
        decreases 16 - j,
    {
        let value = key[j];
        let high = value >> 4;
        let low = value & 0x0F;
        assert(high == value / 16 && low == value % 16) by (bit_vector)
            requires
                high == value >> 4,
                low == value & 0x0F,
        ;
        text.append(digit_str(high));
        text.append(digit_str(low));
        j += 1;
    }
    text
}

} // verus!
