//! Bytes as text: hexadecimal, and standard base64 with padding.

use base64::engine::general_purpose::STANDARD;
use base64::Engine;
use vstd::prelude::*;

verus! {

// ---- hexadecimal ----

/// The lowercase hexadecimal digit of `n`.
pub open spec fn hex_digit(n: int) -> char {
    if n < 10 {
        ('0' as int + n) as char
    } else {
        ('a' as int + n - 10) as char
    }
}

/// Two lowercase hexadecimal digits for every byte, the high one first.
pub open spec fn hex_text(b: Seq<u8>) -> Seq<char> {
    Seq::new(
        2 * b.len(),
        |i: int|
            if i % 2 == 0 {
                hex_digit(b[i / 2] as int / 16)
            } else {
                hex_digit(b[i / 2] as int % 16)
            },
    )
}

/// Calls `hex::encode`: two lowercase hexadecimal digits for every byte.
#[verifier::external_body]
pub(crate) fn hex_encode(b: &[u8; 32]) -> (r: String)
    ensures
        r@ == hex_text(b@),
{
    hex::encode(b)
}

/// Whether `c` is a hexadecimal digit, of either case.
pub open spec fn is_hex_digit(c: char) -> bool {
    '0' <= c <= '9' || 'a' <= c <= 'f' || 'A' <= c <= 'F'
}

/// The number that `c` stands for as a hexadecimal digit.
pub open spec fn hex_value(c: char) -> int {
    if c <= '9' {
        c as int - '0' as int
    } else if c <= 'F' {
        c as int - 'A' as int + 10
    } else {
        c as int - 'a' as int + 10
    }
}

/// The bytes that `text` writes in hexadecimal, two digits for every byte.
pub open spec fn hex_bytes(text: Seq<char>) -> Option<Seq<u8>> {
    if text.len() % 2 == 0 && (forall|i: int|
        0 <= i < text.len() ==> is_hex_digit(#[trigger] text[i])) {
        Some(
            Seq::new(
                text.len() / 2,
                |i: int| (16 * hex_value(text[2 * i]) + hex_value(text[2 * i + 1])) as u8,
            ),
        )
    } else {
        None
    }
}

/// `hex::FromHexError`: why a text is not hexadecimal, carried through.
#[verifier::external_type_specification]
#[verifier::external_body]
pub struct ExFromHexError(hex::FromHexError);

/// Calls `hex::decode`: the bytes that the text writes in hexadecimal, with
/// digits of either case. It fails on an odd number of digits and on any other
/// character.
#[verifier::external_body]
pub(crate) fn hex_decode(text: &str) -> (r: Result<Vec<u8>, hex::FromHexError>)
    ensures
        match r {
            Ok(b) => hex_bytes(text@) == Some(b@),
            Err(_) => hex_bytes(text@) is None,
        },
{
    hex::decode(text)
}

/// Reading back bytes that were written in hexadecimal gives the bytes.
pub proof fn law_hex_round_trip(b: Seq<u8>)
    ensures
        hex_bytes(hex_text(b)) == Some(b),
{
    let t = hex_text(b);
    assert forall|i: int| 0 <= i < t.len() implies is_hex_digit(#[trigger] t[i]) by {
        lemma_hex_digit(b[i / 2] as int / 16);
        lemma_hex_digit(b[i / 2] as int % 16);
    }
    assert forall|i: int| 0 <= i < b.len() implies 16 * hex_value(t[2 * i]) + hex_value(
        t[2 * i + 1],
    ) == #[trigger] b[i] by {
        lemma_hex_digit(b[i] as int / 16);
        lemma_hex_digit(b[i] as int % 16);
    }
    assert(hex_bytes(t)->0 =~= b);
}

/// The hexadecimal digit of a number below sixteen stands for that number.
proof fn lemma_hex_digit(n: int)
    requires
        0 <= n < 16,
    ensures
        is_hex_digit(hex_digit(n)),
        hex_value(hex_digit(n)) == n,
{
}

/// Every byte is written as two digits out of `0` to `9` and `a` to `f`, the high
/// one first.
pub proof fn law_hex_text(b: Seq<u8>, i: int)
    requires
        0 <= i < b.len(),
    ensures
        hex_text(b).len() == 2 * b.len(),
        forall|k: int|
            2 * i <= k < 2 * i + 2 ==> '0' <= #[trigger] hex_text(b)[k] <= '9' || 'a' <= hex_text(
                b,
            )[k] <= 'f',
        b[i] as int == 16 * (if hex_text(b)[2 * i] <= '9' {
            hex_text(b)[2 * i] as int - 48
        } else {
            hex_text(b)[2 * i] as int - 87
        }) + (if hex_text(b)[2 * i + 1] <= '9' {
            hex_text(b)[2 * i + 1] as int - 48
        } else {
            hex_text(b)[2 * i + 1] as int - 87
        }),
{
    let (h, l) = (b[i] as int / 16, b[i] as int % 16);
    assert((2 * i) / 2 == i && (2 * i) % 2 == 0);
    assert((2 * i + 1) / 2 == i && (2 * i + 1) % 2 == 1);
    assert(hex_text(b)[2 * i] == hex_digit(h));
    assert(hex_text(b)[2 * i + 1] == hex_digit(l));
    assert forall|k: int| 2 * i <= k < 2 * i + 2 implies '0' <= #[trigger] hex_text(b)[k] <= '9'
        || 'a' <= hex_text(b)[k] <= 'f' by {
        assert(k == 2 * i || k == 2 * i + 1);
    }
}

/// Different bytes look different in hexadecimal.
pub proof fn law_hex_is_injective(a: Seq<u8>, b: Seq<u8>)
    requires
        hex_text(a) == hex_text(b),
    ensures
        a == b,
{
    law_hex_round_trip(a);
    law_hex_round_trip(b);
}

/// A text reads as bytes exactly if it is an even number of hexadecimal digits,
/// of either case.
pub proof fn law_hex_bytes_are_digits(t: Seq<char>)
    ensures
        hex_bytes(t) is Some <==> t.len() % 2 == 0 && forall|i: int|
            0 <= i < t.len() ==> '0' <= #[trigger] t[i] <= '9' || 'a' <= t[i] <= 'f' || 'A' <= t[i]
                <= 'F',
        hex_bytes(t) matches Some(b) ==> 2 * b.len() == t.len(),
{
    if hex_bytes(t) is Some {
        assert forall|i: int| 0 <= i < t.len() implies '0' <= #[trigger] t[i] <= '9' || 'a' <= t[i]
            <= 'f' || 'A' <= t[i] <= 'F' by {
            assert(is_hex_digit(t[i]));
        }
    }
}

/// Every byte is made of two digits, the high one first, and a digit counts the
/// same in either case.
pub proof fn law_hex_bytes_are_made_of_digits(t: Seq<char>, i: int)
    requires
        hex_bytes(t) is Some,
        0 <= i < t.len() / 2,
    ensures
        ({
            let (high, low) = (t[2 * i], t[2 * i + 1]);
            let b = hex_bytes(t)->0[i];
            &&& '0' <= high <= '9' ==> b / 16 == high as int - '0' as int
            &&& 'a' <= high <= 'f' ==> b / 16 == high as int - 'a' as int + 10
            &&& 'A' <= high <= 'F' ==> b / 16 == high as int - 'A' as int + 10
            &&& '0' <= low <= '9' ==> b % 16 == low as int - '0' as int
            &&& 'a' <= low <= 'f' ==> b % 16 == low as int - 'a' as int + 10
            &&& 'A' <= low <= 'F' ==> b % 16 == low as int - 'A' as int + 10
        }),
{
    assert(is_hex_digit(t[2 * i]) && is_hex_digit(t[2 * i + 1]));
    let (h, l) = (hex_value(t[2 * i]), hex_value(t[2 * i + 1]));
    assert(0 <= h < 16 && 0 <= l < 16);
    assert(hex_bytes(t)->0[i] == 16 * h + l);
}

// ---- base64 ----

/// The character of the six-bit value `n` in the standard alphabet.
pub open spec fn sextet_char(n: int) -> char {
    if n < 26 {
        ('A' as int + n) as char
    } else if n < 52 {
        ('a' as int + n - 26) as char
    } else if n < 62 {
        ('0' as int + n - 52) as char
    } else if n == 62 {
        '+'
    } else {
        '/'
    }
}

/// Byte `i` of `b`, or zero behind its end.
pub open spec fn byte_or_zero(b: Seq<u8>, i: int) -> int {
    if i < b.len() {
        b[i] as int
    } else {
        0
    }
}

/// The three bytes of group `g` as one number of 24 bits, high byte first.
pub open spec fn group_value(b: Seq<u8>, g: int) -> int {
    65536 * byte_or_zero(b, 3 * g) + 256 * byte_or_zero(b, 3 * g + 1) + byte_or_zero(b, 3 * g + 2)
}

/// Character `k` of group `g`: six bits of the group, or padding where the
/// bytes end before it.
pub open spec fn group_char(b: Seq<u8>, g: int, k: int) -> char {
    let v = group_value(b, g);
    if k == 0 {
        sextet_char(v / 262144)
    } else if k == 1 {
        sextet_char(v / 4096 % 64)
    } else if 3 * g + k - 1 >= b.len() {
        '='
    } else if k == 2 {
        sextet_char(v / 64 % 64)
    } else {
        sextet_char(v % 64)
    }
}

/// `b` in standard base64: four characters for every three bytes, the last
/// four padded.
pub open spec fn base64_text(b: Seq<u8>) -> Seq<char> {
    Seq::new((b.len() + 2) / 3 * 4, |i: int| group_char(b, i / 4, i % 4))
}

/// Different six-bit values have different characters, none of them padding.
proof fn lemma_sextet_char(m: int, n: int)
    requires
        0 <= m < 64,
        0 <= n < 64,
    ensures
        sextet_char(m) == sextet_char(n) ==> m == n,
        sextet_char(m) != '=',
{
}

/// Three bytes as one number of 24 bits, taken apart in sixes and in eights.
proof fn lemma_24_bits(x: u32, y: u32, z: u32, v: u32)
    by (bit_vector)
    requires
        x < 256,
        y < 256,
        z < 256,
        v == 65536 * x + 256 * y + z,
    ensures
        v / 262144 < 64,
        v == 262144 * (v / 262144) + 4096 * (v / 4096 % 64) + 64 * (v / 64 % 64) + v % 64,
        x == v / 65536,
        y == v / 256 % 256,
        z == v % 256,
        y == 0 && z == 0 ==> v / 64 % 64 == 0,
        z == 0 ==> v % 64 == 0,
{
}

/// A group's value is made of its four six-bit parts, and gives its bytes back.
proof fn lemma_group_value(b: Seq<u8>, g: int)
    requires
        0 <= g,
    ensures
        ({
            let v = group_value(b, g);
            &&& 0 <= v / 262144 < 64
            &&& v == 262144 * (v / 262144) + 4096 * (v / 4096 % 64) + 64 * (v / 64 % 64) + v % 64
            &&& byte_or_zero(b, 3 * g) == v / 65536
            &&& byte_or_zero(b, 3 * g + 1) == v / 256 % 256
            &&& byte_or_zero(b, 3 * g + 2) == v % 256
            &&& 3 * g + 1 >= b.len() ==> v / 64 % 64 == 0
            &&& 3 * g + 2 >= b.len() ==> v % 64 == 0
        }),
{
    lemma_24_bits(
        byte_or_zero(b, 3 * g) as u32,
        byte_or_zero(b, 3 * g + 1) as u32,
        byte_or_zero(b, 3 * g + 2) as u32,
        group_value(b, g) as u32,
    );
}

/// Two groups with the same characters and the same padding hold the same bytes.
proof fn lemma_same_group(a: Seq<u8>, b: Seq<u8>, g: int)
    requires
        0 <= g,
        a.len() == b.len(),
        forall|k: int| 0 <= k < 4 ==> #[trigger] group_char(a, g, k) == group_char(b, g, k),
    ensures
        group_value(a, g) == group_value(b, g),
{
    let (v, w) = (group_value(a, g), group_value(b, g));
    lemma_group_value(a, g);
    lemma_group_value(b, g);
    assert(group_char(a, g, 0) == group_char(b, g, 0));
    assert(group_char(a, g, 1) == group_char(b, g, 1));
    assert(group_char(a, g, 2) == group_char(b, g, 2));
    assert(group_char(a, g, 3) == group_char(b, g, 3));
    lemma_sextet_char(v / 262144, w / 262144);
    lemma_sextet_char(v / 4096 % 64, w / 4096 % 64);
    lemma_sextet_char(v / 64 % 64, w / 64 % 64);
    lemma_sextet_char(v % 64, w % 64);
}

/// Different bytes have different base64 texts.
pub proof fn law_base64_is_injective(a: Seq<u8>, b: Seq<u8>)
    requires
        base64_text(a) == base64_text(b),
    ensures
        a == b,
{
    let (x, y) = (base64_text(a), base64_text(b));
    let groups = (a.len() + 2) / 3;
    assert(x.len() == groups * 4);
    assert forall|g: int, k: int| 0 <= g < groups && 0 <= k < 4 implies #[trigger] group_char(
        a,
        g,
        k,
    ) == group_char(b, g, k) by {
        assert(x[4 * g + k] == y[4 * g + k]);
    }
    if groups > 0 {
        let g = groups - 1;
        assert(group_char(a, g, 2) == group_char(b, g, 2));
        assert(group_char(a, g, 3) == group_char(b, g, 3));
        lemma_group_value(a, g);
        lemma_group_value(b, g);
        lemma_sextet_char(group_value(a, g) / 64 % 64, group_value(b, g) / 64 % 64);
        lemma_sextet_char(group_value(b, g) / 64 % 64, group_value(a, g) / 64 % 64);
        lemma_sextet_char(group_value(a, g) % 64, group_value(b, g) % 64);
        lemma_sextet_char(group_value(b, g) % 64, group_value(a, g) % 64);
    }
    assert(a.len() == b.len());
    assert forall|i: int| 0 <= i < a.len() implies a[i] == b[i] by {
        let g = i / 3;
        lemma_same_group(a, b, g);
        lemma_group_value(a, g);
        lemma_group_value(b, g);
    }
    assert(a =~= b);
}

/// Calls `encode` of the engine `base64::engine::general_purpose::STANDARD`:
/// the padded base64 of the bytes.
#[verifier::external_body]
pub(crate) fn base64_encode(b: &[u8; 64]) -> (r: String)
    ensures
        r@ == base64_text(b@),
{
    STANDARD.encode(b)
}

/// `base64::DecodeError`: why a text is not base64, carried through.
#[verifier::external_type_specification]
#[verifier::external_body]
pub struct ExDecodeError(base64::DecodeError);

/// Calls `decode` of the engine `base64::engine::general_purpose::STANDARD`. It
/// takes canonical text alone (full padding, no stray bits behind the last
/// byte), so it gives the bytes whose base64 the text is, and fails where there
/// are none.
#[verifier::external_body]
pub(crate) fn base64_decode(text: &str) -> (r: Result<Vec<u8>, base64::DecodeError>)
    ensures
        match r {
            Ok(b) => text@ == base64_text(b@),
            Err(_) => forall|b: Seq<u8>| text@ != #[trigger] base64_text(b),
        },
{
    STANDARD.decode(text)
}

} // verus!
