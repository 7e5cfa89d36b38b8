//! Small byte-level helpers: hexadecimal rendering, UTF-8 decoding of stored
//! names, and conversions of raw UUID bytes.

use vstd::prelude::*;
use vstd::utf8::*;

verus! {

/// Relies on `std::string::String::from_utf8`: succeeds exactly on valid
/// UTF-8 and returns the string those bytes spell.
#[verifier::external_body]
pub(crate) fn bytes_to_string(v: Vec<u8>) -> (r: Option<String>)
    ensures
        (r is Some) == valid_utf8(v@),
        r matches Some(s) ==> s@ == decode_utf8(v@),
{
    String::from_utf8(v).ok()
}

/// The character spelling one hexadecimal digit, upper case.
pub open spec fn hex_digit_char(v: u8) -> char
    recommends
        v < 16,
{
    if v < 10 {
        (0x30 + v) as char
    } else {
        (0x37 + v) as char
    }
}

/// The upper-case hexadecimal spelling of a byte string, two digits a byte.
pub open spec fn hex_upper_of(data: Seq<u8>) -> Seq<char> {
    Seq::new(
        data.len() * 2,
        |i: int|
            if i % 2 == 0 {
                hex_digit_char((data[i / 2] / 16) as u8)
            } else {
                hex_digit_char((data[i / 2] % 16) as u8)
            },
    )
}

fn hex_digit_byte(v: u8) -> (b: u8)
    requires
        v < 16,
    ensures
        b == hex_digit_char(v) as u8,
        b as char == hex_digit_char(v),
        b < 128,
{
    if v < 10 {
        0x30 + v
    } else {
        0x37 + v
    }
}

/// Render a byte string as upper-case hexadecimal.
pub fn hex_upper_string(data: &[u8]) -> (r: String)
    requires
        data@.len() * 2 <= usize::MAX,
    ensures
        r@ == hex_upper_of(data@),
{
    let ghost chars: Seq<char> = hex_upper_of(data@);
    let mut out: Vec<u8> = Vec::new();
    let n = data.len();
    for i in 0..n
        invariant
            n == data@.len(),
            chars == hex_upper_of(data@),
            out@.len() == 2 * i,
            forall|j: int| 0 <= j < out@.len() ==> out@[j] == chars[j] as u8,
            forall|j: int| 0 <= j < out@.len() ==> out@[j] < 128,
    {
        let hi = data[i] / 16;
        let lo = data[i] % 16;
        out.push(hex_digit_byte(hi));
        out.push(hex_digit_byte(lo));
        proof {
            assert(chars[2 * i as int] == hex_digit_char(hi));
            assert(chars[2 * i as int + 1] == hex_digit_char(lo));
        }
    }
    proof {
        assert(is_ascii_chars(chars)) by {
            assert forall|j: int| 0 <= j < chars.len() implies '\0' <= #[trigger] chars[j]
                <= '\u{7f}' by {
                let v: u8 = if j % 2 == 0 {
                    (data@[j / 2] / 16) as u8
                } else {
                    (data@[j / 2] % 16) as u8
                };
                assert(chars[j] == hex_digit_char(v));
                assert((hex_digit_char(v) as u8) < 128);
            }
        }
        is_ascii_chars_encode_utf8(chars);
        assert(out@ =~= encode_utf8(chars));
        encode_utf8_valid_utf8(chars);
        encode_utf8_decode_utf8(chars);
    }
    let s = bytes_to_string(out);
    match s {
        Some(s) => s,
        None => {
            proof {
                assert(false);
            }
            String::new()
        },
    }
}

/// Check a plaintext-stored UUID field: exactly 16 raw bytes.
pub fn to_uuid_bytes(bytes: &[u8]) -> (r: Option<Vec<u8>>)
    ensures
        (r is Some) == (bytes@.len() == 16),
        r matches Some(u) ==> u@ == bytes@,
{
    if bytes.len() == 16 {
        let mut out: Vec<u8> = Vec::new();
        out.extend_from_slice(bytes);
        Some(out)
    } else {
        None
    }
}

/// Encode a boolean for the foreign caller: 1 for true, 0 for false.
pub fn bool_to_jboolean(input: bool) -> (r: u8)
    ensures
        r == (if input {
            1u8
        } else {
            0u8
        }),
{
    if input {
        1
    } else {
        0
    }
}

/// A copy of a byte string with the same contents.
pub fn clone_bytes(v: &Vec<u8>) -> (r: Vec<u8>)
    ensures
        r@ == v@,
{
    let r = v.clone();
    proof {
        assert(r@ =~= v@);
    }
    r
}

/// Byte-wise equality of two byte strings.
pub fn bytes_eq(a: &[u8], b: &[u8]) -> (r: bool)
    ensures
        r == (a@ == b@),
{
    if a.len() != b.len() {
        proof {
            assert(a@ != b@);
        }
        return false;
    }
    let n = a.len();
    for i in 0..n
        invariant
            n == a@.len(),
            n == b@.len(),
            forall|j: int| 0 <= j < i ==> a@[j] == b@[j],
    {
        if a[i] != b[i] {
            return false;
        }
    }
    proof {
        assert(a@ =~= b@);
    }
    true
}

/// The eight big-endian bytes of a 64-bit integer.
pub open spec fn u64_be_bytes(n: u64) -> Seq<u8> {
    seq![
        ((n >> 56) & 0xff) as u8,
        ((n >> 48) & 0xff) as u8,
        ((n >> 40) & 0xff) as u8,
        ((n >> 32) & 0xff) as u8,
        ((n >> 24) & 0xff) as u8,
        ((n >> 16) & 0xff) as u8,
        ((n >> 8) & 0xff) as u8,
        (n & 0xff) as u8,
    ]
}

/// Big-endian encoding of a 64-bit integer.
pub fn u64_to_be(n: u64) -> (r: Vec<u8>)
    ensures
        r@ == u64_be_bytes(n),
{
    let mut out: Vec<u8> = Vec::new();
    proof {
        assert((n >> 56) & 0xff < 256 && (n >> 48) & 0xff < 256 && (n >> 40) & 0xff < 256 && (n
            >> 32) & 0xff < 256 && (n >> 24) & 0xff < 256 && (n >> 16) & 0xff < 256 && (n >> 8)
            & 0xff < 256 && n & 0xff < 256) by (bit_vector);
    }
    out.push(((n >> 56) & 0xff) as u8);
    out.push(((n >> 48) & 0xff) as u8);
    out.push(((n >> 40) & 0xff) as u8);
    out.push(((n >> 32) & 0xff) as u8);
    out.push(((n >> 24) & 0xff) as u8);
    out.push(((n >> 16) & 0xff) as u8);
    out.push(((n >> 8) & 0xff) as u8);
    out.push((n & 0xff) as u8);
    proof {
        assert(out@ =~= u64_be_bytes(n));
    }
    out
}

/// The 64-bit integer spelled by eight big-endian bytes.
pub open spec fn be_bytes_u64(b: Seq<u8>) -> u64
    recommends
        b.len() == 8,
{
    (((b[0] as u64) << 56) | ((b[1] as u64) << 48) | ((b[2] as u64) << 40) | ((b[3] as u64) << 32)
        | ((b[4] as u64) << 24) | ((b[5] as u64) << 16) | ((b[6] as u64) << 8) | (b[7] as u64))
}

/// Decode eight big-endian bytes as a 64-bit integer.
pub fn u64_from_be(b: &[u8]) -> (r: u64)
    requires
        b@.len() == 8,
    ensures
        r == be_bytes_u64(b@),
{
    ((b[0] as u64) << 56) | ((b[1] as u64) << 48) | ((b[2] as u64) << 40) | ((b[3] as u64) << 32)
        | ((b[4] as u64) << 24) | ((b[5] as u64) << 16) | ((b[6] as u64) << 8) | (b[7] as u64)
}

/// Big-endian round trip: decoding the encoding of an integer yields it back.
pub proof fn lemma_u64_be_round_trip(n: u64)
    ensures
        be_bytes_u64(u64_be_bytes(n)) == n,
{
    let b = u64_be_bytes(n);
    let b0 = b[0];
    let b1 = b[1];
    let b2 = b[2];
    let b3 = b[3];
    let b4 = b[4];
    let b5 = b[5];
    let b6 = b[6];
    let b7 = b[7];
    assert(b0 == ((n >> 56) & 0xff) as u8 && b1 == ((n >> 48) & 0xff) as u8 && b2 == ((n >> 40)
        & 0xff) as u8 && b3 == ((n >> 32) & 0xff) as u8 && b4 == ((n >> 24) & 0xff) as u8 && b5 == (
    (n >> 16) & 0xff) as u8 && b6 == ((n >> 8) & 0xff) as u8 && b7 == (n & 0xff) as u8);
    assert((((((n >> 56) & 0xff) as u8) as u64) << 56) | (((((n >> 48) & 0xff) as u8) as u64) << 48)
        | (((((n >> 40) & 0xff) as u8) as u64) << 40) | (((((n >> 32) & 0xff) as u8) as u64) << 32)
        | (((((n >> 24) & 0xff) as u8) as u64) << 24) | (((((n >> 16) & 0xff) as u8) as u64) << 16)
        | (((((n >> 8) & 0xff) as u8) as u64) << 8) | (((n & 0xff) as u8) as u64) == n)
        by (bit_vector);
}

} // verus!
