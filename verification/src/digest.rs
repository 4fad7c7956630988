//! SHA-256 fingerprints and their lowercase hexadecimal rendering.

use sha2::Digest;
use sha2::Sha256;
use vstd::prelude::*;
use vstd::utf8::encode_utf8;

verus! {

/// The SHA-256 digest of `data`, as raw bytes.
pub uninterp spec fn sha256(data: Seq<u8>) -> Seq<u8>;

/// Runs `sha2::Sha256` over `data` (`new`, `update`, `finalize`) and copies
/// the output block into a vector. Trusted: the result is the SHA-256 digest
/// of exactly these bytes, which depends on nothing else, and it is 32 bytes
/// long.
#[verifier::external_body]
fn sha256_raw(data: &[u8]) -> (out: Vec<u8>)
    ensures
        out@ == sha256(data@),
        out@.len() == 32,
{
    let mut hasher = Sha256::new();
    hasher.update(data);
    hasher.finalize().to_vec()
}

/// The sixteen lowercase hexadecimal digits, in order of value.
pub open spec fn hex_digits() -> Seq<char> {
    seq!['0', '1', '2', '3', '4', '5', '6', '7', '8', '9', 'a', 'b', 'c', 'd', 'e', 'f']
}

/// The digit for a value below sixteen: the decimal digit below ten, then
/// `a` to `f`.
pub open spec fn digit_char(n: int) -> char
    recommends
        0 <= n < 16,
{
    hex_digits()[n]
}

/// Lowercase hexadecimal rendering of `data`: two digits per byte, the high
/// nibble first.
pub open spec fn hex_lower(data: Seq<u8>) -> Seq<char> {
    Seq::new(
        2 * data.len(),
        |i: int| if i % 2 == 0 { digit_char(data[i / 2] as int / 16) } else { digit_char(data[i / 2] as int % 16) },
    )
}

/// The fingerprint of a byte string: its SHA-256 digest in lowercase hex.
pub open spec fn fingerprint(data: Seq<u8>) -> Seq<char> {
    hex_lower(sha256(data))
}

/// The fingerprint of a text: that of its UTF-8 encoding.
pub open spec fn fingerprint_text(text: Seq<char>) -> Seq<char> {
    fingerprint(encode_utf8(text))
}

/// A one-character string holding the digit for `n`.
pub fn digit_str(n: u8) -> (s: &'static str)
    requires
        n < 16,
    ensures
        s@ == seq![digit_char(n as int)],
{
    proof {
        reveal_strlit("0");
        reveal_strlit("1");
        reveal_strlit("2");
        reveal_strlit("3");
        reveal_strlit("4");
        reveal_strlit("5");
        reveal_strlit("6");
        reveal_strlit("7");
        reveal_strlit("8");
        reveal_strlit("9");
        reveal_strlit("a");
        reveal_strlit("b");
        reveal_strlit("c");
        reveal_strlit("d");
        reveal_strlit("e");
        reveal_strlit("f");
    }
    let s = match n {
        0 => "0",
        1 => "1",
        2 => "2",
        3 => "3",
        4 => "4",
        5 => "5",
        6 => "6",
        7 => "7",
        8 => "8",
        9 => "9",
        10 => "a",
        11 => "b",
        12 => "c",
        13 => "d",
        14 => "e",
        _ => "f",
    };
    s
}

/// Renders `data` in lowercase hexadecimal.
pub fn to_hex(data: &[u8]) -> (out: String)
    ensures
        out@ == hex_lower(data@),
{
    let mut out = String::new();
    let mut i: usize = 0;
    while i < data.len()
        invariant
            i <= data.len(),
            out@ == hex_lower(data@.take(i as int)),
        decreases data.len() - i,
    {
        let b: u8 = data[i];
        out.append(digit_str(b / 16));
        out.append(digit_str(b % 16));
        assert(out@ =~= hex_lower(data@.take(i + 1)));
        i += 1;
    }
    out
}

/// Fingerprints `data`: SHA-256, rendered in lowercase hexadecimal, which
/// takes 64 digits.
pub fn fingerprint_of(data: &[u8]) -> (out: String)
    ensures
        out@ == fingerprint(data@),
        out@.len() == 64,
{
    let raw = sha256_raw(data);
    to_hex(raw.as_slice())
}

/// Fingerprints the UTF-8 bytes of `text`.
pub fn fingerprint_of_text(text: &str) -> (out: String)
    ensures
        out@ == fingerprint_text(text@),
        out@.len() == 64,
{
    fingerprint_of(text.as_bytes())
}

} // verus!
