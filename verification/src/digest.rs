//! SHA-1 digests, their lowercase hex form, and the ring keys taken from them.
use vstd::prelude::*;
use vstd::string::*;
use vstd::utf8::*;
use sha1::Digest;

verus! {

broadcast use {encode_utf8_valid_utf8, is_ascii_chars_encode_utf8};

/// The SHA-1 digest of `data`.
pub uninterp spec fn sha1_digest(data: Seq<u8>) -> Seq<u8>;

/// Calls `sha1::Sha1::digest` (default state, one `update`, `finalize`).
/// Trusted: the result is the digest of `data` and, as the output type `U20`
/// shows, 20 bytes long.
#[verifier::external_body]
fn sha1(data: &[u8]) -> (r: Vec<u8>)
    ensures
        r@ == sha1_digest(data@),
        r@.len() == 20,
{
    sha1::Sha1::digest(data).to_vec()
}

/// The lowercase hex digit for `n < 16`.
pub open spec fn hex_char(n: u8) -> char {
    if n < 10 {
        (48 + n) as char
    } else {
        (87 + n) as char
    }
}

/// Two lowercase hex digits per byte, high nibble first.
pub open spec fn hex_of(bytes: Seq<u8>) -> Seq<char>
    decreases bytes.len(),
{
    if bytes.len() == 0 {
        Seq::empty()
    } else {
        seq![hex_char(bytes[0] / 16), hex_char(bytes[0] % 16)] + hex_of(bytes.drop_first())
    }
}

/// Calls `hex::encode`. Trusted: the result is `hex_of(data)`, which is what the
/// crate's source writes (table `0123456789abcdef`, high nibble first).
#[verifier::external_body]
fn hex_encode(data: &[u8]) -> (r: String)
    ensures
        r@ == hex_of(data@),
{
    hex::encode(data)
}

/// The hex form of bytes is ASCII, twice as long, and starts with the digits of
/// the first byte.
pub proof fn lemma_hex_of(bytes: Seq<u8>)
    ensures
        hex_of(bytes).len() == 2 * bytes.len(),
        is_ascii_chars(hex_of(bytes)),
        bytes.len() > 0 ==> hex_of(bytes)[0] == hex_char(bytes[0] / 16) && hex_of(bytes)[1]
            == hex_char(bytes[0] % 16),
    decreases bytes.len(),
{
    if bytes.len() > 0 {
        lemma_hex_of(bytes.drop_first());
        let h = seq![hex_char(bytes[0] / 16), hex_char(bytes[0] % 16)];
        assert(hex_of(bytes) == h + hex_of(bytes.drop_first()));
        assert forall|i| 0 <= i < hex_of(bytes).len() implies '\0' <= #[trigger] hex_of(bytes)[i]
            <= '\u{7f}' by {
            if i >= 2 {
                assert(hex_of(bytes)[i] == hex_of(bytes.drop_first())[i - 2]);
            }
        }
    }
}

/// The value of a hex digit byte, either case.
pub open spec fn hex_digit_value(b: u8) -> Option<u8> {
    if 48 <= b <= 57 {
        Some((b - 48) as u8)
    } else if 97 <= b <= 102 {
        Some((b - 87) as u8)
    } else if 65 <= b <= 70 {
        Some((b - 55) as u8)
    } else {
        None
    }
}

/// What `u8::from_str_radix(s, 16)` gives for a two-byte `s = [b0, b1]`: an
/// optional leading `+` followed by hex digits.
pub open spec fn parse_hex_pair(b0: u8, b1: u8) -> Option<u8> {
    if b0 == 43 {
        hex_digit_value(b1)
    } else {
        match (hex_digit_value(b0), hex_digit_value(b1)) {
            (Some(h), Some(l)) => Some((16 * h + l) as u8),
            _ => None,
        }
    }
}

fn digit_value(b: u8) -> (r: Option<u8>)
    ensures
        r == hex_digit_value(b),
{
    if 48 <= b && b <= 57 {
        Some(b - 48)
    } else if 97 <= b && b <= 102 {
        Some(b - 87)
    } else if 65 <= b && b <= 70 {
        Some(b - 55)
    } else {
        None
    }
}

/// The ring key a hex hash names: its first two characters read as a base-16
/// number, as `u8::from_str_radix(&hash[..2], 16)` does. `None` when they are
/// not hex digits. The slice `&hash[..2]` needs byte 2 to start a character.
pub fn routing_key_from_hash(hash: &str) -> (r: Option<u8>)
    requires
        is_char_boundary(hash.spec_bytes(), 2),
    ensures
        hash.spec_bytes().len() >= 2,
        r == parse_hex_pair(hash.spec_bytes()[0], hash.spec_bytes()[1]),
{
    proof {
        reveal_with_fuel(is_char_boundary, 1);
    }
    let bytes = hash.as_bytes();
    let b0: u8 = bytes[0];
    let b1: u8 = bytes[1];
    if b0 == 43 {
        return digit_value(b1);
    }
    match (digit_value(b0), digit_value(b1)) {
        (Some(h), Some(l)) => Some(16 * h + l),
        _ => None,
    }
}

/// The hex form of a digest names, through its first two characters, the
/// digest's first byte.
pub proof fn lemma_hex_key_roundtrip(digest: Seq<u8>)
    requires
        digest.len() > 0,
    ensures
        encode_utf8(hex_of(digest)).len() >= 2,
        is_char_boundary(encode_utf8(hex_of(digest)), 2),
        parse_hex_pair(encode_utf8(hex_of(digest))[0], encode_utf8(hex_of(digest))[1]) == Some(
            digest[0],
        ),
{
    lemma_hex_of(digest);
    let h = hex_of(digest);
    let b = encode_utf8(h);
    assert(b[0] == h[0] as u8 && b[1] == h[1] as u8);
    if b.len() > 2 {
        is_char_boundary_iff_not_is_continuation_byte(b, 2);
        assert(b[2] == h[2] as u8);
    } else {
        is_char_boundary_start_end_of_seq(b);
    }
    let d: u8 = digest[0];
    assert(d / 16 < 16 && d % 16 < 16);
    assert(d == 16 * (d / 16) + d % 16);
}

/// The key a name is stored and searched under: the hex SHA-1 of its UTF-8 bytes.
pub open spec fn name_hash(name: Seq<char>) -> Seq<char> {
    hex_of(sha1_digest(encode_utf8(name)))
}

/// The ring identifier of a name: the first byte of its SHA-1.
pub open spec fn name_ring_id(name: Seq<char>) -> u8 {
    sha1_digest(encode_utf8(name))[0]
}

/// The hex SHA-1 of `text` and the ring identifier its first byte gives.
pub fn search_key(text: &str) -> (r: (String, u8))
    ensures
        r.0@ == name_hash(text@),
        r.0@.len() == 40,
        r.1 == name_ring_id(text@),
{
    let digest = sha1(text.as_bytes());
    let file_hash = hex_encode(digest.as_slice());
    proof {
        lemma_hex_of(digest@);
    }
    (file_hash, digest[0])
}

/// A member's ring identifier: the first byte of the SHA-1 of its IP address.
pub fn generate_id_from_ip(ip: &str) -> (id: u8)
    ensures
        id == name_ring_id(ip@),
{
    let digest = sha1(ip.as_bytes());
    digest[0]
}

/// The lowercase hex SHA-1 of `data`, as chunk hashes are written.
pub fn hex_sha1(data: &[u8]) -> (r: String)
    ensures
        r@ == hex_of(sha1_digest(data@)),
{
    let digest = sha1(data);
    hex_encode(digest.as_slice())
}

} // verus!
