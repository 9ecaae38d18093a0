//! SHA-256 digests, and the keys made from them.

use vstd::prelude::*;
use sha2::Digest;
use crate::paths;
use crate::text;

verus! {

/// The SHA-256 digest of bytes.
pub uninterp spec fn sha256_digest(bytes: Seq<u8>) -> Seq<u8>;

/// `sha2::Sha256::digest`: the digest depends on the bytes alone and has 32
/// bytes.
#[verifier::external_body]
fn sha256(bytes: &[u8]) -> (r: Vec<u8>)
    ensures
        r@ == sha256_digest(bytes@),
        r@.len() == 32,
{
    sha2::Sha256::digest(bytes).to_vec()
}

/// The hexadecimal digit of a number below sixteen.
pub open spec fn hex_digit(n: int) -> char {
    if n < 10 {
        ((48 + n) as u8) as char
    } else {
        ((87 + n) as u8) as char
    }
}

/// Two hexadecimal digits per byte.
pub open spec fn hex(bytes: Seq<u8>) -> Seq<char>
    decreases bytes.len(),
{
    if bytes.len() == 0 {
        Seq::empty()
    } else {
        hex(bytes.drop_last()).push(hex_digit(bytes.last() as int / 16)).push(
            hex_digit(bytes.last() as int % 16),
        )
    }
}

fn hex_digit_of(n: u8) -> (r: char)
    requires
        n < 16,
    ensures
        r == hex_digit(n as int),
{
    if n < 10 {
        (48 + n) as char
    } else {
        (87 + n) as char
    }
}

/// The first `count` bytes in hexadecimal.
pub fn hex_prefix(bytes: &Vec<u8>, count: usize) -> (r: String)
    requires
        count <= bytes@.len(),
    ensures
        r@ == hex(bytes@.take(count as int)),
{
    let mut out = String::new();
    let mut i: usize = 0;
    assert(out@ =~= hex(bytes@.take(0)));
    while i < count
        invariant
            i <= count <= bytes@.len(),
            out@ == hex(bytes@.take(i as int)),
        decreases count - i,
    {
        let byte: u8 = bytes[i];
        assert(bytes@.take(i + 1).drop_last() =~= bytes@.take(i as int));
        out.push(hex_digit_of(byte / 16));
        out.push(hex_digit_of(byte % 16));
        i += 1;
    }
    out
}

/// The first eight bytes of the digest of a text, in hexadecimal.
pub open spec fn fingerprint(value: Seq<char>) -> Seq<char> {
    hex(sha256_digest(vstd::utf8::encode_utf8(value)).take(8))
}

/// The first eight bytes of the digest of a text, in hexadecimal.
pub fn short_sha256(value: &str) -> (r: String)
    ensures
        r@ == fingerprint(value@),
{
    let digest = sha256(value.as_bytes());
    hex_prefix(&digest, 8)
}

/// The texts behind references.
pub open spec fn views(parts: Seq<&str>) -> Seq<Seq<char>> {
    parts.map_values(|part: &str| part@)
}

/// The bytes of several texts, each with a zero byte behind it.
pub open spec fn sealed(parts: Seq<Seq<char>>) -> Seq<u8>
    decreases parts.len(),
{
    if parts.len() == 0 {
        Seq::empty()
    } else {
        sealed(parts.drop_last()) + vstd::utf8::encode_utf8(parts.last()) + seq![0u8]
    }
}

/// The digest of several texts, kept apart by zero bytes.
pub fn cindy_hash(parts: &Vec<&str>) -> (r: Vec<u8>)
    ensures
        r@ == sha256_digest(sealed(views(parts@))),
        r@.len() == 32,
{
    let mut bytes: Vec<u8> = Vec::new();
    let mut i: usize = 0;
    while i < parts.len()
        invariant
            i <= parts@.len(),
            bytes@ == sealed(views(parts@.take(i as int))),
        decreases parts@.len() - i,
    {
        bytes.extend_from_slice(parts[i].as_bytes());
        bytes.push(0);
        proof {
            let more = views(parts@.take(i + 1));
            assert(more.drop_last() =~= views(parts@.take(i as int)));
            assert(more.last() == parts@[i as int]@);
            assert(bytes@ =~= sealed(more));
        }
        i += 1;
    }
    assert(parts@.take(parts@.len() as int) =~= parts@);
    sha256(bytes.as_slice())
}

/// Half of the digest of several texts, in hexadecimal.
pub open spec fn short_hash(parts: Seq<Seq<char>>) -> Seq<char> {
    hex(sha256_digest(sealed(parts)).take(16))
}

/// Half of the digest of several texts, in hexadecimal.
pub fn cindy_short_hash(parts: &Vec<&str>) -> (r: String)
    ensures
        r@ == short_hash(views(parts@)),
{
    let digest = cindy_hash(parts);
    hex_prefix(&digest, 16)
}

/// The number that bytes spell, the most significant first.
pub open spec fn big_endian(bytes: Seq<u8>) -> nat
    decreases bytes.len(),
{
    if bytes.len() == 0 {
        0
    } else {
        256 * big_endian(bytes.drop_last()) + bytes.last() as nat
    }
}

/// A number for a list of paths: the first eight bytes of their digest,
/// without the sign bit.
pub open spec fn source_set_marker(paths: Seq<Seq<char>>) -> int {
    big_endian(sha256_digest(sealed(paths)).take(8)) as int % 0x8000_0000_0000_0000
}

/// A number for a list of paths, by which a change of the list shows.
pub fn cindy_source_set_marker(items: &Vec<String>) -> (r: i64)
    ensures
        r == source_set_marker(paths::texts(items@)),
        r >= 0,
{
    let mut parts: Vec<&str> = Vec::new();
    let mut i: usize = 0;
    while i < items.len()
        invariant
            i <= items@.len(),
            views(parts@) == paths::texts(items@.take(i as int)),
        decreases items@.len() - i,
    {
        let ghost before = parts@;
        parts.push(items[i].as_str());
        proof {
            assert(views(parts@) =~= views(before).push(items@[i as int]@));
            assert(paths::texts(items@.take(i + 1)) =~= paths::texts(items@.take(i as int)).push(
                items@[i as int]@,
            ));
        }
        i += 1;
    }
    assert(items@.take(items@.len() as int) =~= items@);
    let digest = cindy_hash(&parts);
    let mut value: u64 = 0;
    let mut k: usize = 0;
    let ghost mut bound: int = 1;
    proof {
        vstd::arithmetic::power2::lemma2_to64();
    }
    while k < 8
        invariant
            k <= 8,
            digest@.len() == 32,
            value as int == big_endian(digest@.take(k as int)),
            bound == vstd::arithmetic::power2::pow2((8 * k) as nat),
            value < bound,
        decreases 8 - k,
    {
        proof {
            assert(digest@.take(k + 1).drop_last() =~= digest@.take(k as int));
            vstd::arithmetic::power2::lemma_pow2_adds((8 * k) as nat, 8);
            vstd::arithmetic::power2::lemma2_to64();
            vstd::arithmetic::power2::lemma2_to64_rest();
            bound = bound * 256;
            assert(256 * value + 255 < bound);
            if 8 * (k + 1) < 64 {
                vstd::arithmetic::power2::lemma_pow2_strictly_increases((8 * (k + 1)) as nat, 64);
            }
        }
        value = value * 256 + digest[k] as u64;
        k += 1;
    }
    (value % 0x8000_0000_0000_0000) as i64
}

/// The name under which the state of a Cindy database is kept.
pub open spec fn cindy_sync_name(path: Seq<char>) -> Seq<char> {
    "desktop:cindy:v5:"@ + short_hash(seq![path])
}

/// The name under which the state of a Cindy database is kept.
pub fn cindy_sync_key(path: &str) -> (r: String)
    ensures
        r@ == cindy_sync_name(path@),
{
    let parts: Vec<&str> = vec![path];
    assert(views(parts@) =~= seq![path@]);
    text::joined("desktop:cindy:v5:", cindy_short_hash(&parts).as_str())
}

/// Bytes in hexadecimal are two digits each, in their order: the first counts
/// sixteens and the second ones, with small letters for ten and more.
pub proof fn law_hex_spells_the_bytes(bytes: Seq<u8>, i: int)
    requires
        0 <= i < bytes.len(),
    ensures
        hex(bytes).len() == 2 * bytes.len(),
        ({
            let high = bytes[i] as int / 16;
            let low = bytes[i] as int % 16;
            &&& high < 10 ==> hex(bytes)[2 * i] as u32 == '0' as u32 + high
            &&& high >= 10 ==> hex(bytes)[2 * i] as u32 == 'a' as u32 + high - 10
            &&& low < 10 ==> hex(bytes)[2 * i + 1] as u32 == '0' as u32 + low
            &&& low >= 10 ==> hex(bytes)[2 * i + 1] as u32 == 'a' as u32 + low - 10
        }),
    decreases bytes.len(),
{
    let fewer = bytes.drop_last();
    if i < fewer.len() {
        law_hex_spells_the_bytes(fewer, i);
        assert(hex(bytes)[2 * i] == hex(fewer)[2 * i]);
        assert(hex(bytes)[2 * i + 1] == hex(fewer)[2 * i + 1]);
    } else {
        if fewer.len() > 0 {
            law_hex_spells_the_bytes(fewer, 0);
        }
        assert(hex(fewer).len() == 2 * fewer.len());
    }
}

/// A fingerprint spells the first eight bytes of the digest of the text, and a
/// short key the first sixteen of the digest of its parts.
pub proof fn law_fingerprints_are_of_the_digest(value: Seq<char>, parts: Seq<Seq<char>>)
    requires
        sha256_digest(vstd::utf8::encode_utf8(value)).len() == 32,
        sha256_digest(sealed(parts)).len() == 32,
    ensures
        fingerprint(value) == hex(sha256_digest(vstd::utf8::encode_utf8(value)).subrange(0, 8)),
        fingerprint(value).len() == 16,
        short_hash(parts) == hex(sha256_digest(sealed(parts)).subrange(0, 16)),
        short_hash(parts).len() == 32,
{
    let digest = sha256_digest(vstd::utf8::encode_utf8(value));
    let whole = sha256_digest(sealed(parts));
    assert(digest.take(8) =~= digest.subrange(0, 8));
    assert(whole.take(16) =~= whole.subrange(0, 16));
    law_hex_spells_the_bytes(digest.take(8), 0);
    law_hex_spells_the_bytes(whole.take(16), 0);
}

/// The bytes that are digested are those of the parts in their order, each
/// with a zero behind it.
pub proof fn law_parts_are_sealed(parts: Seq<Seq<char>>, part: Seq<char>)
    ensures
        sealed(Seq::<Seq<char>>::empty()) == Seq::<u8>::empty(),
        sealed(parts.push(part)) == sealed(parts) + vstd::utf8::encode_utf8(part) + seq![0u8],
{
    assert(parts.push(part).drop_last() =~= parts);
}

/// The number that bytes spell is below the power of 256 with as many factors
/// as there are bytes, and a byte more makes it 256 times as much and adds
/// itself.
pub proof fn law_big_endian(bytes: Seq<u8>, last: u8)
    ensures
        big_endian(Seq::<u8>::empty()) == 0,
        big_endian(bytes.push(last)) == 256 * big_endian(bytes) + last,
{
    assert(bytes.push(last).drop_last() =~= bytes);
}

} // verus!
