//! Content identities: the text by which two files are told to hold the same
//! bytes, under one of three hash functions.

use crate::text::{decimal, push_decimal, string_of};
use blake2::{Blake2s256, Digest};
use data_encoding::HEXLOWER;
use fasthash::FastHash;
use vstd::prelude::*;

verus! {

/// The BLAKE2s hash of `data` with 256 bits of output, as
/// `blake2::Blake2s256` computes it.
pub uninterp spec fn blake2s256(data: Seq<u8>) -> Seq<u8>;

/// The 128-bit CityHash of `data` in its CRC variant, as
/// `fasthash::city::crc::Hash128` computes it.
pub uninterp spec fn city_crc_128(data: Seq<u8>) -> u128;

/// The 128-bit MurmurHash3 of `data` in its x64 variant with seed 0, as
/// `fasthash::murmur3::Hash128_x64` computes it.
pub uninterp spec fn murmur3_x64_128(data: Seq<u8>) -> u128;

/// The longest input that the MurmurHash3 routine takes: it is handed the
/// length as a signed 32-bit number.
pub const MURMUR_MAX_LEN: usize = 0x7fff_ffff;

/// A BLAKE2s computation that takes its input piece by piece, so that a
/// file need not be held in memory as a whole. It holds a
/// `blake2::Blake2s256`, of which the verifier sees nothing: all that is
/// known of it is what the three functions below state.
#[verifier::external_body]
pub struct Blake2Hasher {
    state: Blake2s256,
}

/// The bytes that a hasher has taken in so far, in their order.
pub uninterp spec fn absorbed(hasher: Blake2Hasher) -> Seq<u8>;

/// Calls `Blake2s256::new`. A new hasher has taken in nothing.
#[verifier::external_body]
fn blake2_new() -> (hasher: Blake2Hasher)
    ensures
        absorbed(hasher) == Seq::<u8>::empty(),
{
    Blake2Hasher { state: Blake2s256::new() }
}

/// Calls `Digest::update`, which processes `chunk` behind what the hasher
/// has taken in before.
#[verifier::external_body]
fn blake2_update(hasher: &mut Blake2Hasher, chunk: &[u8])
    ensures
        absorbed(*final(hasher)) == absorbed(*old(hasher)) + chunk@,
{
    hasher.state.update(chunk)
}

/// Calls `Digest::finalize`. The contract names the result, the hash of all
/// that the hasher has taken in, and states its length, the 32 bytes of the
/// 256-bit variant.
#[verifier::external_body]
fn blake2_finalize(hasher: Blake2Hasher) -> (digest: Vec<u8>)
    ensures
        digest@ == blake2s256(absorbed(hasher)),
        digest@.len() == 32,
{
    hasher.state.finalize().to_vec()
}

/// Calls `fasthash::city::crc::Hash128::hash`. The contract names the result.
#[verifier::external_body]
fn city_crc_128_of(data: &[u8]) -> (hash: u128)
    ensures
        hash == city_crc_128(data@),
{
    fasthash::city::crc::Hash128::hash(data)
}

/// Calls `fasthash::murmur3::Hash128_x64::hash`. The contract names the
/// result. Longer inputs are left out: the routine would be told a wrong
/// length.
#[verifier::external_body]
fn murmur3_x64_128_of(data: &[u8]) -> (hash: u128)
    requires
        data@.len() <= MURMUR_MAX_LEN,
    ensures
        hash == murmur3_x64_128(data@),
{
    fasthash::murmur3::Hash128_x64::hash(data)
}

/// The character that writes the hexadecimal digit `d` in lower case.
pub open spec fn hex_digit(d: int) -> char
    recommends
        0 <= d < 16,
{
    if d < 10 {
        (('0' as u8) + d) as char
    } else {
        (('a' as u8) + d - 10) as char
    }
}

/// The bytes written in hexadecimal: two lower-case digits for each byte,
/// the upper half of the byte first.
pub open spec fn hex_lower(bytes: Seq<u8>) -> Seq<char> {
    Seq::new(
        2 * bytes.len(),
        |i: int|
            if i % 2 == 0 {
                hex_digit(bytes[i / 2] as int / 16)
            } else {
                hex_digit(bytes[i / 2] as int % 16)
            },
    )
}

/// Calls `data_encoding::HEXLOWER.encode`, which writes each byte as two
/// digits over the symbols `0123456789abcdef`, most significant bits first.
/// Inputs for which the crate may refuse to compute the output's length are
/// left out.
#[verifier::external_body]
fn hex_lower_of(bytes: &[u8]) -> (text: String)
    requires
        bytes@.len() <= usize::MAX / 512,
    ensures
        text@ == hex_lower(bytes@),
{
    HEXLOWER.encode(bytes)
}

/// The identity of `content` under BLAKE2s: the hash in hexadecimal.
pub open spec fn blake2_identity(content: Seq<u8>) -> Seq<char> {
    hex_lower(blake2s256(content))
}

/// The identity of `content` under CityHash: the hash as a decimal number.
pub open spec fn city128_identity(content: Seq<u8>) -> Seq<char> {
    decimal(city_crc_128(content) as nat)
}

/// The identity of `content` under MurmurHash3: the hash as a decimal number.
pub open spec fn murmur128_identity(content: Seq<u8>) -> Seq<char> {
    decimal(murmur3_x64_128(content) as nat)
}

impl Blake2Hasher {
    /// The bytes that the hasher has taken in so far.
    pub open spec fn content(self) -> Seq<u8> {
        absorbed(self)
    }

    /// A hasher that has taken in nothing.
    pub fn new() -> (hasher: Blake2Hasher)
        ensures
            hasher.content() == Seq::<u8>::empty(),
    {
        blake2_new()
    }

    /// Takes in `chunk`, behind what was taken in before.
    pub fn update(&mut self, chunk: &[u8])
        ensures
            final(self).content() == old(self).content() + chunk@,
    {
        blake2_update(self, chunk)
    }

    /// The identity under BLAKE2s of all that was taken in.
    pub fn finish(self) -> (identity: String)
        ensures
            identity@ == blake2_identity(self.content()),
            identity@.len() == 64,
    {
        let digest = blake2_finalize(self);
        hex_lower_of(digest.as_slice())
    }
}

/// The identity of a file with the bytes `content` under BLAKE2s.
pub fn hash_file_blake2(content: &[u8]) -> (identity: String)
    ensures
        identity@ == blake2_identity(content@),
        identity@.len() == 64,
{
    let mut hasher = Blake2Hasher::new();
    hasher.update(content);
    assert(Seq::<u8>::empty() + content@ == content@);
    hasher.finish()
}

/// The identity of a file with the bytes `content` under CityHash.
pub fn hash_file_city128(content: &[u8]) -> (identity: String)
    ensures
        identity@ == city128_identity(content@),
{
    let hash = city_crc_128_of(content);
    let mut digits: Vec<char> = Vec::new();
    push_decimal(&mut digits, hash);
    string_of(digits.as_slice())
}

/// The identity of a file with the bytes `content` under MurmurHash3.
pub fn hash_file_murmur128(content: &[u8]) -> (identity: String)
    requires
        content@.len() <= MURMUR_MAX_LEN,
    ensures
        identity@ == murmur128_identity(content@),
{
    let hash = murmur3_x64_128_of(content);
    let mut digits: Vec<char> = Vec::new();
    push_decimal(&mut digits, hash);
    string_of(digits.as_slice())
}

/// Files with the same bytes have the same identity, under each of the three
/// hash functions.
pub proof fn law_same_content_same_identity(a: Seq<u8>, b: Seq<u8>)
    requires
        a.len() == b.len(),
        forall|i: int| 0 <= i < a.len() ==> a[i] == b[i],
    ensures
        blake2_identity(a) == blake2_identity(b),
        city128_identity(a) == city128_identity(b),
        murmur128_identity(a) == murmur128_identity(b),
{
    assert(a =~= b);
}

} // verus!
