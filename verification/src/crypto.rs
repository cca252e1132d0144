//! Primitives that come from the cryptography and randomness crates.
//!
//! Every function here makes one call into another crate. What those crates compute is
//! named (`aes128_ctr_keystream`, `hmac_sha1_tag`, `chacha20_poly1305_seal`,
//! `chacha20_poly1305_open`), and the packet format is specified over those names.
use aes::Aes128;
use aws_lc_rs::aead::{Aad, LessSafeKey, Nonce, UnboundKey, CHACHA20_POLY1305};
use aws_lc_rs::error::Unspecified;
use aws_lc_rs::hmac;
use ctr::cipher::{KeyIvInit, StreamCipher};
use ctr::Ctr128BE;
use rand::rngs::{OsRng, StdRng};
use rand::{Rng, RngCore, SeedableRng};
use subtle::ConstantTimeEq;
use vstd::prelude::*;

verus! {

/// Length of the tag that ChaCha20-Poly1305 appends to a message.
pub const AEAD_TAG_LEN: usize = 16;

/// Length of a full HMAC-SHA1 tag.
pub const HMAC_SHA1_LEN: usize = 20;

/// Exclusive bound on the length of a ChaCha20-Poly1305 message: the cipher counts
/// 64-byte blocks in 32 bits and keeps one for the authenticator.
pub const AEAD_MAX_LEN: u64 = 274_877_906_880;

/// The error value of `aws_lc_rs`, which carries no detail.
#[verifier::external_type_specification]
#[verifier::external_body]
pub struct ExUnspecified(Unspecified);

/// The seeded generator of the `rand` crate.
#[verifier::external_type_specification]
#[verifier::external_body]
pub struct ExStdRng(StdRng);

/// Byte number `position` of the AES-128 key stream in counter mode with a 128-bit
/// big-endian counter, as the `ctr` and `aes` crates produce it.
pub uninterp spec fn aes128_ctr_keystream(key: Seq<u8>, iv: Seq<u8>, position: int) -> u8;

/// The HMAC-SHA1 tag of `message` under `key`.
pub uninterp spec fn hmac_sha1_tag(key: Seq<u8>, message: Seq<u8>) -> Seq<u8>;

/// What ChaCha20-Poly1305 makes of `plain`: the ciphertext and the tag.
pub uninterp spec fn chacha20_poly1305_seal(
    key: Seq<u8>,
    nonce: Seq<u8>,
    aad: Seq<u8>,
    plain: Seq<u8>,
) -> (Seq<u8>, Seq<u8>);

/// What ChaCha20-Poly1305 recovers from `ciphertext`, or `None` where the tag does not
/// authenticate it.
pub uninterp spec fn chacha20_poly1305_open(
    key: Seq<u8>,
    nonce: Seq<u8>,
    aad: Seq<u8>,
    ciphertext: Seq<u8>,
    tag: Seq<u8>,
) -> Option<Seq<u8>>;

/// `data` with the key stream of `key` and `iv` laid over it.
pub open spec fn aes128_ctr(key: Seq<u8>, iv: Seq<u8>, data: Seq<u8>) -> Seq<u8> {
    Seq::new(data.len(), |i: int| data[i] ^ aes128_ctr_keystream(key, iv, i))
}

/// Laying the same key stream over data twice gives the data back.
pub proof fn aes128_ctr_is_its_own_inverse(key: Seq<u8>, iv: Seq<u8>, data: Seq<u8>)
    ensures
        aes128_ctr(key, iv, aes128_ctr(key, iv, data)) == data,
{
    assert forall|i: int| 0 <= i < data.len() implies aes128_ctr(
        key,
        iv,
        aes128_ctr(key, iv, data),
    )[i] == data[i] by {
        let d = data[i];
        let k = aes128_ctr_keystream(key, iv, i);
        assert((d ^ k) ^ k == d) by (bit_vector);
    }
    assert(aes128_ctr(key, iv, aes128_ctr(key, iv, data)) =~= data);
}

/// `StreamCipher::apply_keystream` of `ctr::Ctr128BE<aes::Aes128>`, on a cipher freshly
/// made from `key` and `iv`: it XORs the key stream, from its first byte on, over `data`.
#[verifier::external_body]
pub(crate) fn aes128_ctr_apply(key: &[u8], iv: &[u8], data: &mut [u8])
    requires
        key@.len() == 16,
        iv@.len() == 16,
    ensures
        final(data)@.len() == old(data)@.len(),
        forall|i: int|
            0 <= i < old(data)@.len() ==> #[trigger] final(data)@[i] == old(data)@[i]
                ^ aes128_ctr_keystream(key@, iv@, i),
{
    Ctr128BE::<Aes128>::new(key.into(), iv.into()).apply_keystream(data);
}

/// `aws_lc_rs::hmac::sign` with `HMAC_SHA1_FOR_LEGACY_USE_ONLY`: the tag of `message`,
/// which is twenty bytes long.
#[verifier::external_body]
pub(crate) fn hmac_sha1(key: &[u8], message: &[u8]) -> (tag: Vec<u8>)
    ensures
        tag@ == hmac_sha1_tag(key@, message@),
        tag@.len() == HMAC_SHA1_LEN,
{
    let key = hmac::Key::new(hmac::HMAC_SHA1_FOR_LEGACY_USE_ONLY, key);
    hmac::sign(&key, message).as_ref().to_vec()
}

/// `aws_lc_rs::aead::LessSafeKey::seal_in_place_separate_tag` with `CHACHA20_POLY1305`:
/// it encrypts `in_out` in place, keeps its length, and returns a tag of sixteen bytes.
/// It fails only on messages of `AEAD_MAX_LEN` bytes or more. What it sealed opens, under
/// the same key, nonce and associated data, to what was there before.
#[verifier::external_body]
pub(crate) fn chacha20_poly1305_seal_in_place(
    key: &[u8],
    nonce: [u8; 12],
    aad: &[u8],
    in_out: &mut [u8],
) -> (sealed: Result<Vec<u8>, Unspecified>)
    requires
        key@.len() == 32,
    ensures
        sealed is Ok <==> old(in_out)@.len() < AEAD_MAX_LEN,
        final(in_out)@.len() == old(in_out)@.len(),
        sealed is Ok ==> (final(in_out)@, sealed->Ok_0@) == chacha20_poly1305_seal(
            key@,
            nonce@,
            aad@,
            old(in_out)@,
        ),
        sealed is Ok ==> sealed->Ok_0@.len() == AEAD_TAG_LEN,
        sealed is Ok ==> chacha20_poly1305_open(
            key@,
            nonce@,
            aad@,
            final(in_out)@,
            sealed->Ok_0@,
        ) == Some(old(in_out)@),
{
    let key = LessSafeKey::new(UnboundKey::new(&CHACHA20_POLY1305, key)?);
    let nonce = Nonce::assume_unique_for_key(nonce);
    let tag = key.seal_in_place_separate_tag(nonce, Aad::from(aad), in_out)?;
    Ok(tag.as_ref().to_vec())
}

/// `aws_lc_rs::aead::LessSafeKey::open_in_place_separate_tag` with `CHACHA20_POLY1305`:
/// it replaces `in_out` by the recovered message, of the same length, where `tag`
/// authenticates it, and otherwise fails and leaves zeros.
#[verifier::external_body]
pub(crate) fn chacha20_poly1305_open_in_place(
    key: &[u8],
    nonce: [u8; 12],
    aad: &[u8],
    tag: &[u8],
    in_out: &mut [u8],
) -> (opened: Result<(), Unspecified>)
    requires
        key@.len() == 32,
    ensures
        final(in_out)@.len() == old(in_out)@.len(),
        opened is Ok <==> chacha20_poly1305_open(key@, nonce@, aad@, old(in_out)@, tag@) is Some,
        opened is Ok ==> chacha20_poly1305_open(key@, nonce@, aad@, old(in_out)@, tag@) == Some(
            final(in_out)@,
        ),
        opened is Err ==> final(in_out)@ == Seq::new(old(in_out)@.len(), |i: int| 0u8),
{
    let key = LessSafeKey::new(UnboundKey::new(&CHACHA20_POLY1305, key)?);
    let nonce = Nonce::assume_unique_for_key(nonce);
    key.open_in_place_separate_tag(nonce, Aad::from(aad), tag, in_out)?;
    Ok(())
}

/// `subtle::ConstantTimeEq::ct_eq` on byte slices: whether they hold the same bytes.
#[verifier::external_body]
pub(crate) fn constant_time_eq(left: &[u8], right: &[u8]) -> (equal: bool)
    ensures
        equal == (left@ == right@),
{
    left.ct_eq(right).into()
}

/// `rand::SeedableRng::from_entropy`: a generator seeded by the operating system.
#[verifier::external_body]
pub(crate) fn seeded_rng() -> (rng: StdRng) {
    StdRng::from_entropy()
}

/// `rand::Rng::gen_range` on a range that starts at zero: some number below `bound`.
#[verifier::external_body]
pub(crate) fn random_below(rng: &mut StdRng, bound: usize) -> (drawn: usize)
    requires
        bound > 0,
    ensures
        drawn < bound,
{
    rng.gen_range(0..bound)
}

/// `rand::RngCore::fill_bytes`: overwrites `out` with some bytes.
#[verifier::external_body]
pub(crate) fn random_fill(rng: &mut StdRng, out: &mut [u8])
    ensures
        final(out)@.len() == old(out)@.len(),
{
    rng.fill_bytes(out);
}

/// `rand::RngCore::fill_bytes` of the operating system's generator: twelve bytes.
#[verifier::external_body]
pub(crate) fn os_random_bytes() -> (drawn: [u8; 12]) {
    let mut drawn = [0u8; 12];
    OsRng.fill_bytes(&mut drawn);
    drawn
}

} // verus!
