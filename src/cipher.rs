//! Key derivation, the password check value and the counter-mode keystream.
use aes::cipher::{KeyIvInit, StreamCipher};
use md5::{Digest, Md5};
use vstd::prelude::*;
use vstd::string::StringSliceAdditionalSpecFns;

verus! {

type Aes128Ctr64LE = ctr::Ctr64LE<aes::Aes128>;

/// The fixed text whose digest is the cipher's initial counter block, and
/// which is appended to the password to form the check value.
pub const IV_TEXT: &'static str = "The great rejuvenation of the Chinese nation";

/// Length in bytes of an MD5 digest, which is also the AES-128 key and block size.
pub const DIGEST_LEN: usize = 16;

/// The MD5 digest of a byte sequence.
pub uninterp spec fn md5_of(data: Seq<u8>) -> [u8; 16];

/// The first `len` bytes of the AES-128 CTR (64-bit little-endian counter)
/// keystream for a key and an initial counter block.
pub uninterp spec fn aes128_ctr_keystream(key: Seq<u8>, iv: Seq<u8>, len: nat) -> Seq<u8>;

/// Byte-wise exclusive or of `data` with the first `data.len()` bytes of `pad`.
pub open spec fn xor_bytes(data: Seq<u8>, pad: Seq<u8>) -> Seq<u8> {
    Seq::new(data.len(), |i: int| data[i] ^ pad[i])
}

/// The bytes of the fixed initialisation text.
pub open spec fn iv_text_bytes() -> Seq<u8> {
    IV_TEXT.spec_bytes()
}

/// The cipher key: the digest of the password.
pub open spec fn key_of(password: Seq<u8>) -> Seq<u8> {
    md5_of(password)@
}

/// The initial counter block: the digest of the fixed text.
pub open spec fn iv_of() -> Seq<u8> {
    md5_of(iv_text_bytes())@
}

/// The check value stored in a database: the digest of the password
/// followed by the fixed text.
pub open spec fn check_value_of(password: Seq<u8>) -> Seq<u8> {
    md5_of(password + iv_text_bytes())@
}

/// What the stream cipher makes of `data` under `password`; the same
/// operation encrypts and decrypts.
pub open spec fn apply_cipher(password: Seq<u8>, data: Seq<u8>) -> Seq<u8> {
    xor_bytes(data, aes128_ctr_keystream(key_of(password), iv_of(), data.len()))
}

/// Relies on md5's `Md5::digest`: the 16-byte MD5 digest of `data`.
#[verifier::external_body]
fn md5_digest(data: &[u8]) -> (r: [u8; 16])
    ensures
        r == md5_of(data@),
{
    Md5::digest(data).into()
}

/// Relies on ctr's `Ctr64LE<Aes128>`: `new` from a 16-byte key and a
/// 16-byte counter block, then `apply_keystream`, which XORs the generated
/// keystream into the buffer. A new cipher's block position starts at zero
/// and may run through 2^64 blocks, so no buffer exhausts the keystream.
#[verifier::external_body]
fn ctr_apply_keystream(key: &[u8], iv: &[u8], data: &mut Vec<u8>)
    requires
        key@.len() == DIGEST_LEN,
        iv@.len() == DIGEST_LEN,
    ensures
        final(data)@ == xor_bytes(old(data)@, aes128_ctr_keystream(key@, iv@, old(data)@.len())),
{
    let mut c = Aes128Ctr64LE::new(key.into(), iv.into());
    c.apply_keystream(data.as_mut_slice());
}

/// The cipher key and initial counter block for a password.
pub fn derive(password: &str) -> (r: (Vec<u8>, Vec<u8>))
    ensures
        r.0@ == key_of(password.spec_bytes()),
        r.1@ == iv_of(),
        r.0@.len() == DIGEST_LEN,
        r.1@.len() == DIGEST_LEN,
{
    let key = md5_digest(password.as_bytes());
    let iv = md5_digest(IV_TEXT.as_bytes());
    (digest_to_vec(&key), digest_to_vec(&iv))
}

/// The 16-byte value that tells whether a password opens a database.
pub fn check_value(password: &str) -> (r: Vec<u8>)
    ensures
        r@ == check_value_of(password.spec_bytes()),
        r@.len() == DIGEST_LEN,
{
    let pw = password.as_bytes();
    let iv = IV_TEXT.as_bytes();
    let mut buf: Vec<u8> = Vec::new();
    let mut i: usize = 0;
    while i < pw.len()
        invariant
            i <= pw@.len(),
            buf@ == pw@.subrange(0, i as int),
        decreases pw@.len() - i,
    {
        buf.push(pw[i]);
        i = i + 1;
    }
    let mut j: usize = 0;
    while j < iv.len()
        invariant
            j <= iv@.len(),
            buf@ == pw@ + iv@.subrange(0, j as int),
        decreases iv@.len() - j,
    {
        buf.push(iv[j]);
        j = j + 1;
    }
    proof {
        assert(pw@ + iv@.subrange(0, iv@.len() as int) =~= pw@ + iv@);
    }
    let d = md5_digest(buf.as_slice());
    digest_to_vec(&d)
}

fn digest_to_vec(d: &[u8; 16]) -> (r: Vec<u8>)
    ensures
        r@ == d@,
        r@.len() == DIGEST_LEN,
{
    let mut v: Vec<u8> = Vec::new();
    let mut i: usize = 0;
    while i < DIGEST_LEN
        invariant
            i <= DIGEST_LEN,
            d@.len() == DIGEST_LEN,
            v@ =~= d@.subrange(0, i as int),
        decreases DIGEST_LEN - i,
    {
        v.push(d[i]);
        i = i + 1;
    }
    assert(d@.subrange(0, DIGEST_LEN as int) =~= d@);
    v
}

/// Encrypts or decrypts `data` in place with the keystream of `password`.
pub fn apply_keystream(password: &str, data: &mut Vec<u8>)
    ensures
        final(data)@ == apply_cipher(password.spec_bytes(), old(data)@),
{
    let (key, iv) = derive(password);
    ctr_apply_keystream(key.as_slice(), iv.as_slice(), data);
}

/// Applying the same keystream twice gives back the bytes it started from.
pub proof fn lemma_cipher_involution(password: Seq<u8>, data: Seq<u8>)
    ensures
        apply_cipher(password, apply_cipher(password, data)) == data,
{
    let pad = aes128_ctr_keystream(key_of(password), iv_of(), data.len());
    let once = apply_cipher(password, data);
    assert(once.len() == data.len());
    let twice = apply_cipher(password, once);
    assert forall|i: int| 0 <= i < data.len() implies twice[i] == data[i] by {
        let a = data[i];
        let k = pad[i];
        assert((a ^ k) ^ k == a) by (bit_vector);
    }
    assert(twice =~= data);
}

} // verus!
