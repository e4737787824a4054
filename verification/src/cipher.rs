//! The AES-GCM capability: keys, nonces, and sealing and opening one unit.

use crate::error::StageError;
use crate::frame::{CipherText, NONCE_SIZE, TAG_SIZE};
use aes_gcm::aead::generic_array::GenericArray;
use aes_gcm::{AeadCore, AeadInPlace, Aes128Gcm, Aes256Gcm, KeyInit};
use rand::rngs::ThreadRng;
use sha2::{Digest, Sha256};
use vstd::prelude::*;
use vstd::string::StringSliceAdditionalSpecFns;

verus! {

/// Bytes in an AES-128 key.
pub const AES128_KEY_SIZE: usize = 16;

/// Bytes in an AES-256 key, and in a SHA-256 digest.
pub const AES256_KEY_SIZE: usize = 32;

/// Longest plaintext, in bytes, that AES-GCM seals in one call.
pub const MAX_PLAINTEXT: u64 = 0x10_0000_0000;

/// The error value of the `aead` traits; it carries no detail.
#[verifier::external_type_specification]
#[verifier::external_body]
pub struct ExAeadError(aes_gcm::Error);

/// The thread-local generator of `rand`.
#[verifier::external_type_specification]
#[verifier::external_body]
pub struct ExThreadRng(rand::rngs::ThreadRng);

/// The SHA-256 digest of `data`.
pub uninterp spec fn sha256(data: Seq<u8>) -> Seq<u8>;

/// What AES-128-GCM makes of `plain` under `key` and `nonce` with no
/// associated data: the ciphertext followed by the tag.
pub uninterp spec fn aes128_gcm_seal(key: Seq<u8>, nonce: Seq<u8>, plain: Seq<u8>) -> Seq<u8>;

/// What AES-128-GCM recovers from `body` under `key` and `nonce` with no
/// associated data, or `None` where `body` does not authenticate.
pub uninterp spec fn aes128_gcm_open(key: Seq<u8>, nonce: Seq<u8>, body: Seq<u8>) -> Option<
    Seq<u8>,
>;

/// What AES-256-GCM makes of `plain` under `key` and `nonce` with no
/// associated data: the ciphertext followed by the tag.
pub uninterp spec fn aes256_gcm_seal(key: Seq<u8>, nonce: Seq<u8>, plain: Seq<u8>) -> Seq<u8>;

/// What AES-256-GCM recovers from `body` under `key` and `nonce` with no
/// associated data, or `None` where `body` does not authenticate.
pub uninterp spec fn aes256_gcm_open(key: Seq<u8>, nonce: Seq<u8>, body: Seq<u8>) -> Option<
    Seq<u8>,
>;

/// `Sha256::digest` of the `sha2` crate. Not proved: that the result is the
/// digest, which `sha256` names, and that it is 32 bytes long.
#[verifier::external_body]
fn sha256_digest(data: &[u8]) -> (digest: Vec<u8>)
    ensures
        digest@ == sha256(data@),
        digest@.len() == AES256_KEY_SIZE,
{
    Sha256::digest(data).to_vec()
}

/// `AeadCore::generate_nonce` of the `aead` crate, at the nonce size that
/// both AES-GCM variants share. Not proved: that the result is 12 bytes long.
/// Nothing is claimed of the bytes themselves, which the generator draws.
#[verifier::external_body]
pub(crate) fn generate_nonce(rng: &mut ThreadRng) -> (nonce: Vec<u8>)
    ensures
        nonce@.len() == NONCE_SIZE,
{
    Aes128Gcm::generate_nonce(rng).to_vec()
}

/// `AeadInPlace::encrypt_in_place` of `Aes128Gcm`, keyed by
/// `KeyInit::new_from_slice`, with no associated data. Not proved: that the
/// call fails exactly on a buffer longer than `MAX_PLAINTEXT`, and that on
/// success the buffer holds the sealed body, which `aes128_gcm_seal` names and
/// which is one tag longer than the plaintext.
#[verifier::external_body]
fn aes128_seal_in_place(key: &[u8], nonce: &[u8], buf: &mut Vec<u8>) -> (r: Result<
    (),
    aes_gcm::Error,
>)
    requires
        key@.len() == AES128_KEY_SIZE,
        nonce@.len() == NONCE_SIZE,
    ensures
        r.is_ok() <==> old(buf)@.len() <= MAX_PLAINTEXT,
        r.is_ok() ==> final(buf)@ == aes128_gcm_seal(key@, nonce@, old(buf)@),
        r.is_ok() ==> final(buf)@.len() == old(buf)@.len() + TAG_SIZE,
{
    let cipher = Aes128Gcm::new_from_slice(key).unwrap();
    cipher.encrypt_in_place(GenericArray::from_slice(nonce), b"", buf)
}

/// `AeadInPlace::decrypt_in_place` of `Aes128Gcm`, keyed by
/// `KeyInit::new_from_slice`, with no associated data. Not proved: that the
/// call succeeds exactly where `aes128_gcm_open` names a plaintext, which the
/// buffer then holds and which is one tag shorter than the body; and that a
/// body which is the sealing of a plaintext under this key and nonce opens to
/// that plaintext.
#[verifier::external_body]
fn aes128_open_in_place(key: &[u8], nonce: &[u8], buf: &mut Vec<u8>) -> (r: Result<
    (),
    aes_gcm::Error,
>)
    requires
        key@.len() == AES128_KEY_SIZE,
        nonce@.len() == NONCE_SIZE,
    ensures
        r.is_ok() <==> aes128_gcm_open(key@, nonce@, old(buf)@) is Some,
        r.is_ok() ==> aes128_gcm_open(key@, nonce@, old(buf)@) == Some(final(buf)@),
        r.is_ok() ==> final(buf)@.len() + TAG_SIZE == old(buf)@.len(),
        forall|plain: Seq<u8>|
            plain.len() <= MAX_PLAINTEXT && #[trigger] aes128_gcm_seal(key@, nonce@, plain) == old(
                buf,
            )@ ==> r.is_ok() && final(buf)@ == plain,
{
    let cipher = Aes128Gcm::new_from_slice(key).unwrap();
    cipher.decrypt_in_place(GenericArray::from_slice(nonce), b"", buf)
}

/// `AeadInPlace::encrypt_in_place` of `Aes256Gcm`, keyed by
/// `KeyInit::new_from_slice`, with no associated data. Not proved: that the
/// call fails exactly on a buffer longer than `MAX_PLAINTEXT`, and that on
/// success the buffer holds the sealed body, which `aes256_gcm_seal` names and
/// which is one tag longer than the plaintext.
#[verifier::external_body]
fn aes256_seal_in_place(key: &[u8], nonce: &[u8], buf: &mut Vec<u8>) -> (r: Result<
    (),
    aes_gcm::Error,
>)
    requires
        key@.len() == AES256_KEY_SIZE,
        nonce@.len() == NONCE_SIZE,
    ensures
        r.is_ok() <==> old(buf)@.len() <= MAX_PLAINTEXT,
        r.is_ok() ==> final(buf)@ == aes256_gcm_seal(key@, nonce@, old(buf)@),
        r.is_ok() ==> final(buf)@.len() == old(buf)@.len() + TAG_SIZE,
{
    let cipher = Aes256Gcm::new_from_slice(key).unwrap();
    cipher.encrypt_in_place(GenericArray::from_slice(nonce), b"", buf)
}

/// `AeadInPlace::decrypt_in_place` of `Aes256Gcm`, keyed by
/// `KeyInit::new_from_slice`, with no associated data. Not proved: that the
/// call succeeds exactly where `aes256_gcm_open` names a plaintext, which the
/// buffer then holds and which is one tag shorter than the body; and that a
/// body which is the sealing of a plaintext under this key and nonce opens to
/// that plaintext.
#[verifier::external_body]
fn aes256_open_in_place(key: &[u8], nonce: &[u8], buf: &mut Vec<u8>) -> (r: Result<
    (),
    aes_gcm::Error,
>)
    requires
        key@.len() == AES256_KEY_SIZE,
        nonce@.len() == NONCE_SIZE,
    ensures
        r.is_ok() <==> aes256_gcm_open(key@, nonce@, old(buf)@) is Some,
        r.is_ok() ==> aes256_gcm_open(key@, nonce@, old(buf)@) == Some(final(buf)@),
        r.is_ok() ==> final(buf)@.len() + TAG_SIZE == old(buf)@.len(),
        forall|plain: Seq<u8>|
            plain.len() <= MAX_PLAINTEXT && #[trigger] aes256_gcm_seal(key@, nonce@, plain) == old(
                buf,
            )@ ==> r.is_ok() && final(buf)@ == plain,
{
    let cipher = Aes256Gcm::new_from_slice(key).unwrap();
    cipher.decrypt_in_place(GenericArray::from_slice(nonce), b"", buf)
}

/// The two variants of AES-GCM that the library offers.
#[derive(Debug, Clone, Copy, PartialEq, Eq, Structural)]
pub enum CipherKind {
    Aes128Gcm,
    Aes256Gcm,
}

/// A cipher as a mathematical value: the variant and the key.
pub struct CipherKey {
    pub kind: CipherKind,
    pub key: Seq<u8>,
}

/// A keyed cipher.
pub struct Cipher {
    kind: CipherKind,
    key: Vec<u8>,
}

/// Bytes in a key of the variant `kind`.
pub open spec fn key_size(kind: CipherKind) -> nat {
    match kind {
        CipherKind::Aes128Gcm => AES128_KEY_SIZE as nat,
        CipherKind::Aes256Gcm => AES256_KEY_SIZE as nat,
    }
}

/// The body that sealing `plain` under `c` and `nonce` gives.
pub open spec fn seal(c: CipherKey, nonce: Seq<u8>, plain: Seq<u8>) -> Seq<u8> {
    match c.kind {
        CipherKind::Aes128Gcm => aes128_gcm_seal(c.key, nonce, plain),
        CipherKind::Aes256Gcm => aes256_gcm_seal(c.key, nonce, plain),
    }
}

/// The plaintext that `body` opens to under `c` and `nonce`, or `None` where
/// it does not authenticate.
pub open spec fn unseal(c: CipherKey, nonce: Seq<u8>, body: Seq<u8>) -> Option<Seq<u8>> {
    match c.kind {
        CipherKind::Aes128Gcm => aes128_gcm_open(c.key, nonce, body),
        CipherKind::Aes256Gcm => aes256_gcm_open(c.key, nonce, body),
    }
}

/// Whatever plaintext `body` is the sealing of, under `c` and `nonce`, is the
/// plaintext that `body` opens to.
pub open spec fn opening_inverts_sealing(c: CipherKey, nonce: Seq<u8>, body: Seq<u8>) -> bool {
    forall|plain: Seq<u8>|
        plain.len() <= MAX_PLAINTEXT && #[trigger] seal(c, nonce, plain) == body ==> unseal(
            c,
            nonce,
            body,
        ) == Some(plain)
}

impl View for Cipher {
    type V = CipherKey;

    closed spec fn view(&self) -> CipherKey {
        CipherKey { kind: self.kind, key: self.key@ }
    }
}

impl Cipher {
    #[verifier::type_invariant]
    spec fn key_fits(self) -> bool {
        self.key@.len() == key_size(self.kind)
    }

    /// Makes a cipher of the variant `kind` from key material, which must
    /// have that variant's key size.
    pub fn from_key(kind: CipherKind, key: Vec<u8>) -> (cipher: Option<Cipher>)
        ensures
            cipher is Some <==> key@.len() == key_size(kind),
            cipher is Some ==> cipher.unwrap()@ == (CipherKey { kind, key: key@ }),
    {
        let wanted: usize = match kind {
            CipherKind::Aes128Gcm => AES128_KEY_SIZE,
            CipherKind::Aes256Gcm => AES256_KEY_SIZE,
        };
        if key.len() == wanted {
            Some(Cipher { kind, key })
        } else {
            None
        }
    }

    /// The variant of this cipher.
    pub fn kind(&self) -> (kind: CipherKind)
        ensures
            kind == self@.kind,
    {
        self.kind
    }

    /// Seals one chunk under `nonce`, and packs nonce and body as a frame.
    /// Fails only on a chunk longer than the cipher takes.
    pub fn seal_chunk(&self, nonce: Vec<u8>, chunk: Vec<u8>) -> (r: Result<CipherText, StageError>)
        requires
            nonce@.len() == NONCE_SIZE,
        ensures
            r is Ok <==> chunk@.len() <= MAX_PLAINTEXT,
            match r {
                Ok(frame) => {
                    &&& frame@.nonce == nonce@
                    &&& frame@.body == seal(self@, nonce@, chunk@)
                    &&& frame@.body.len() == chunk@.len() + TAG_SIZE
                },
                Err(e) => e == StageError::Encrypt,
            },
    {
        proof {
            use_type_invariant(self);
        }
        let mut buf = chunk;
        let sealed = match self.kind {
            CipherKind::Aes128Gcm => aes128_seal_in_place(
                self.key.as_slice(),
                nonce.as_slice(),
                &mut buf,
            ),
            CipherKind::Aes256Gcm => aes256_seal_in_place(
                self.key.as_slice(),
                nonce.as_slice(),
                &mut buf,
            ),
        };
        match sealed {
            Ok(_) => Ok(CipherText { nonce, vec: buf }),
            Err(_) => Err(StageError::Encrypt),
        }
    }

    /// Opens one frame: authenticates the body under the frame's nonce and
    /// gives the plaintext, or fails where the body does not authenticate.
    pub fn open_frame(&self, frame: CipherText) -> (r: Result<Vec<u8>, StageError>)
        requires
            frame@.nonce.len() == NONCE_SIZE,
        ensures
            match r {
                Ok(plain) => {
                    &&& unseal(self@, frame@.nonce, frame@.body) == Some(plain@)
                    &&& plain@.len() + TAG_SIZE == frame@.body.len()
                },
                Err(e) => e == StageError::Decrypt && unseal(
                    self@,
                    frame@.nonce,
                    frame@.body,
                ) is None,
            },
            opening_inverts_sealing(self@, frame@.nonce, frame@.body),
    {
        proof {
            use_type_invariant(self);
        }
        let CipherText { nonce, vec } = frame;
        let mut buf = vec;
        let opened = match self.kind {
            CipherKind::Aes128Gcm => aes128_open_in_place(
                self.key.as_slice(),
                nonce.as_slice(),
                &mut buf,
            ),
            CipherKind::Aes256Gcm => aes256_open_in_place(
                self.key.as_slice(),
                nonce.as_slice(),
                &mut buf,
            ),
        };
        match opened {
            Ok(_) => Ok(buf),
            Err(_) => Err(StageError::Decrypt),
        }
    }
}

/// An AES-128-GCM cipher whose key is the first half of the SHA-256 digest of
/// the passphrase `key`.
pub fn new_aes128gcm_cipher(key: &str) -> (cipher: Cipher)
    ensures
        cipher@ == (CipherKey {
            kind: CipherKind::Aes128Gcm,
            key: sha256(key.spec_bytes()).take(AES128_KEY_SIZE as int),
        }),
{
    let mut digest = sha256_digest(key.as_bytes());
    digest.truncate(AES128_KEY_SIZE);
    Cipher { kind: CipherKind::Aes128Gcm, key: digest }
}

/// An AES-256-GCM cipher whose key is the SHA-256 digest of the passphrase
/// `key`.
pub fn new_aes256gcm_cipher(key: &str) -> (cipher: Cipher)
    ensures
        cipher@ == (CipherKey { kind: CipherKind::Aes256Gcm, key: sha256(key.spec_bytes()) }),
{
    let digest = sha256_digest(key.as_bytes());
    Cipher { kind: CipherKind::Aes256Gcm, key: digest }
}

} // verus!
