//! The packet cipher: AES-ECB with standard block padding over the secret
//! body of a tunnel packet, with an optional keyed-fingerprint tag that
//! binds the header context and the ciphertext together.
//!
//! Encrypting appends a 4-byte random nonce to the plaintext (to
//! decorrelate ciphertexts of identical payloads), runs the padded block
//! transform, and, when fingerprinting is enabled, stores a 12-byte keyed
//! tag computed over the 12-byte header context and the ciphertext.
//! Decrypting is the mirror: it verifies the tag before any decryption,
//! runs the unpadding transform, and discards the trailing nonce.

use vstd::prelude::*;
use aes::cipher::block_padding::Pkcs7;
use aes::cipher::{BlockDecryptMut, BlockEncryptMut, KeyInit};
use crate::CipherError;
use crate::body::{SecretBody, TAG_LEN};
use crate::bytes::{copy_subrange, u32_be_seq};
use crate::finger::{finger_spec, Finger};
use crate::packet::{NetPacket, PacketView, HEAD_LEN};

verus! {

/// The symmetric key, in its two supported sizes.
#[derive(Clone)]
pub enum AesEcbEnum {
    AES128ECB([u8; 16]),
    AES256ECB([u8; 32]),
}

/// The packet cipher: exactly one key and an optional keyed fingerprint.
/// It is immutable and stateless across calls.
#[derive(Clone)]
pub struct AesEcbCipher {
    pub(crate) cipher: AesEcbEnum,
    pub(crate) finger: Option<Finger>,
}

/// What AES-128-ECB with standard block padding produces for a key and a
/// message.
pub uninterp spec fn aes128_enc_of(key: Seq<u8>, msg: Seq<u8>) -> Seq<u8>;

/// What AES-128-ECB unpadding decryption produces for a key and an input;
/// `None` when the input length or the padding is invalid.
pub uninterp spec fn aes128_dec_of(key: Seq<u8>, data: Seq<u8>) -> Option<Seq<u8>>;

/// What AES-256-ECB with standard block padding produces for a key and a
/// message.
pub uninterp spec fn aes256_enc_of(key: Seq<u8>, msg: Seq<u8>) -> Seq<u8>;

/// What AES-256-ECB unpadding decryption produces for a key and an input;
/// `None` when the input length or the padding is invalid.
pub uninterp spec fn aes256_dec_of(key: Seq<u8>, data: Seq<u8>) -> Option<Seq<u8>>;

/// The length standard block padding produces: the next whole multiple of
/// the 16-byte block size, growing by 1 to 16 bytes even on exact blocks.
pub open spec fn spec_padded_len(n: int) -> int {
    (n / 16) * 16 + 16
}

/// Relies on `ecb::Encryptor<aes::Aes128>` with `encrypt_padded_vec_mut::<Pkcs7>`:
/// the result is a function of key and message alone, and its length is the
/// Pkcs7-padded message length.
#[verifier::external_body]
fn aes128_encrypt(key: &[u8; 16], msg: &Vec<u8>) -> (r: Vec<u8>)
    ensures
        r@ == aes128_enc_of(key@, msg@),
        r@.len() == spec_padded_len(msg@.len() as int),
{
    ecb::Encryptor::<aes::Aes128>::new(&(*key).into()).encrypt_padded_vec_mut::<Pkcs7>(
        msg.as_slice(),
    )
}

/// Relies on `ecb::Decryptor<aes::Aes128>` with `decrypt_padded_vec_mut::<Pkcs7>`:
/// the result is a function of key and input alone; on success at least one
/// padding byte is stripped; and it inverts the matching padded encryptor,
/// whose output length is the Pkcs7-padded message length.
#[verifier::external_body]
fn aes128_decrypt(key: &[u8; 16], data: &Vec<u8>) -> (r: Option<Vec<u8>>)
    ensures
        (match r {
            Some(v) => aes128_dec_of(key@, data@) == Some(v@) && v@.len() < data@.len(),
            None => aes128_dec_of(key@, data@) is None,
        }),
        forall|m: Seq<u8>|
            #[trigger] aes128_enc_of(key@, m) == data@ ==> (match r {
                Some(v) => v@ == m && data@.len() == spec_padded_len(m.len() as int),
                None => false,
            }),
{
    match ecb::Decryptor::<aes::Aes128>::new(&(*key).into()).decrypt_padded_vec_mut::<Pkcs7>(
        data.as_slice(),
    ) {
        Ok(v) => Some(v),
        Err(_) => None,
    }
}

/// Relies on `ecb::Encryptor<aes::Aes256>` with `encrypt_padded_vec_mut::<Pkcs7>`:
/// the result is a function of key and message alone, and its length is the
/// Pkcs7-padded message length.
#[verifier::external_body]
fn aes256_encrypt(key: &[u8; 32], msg: &Vec<u8>) -> (r: Vec<u8>)
    ensures
        r@ == aes256_enc_of(key@, msg@),
        r@.len() == spec_padded_len(msg@.len() as int),
{
    ecb::Encryptor::<aes::Aes256>::new(&(*key).into()).encrypt_padded_vec_mut::<Pkcs7>(
        msg.as_slice(),
    )
}

/// Relies on `ecb::Decryptor<aes::Aes256>` with `decrypt_padded_vec_mut::<Pkcs7>`:
/// the result is a function of key and input alone; on success at least one
/// padding byte is stripped; and it inverts the matching padded encryptor,
/// whose output length is the Pkcs7-padded message length.
#[verifier::external_body]
fn aes256_decrypt(key: &[u8; 32], data: &Vec<u8>) -> (r: Option<Vec<u8>>)
    ensures
        (match r {
            Some(v) => aes256_dec_of(key@, data@) == Some(v@) && v@.len() < data@.len(),
            None => aes256_dec_of(key@, data@) is None,
        }),
        forall|m: Seq<u8>|
            #[trigger] aes256_enc_of(key@, m) == data@ ==> (match r {
                Some(v) => v@ == m && data@.len() == spec_padded_len(m.len() as int),
                None => false,
            }),
{
    match ecb::Decryptor::<aes::Aes256>::new(&(*key).into()).decrypt_padded_vec_mut::<Pkcs7>(
        data.as_slice(),
    ) {
        Ok(v) => Some(v),
        Err(_) => None,
    }
}

/// Relies on `rand::thread_rng` and `RngCore::next_u32` for the per-packet
/// nonce; nothing is assumed of the returned value.
#[verifier::external_body]
fn random_u32() -> u32 {
    rand::RngCore::next_u32(&mut rand::thread_rng())
}

/// The key bytes, whichever the variant.
pub open spec fn spec_key(c: AesEcbEnum) -> Seq<u8> {
    match c {
        AesEcbEnum::AES128ECB(k) => k@,
        AesEcbEnum::AES256ECB(k) => k@,
    }
}

/// The padded block encryption the chosen key variant performs.
pub open spec fn enc_of(c: AesEcbEnum, m: Seq<u8>) -> Seq<u8> {
    match c {
        AesEcbEnum::AES128ECB(k) => aes128_enc_of(k@, m),
        AesEcbEnum::AES256ECB(k) => aes256_enc_of(k@, m),
    }
}

/// The unpadding block decryption the chosen key variant performs.
pub open spec fn dec_of(c: AesEcbEnum, d: Seq<u8>) -> Option<Seq<u8>> {
    match c {
        AesEcbEnum::AES128ECB(k) => aes128_dec_of(k@, d),
        AesEcbEnum::AES256ECB(k) => aes256_dec_of(k@, d),
    }
}

/// Run the padded block encryption of the chosen key variant.
fn run_encrypt(cipher: &AesEcbEnum, msg: &Vec<u8>) -> (r: Vec<u8>)
    ensures
        r@ == enc_of(*cipher, msg@),
        r@.len() == spec_padded_len(msg@.len() as int),
{
    match cipher {
        AesEcbEnum::AES128ECB(key) => aes128_encrypt(key, msg),
        AesEcbEnum::AES256ECB(key) => aes256_encrypt(key, msg),
    }
}

/// Run the unpadding block decryption of the chosen key variant.
fn run_decrypt(cipher: &AesEcbEnum, data: &Vec<u8>) -> (r: Option<Vec<u8>>)
    ensures
        (match r {
            Some(v) => dec_of(*cipher, data@) == Some(v@) && v@.len() < data@.len(),
            None => dec_of(*cipher, data@) is None,
        }),
        forall|m: Seq<u8>|
            #[trigger] enc_of(*cipher, m) == data@ ==> (match r {
                Some(v) => v@ == m && data@.len() == spec_padded_len(m.len() as int),
                None => false,
            }),
{
    let r = match cipher {
        AesEcbEnum::AES128ECB(key) => aes128_decrypt(key, data),
        AesEcbEnum::AES256ECB(key) => aes256_decrypt(key, data),
    };
    proof {
        assert forall|m: Seq<u8>| #[trigger] enc_of(*cipher, m) == data@ implies (match r {
            Some(v) => v@ == m && data@.len() == spec_padded_len(m.len() as int),
            None => false,
        }) by {
            match cipher {
                AesEcbEnum::AES128ECB(key) => {
                    assert(aes128_enc_of(key@, m) == data@);
                },
                AesEcbEnum::AES256ECB(key) => {
                    assert(aes256_enc_of(key@, m) == data@);
                },
            }
        }
    }
    r
}

/// The 12-byte context prefix: source, destination, inner protocol,
/// transport protocol, gateway flag, source TTL.
pub open spec fn iv12_of(pv: PacketView) -> Seq<u8> {
    pv.source + pv.destination + seq![
        pv.protocol,
        pv.transport_protocol,
        (if pv.gateway {
            1u8
        } else {
            0u8
        }),
        pv.ttl,
    ]
}

impl AesEcbCipher {
    /// The key variant this cipher holds.
    pub closed spec fn spec_cipher(&self) -> AesEcbEnum {
        self.cipher
    }

    /// The fingerprint function this cipher holds, when one is configured.
    pub closed spec fn spec_finger(&self) -> Option<Finger> {
        self.finger
    }
}

/// Length of the tag region this cipher produces and expects.
pub open spec fn tag_len_of(c: &AesEcbCipher) -> int {
    if c.spec_finger() is Some {
        TAG_LEN as int
    } else {
        0
    }
}

/// The tag this cipher stores for a given packet view and ciphertext;
/// empty when fingerprinting is disabled.
pub open spec fn spec_tag(c: &AesEcbCipher, pv: PacketView, ct: Seq<u8>) -> Seq<u8> {
    match c.spec_finger() {
        Some(f) => finger_spec(f.hash_seq(), iv12_of(pv), ct),
        None => Seq::<u8>::empty(),
    }
}

/// The payload bytes encryption leaves behind: the ciphertext of the
/// original payload extended by the nonce, then the tag when enabled.
pub open spec fn spec_secret_payload(c: &AesEcbCipher, pv: PacketView, nonce: Seq<u8>) -> Seq<u8> {
    let ct = enc_of(c.spec_cipher(), pv.payload + nonce);
    ct + spec_tag(c, pv, ct)
}

/// The packet view encryption with a given nonce produces.
pub open spec fn spec_encrypt(c: &AesEcbCipher, pv: PacketView, nonce: Seq<u8>) -> PacketView {
    PacketView { encrypted: true, payload: spec_secret_payload(c, pv, nonce), ..pv }
}

/// A view with the encrypted flag cleared.
pub open spec fn spec_cleared(pv: PacketView) -> PacketView {
    PacketView { encrypted: false, ..pv }
}

/// `out` is an encryption of `pv` under `c` with the 4-byte nonce `nonce`.
pub open spec fn encrypts_to(
    c: &AesEcbCipher,
    pv: PacketView,
    nonce: Seq<u8>,
    out: PacketView,
) -> bool {
    &&& nonce.len() == 4
    &&& out == spec_encrypt(c, pv, nonce)
    &&& out.payload.len() == spec_padded_len(pv.payload.len() as int + 4) + tag_len_of(c)
}

/// Whether the stored tag disagrees with the computed fingerprint over the
/// encryption region `en`; never true when fingerprinting is disabled.
pub open spec fn tag_mismatch(c: &AesEcbCipher, pv: PacketView, en: Seq<u8>) -> bool {
    match c.spec_finger() {
        Some(f) => pv.payload.skip(pv.payload.len() - TAG_LEN) != finger_spec(
            f.hash_seq(),
            iv12_of(pv),
            en,
        ),
        None => false,
    }
}

/// Exactly what `decrypt_ipv4` returns, and the view it leaves, for a given
/// cipher and starting view.
pub open spec fn spec_decrypt(c: &AesEcbCipher, pv: PacketView) -> Result<PacketView, CipherError> {
    if !pv.encrypted {
        Err(CipherError::NotEncrypted)
    } else if pv.payload.len() < 16 {
        Err(CipherError::MalformedPacket)
    } else {
        let en = pv.payload.take(pv.payload.len() - tag_len_of(c));
        if tag_mismatch(c, pv, en) {
            Err(CipherError::IntegrityFailure)
        } else {
            match dec_of(c.spec_cipher(), en) {
                Option::None => Err(CipherError::DecryptFailure),
                Option::Some(m) => if m.len() < 4 {
                    Err(CipherError::DecryptFailure)
                } else {
                    Ok(PacketView { encrypted: false, payload: m.take(m.len() - 4), ..pv })
                },
            }
        }
    }
}

/// Exactly which capacity error `encrypt_ipv4` reports, mirroring the order
/// in which the working region, the padded ciphertext and the tag are
/// staked out.
pub open spec fn spec_encrypt_check(c: &AesEcbCipher, pv: PacketView) -> Result<(), CipherError> {
    let grow: int = if c.spec_finger() is Some {
        16
    } else {
        4
    };
    if pv.capacity < HEAD_LEN + pv.payload.len() + grow {
        Err(CipherError::LengthExceedsCapacity)
    } else if pv.capacity < HEAD_LEN + spec_padded_len(pv.payload.len() as int + 4) {
        Err(CipherError::EncryptFailure)
    } else if pv.capacity < HEAD_LEN + spec_padded_len(pv.payload.len() as int + 4) + tag_len_of(
        c,
    ) {
        Err(CipherError::LengthExceedsCapacity)
    } else {
        Ok(())
    }
}

/// What `encrypts_to` forces on the shape of the encrypted view.
proof fn lemma_encrypts_to_shape(c: &AesEcbCipher, pv: PacketView, nonce: Seq<u8>, out: PacketView)
    requires
        encrypts_to(c, pv, nonce, out),
    ensures
        out.encrypted,
        out.source == pv.source,
        out.destination == pv.destination,
        out.protocol == pv.protocol,
        out.transport_protocol == pv.transport_protocol,
        out.ttl == pv.ttl,
        out.gateway == pv.gateway,
        out.capacity == pv.capacity,
        iv12_of(out) == iv12_of(pv),
        out.payload.len() >= 16 + tag_len_of(c),
        out.payload.len() - tag_len_of(c) == spec_padded_len(pv.payload.len() as int + 4),
        out.payload.take(out.payload.len() - tag_len_of(c)) == enc_of(
            c.spec_cipher(),
            pv.payload + nonce,
        ),
        c.spec_finger() is Some ==> out.payload.skip(out.payload.len() - TAG_LEN) == spec_tag(
            c,
            pv,
            out.payload.take(out.payload.len() - tag_len_of(c)),
        ),
{
    let ct = enc_of(c.spec_cipher(), pv.payload + nonce);
    let tag = spec_tag(c, pv, ct);
    assert(tag.len() == tag_len_of(c));
    let n = pv.payload.len() as int + 4;
    assert(n / 16 >= 0);
    assert(spec_padded_len(n) >= 16);
    assert(out.payload == ct + tag);
    assert(ct.len() == out.payload.len() - tag_len_of(c));
    assert(out.payload.take(ct.len() as int) =~= ct);
    if c.spec_finger() is Some {
        assert(out.payload.skip(ct.len() as int) =~= tag);
    }
}

impl AesEcbCipher {
    /// The raw key bytes.
    pub fn key(&self) -> (r: &[u8])
        ensures
            r@ == spec_key(self.spec_cipher()),
    {
        match &self.cipher {
            AesEcbEnum::AES128ECB(key) => key.as_slice(),
            AesEcbEnum::AES256ECB(key) => key.as_slice(),
        }
    }

    /// A cipher holding a 128-bit key.
    pub fn new_128(key: [u8; 16], finger: Option<Finger>) -> (r: Self)
        ensures
            r.spec_cipher() == AesEcbEnum::AES128ECB(key),
            r.spec_finger() == finger,
    {
        Self { cipher: AesEcbEnum::AES128ECB(key), finger }
    }

    /// A cipher holding a 256-bit key.
    pub fn new_256(key: [u8; 32], finger: Option<Finger>) -> (r: Self)
        ensures
            r.spec_cipher() == AesEcbEnum::AES256ECB(key),
            r.spec_finger() == finger,
    {
        Self { cipher: AesEcbEnum::AES256ECB(key), finger }
    }
}

impl AesEcbCipher {
    /// Compare the stored tag with the fingerprint computed over the
    /// context prefix and the encryption region; `true` when they agree or
    /// when fingerprinting is disabled.
    fn tag_ok(&self, body: &SecretBody, context: &Vec<u8>, en_body: &Vec<u8>) -> (r: bool)
        requires
            body.wf(),
            body.has_tag() == (self.spec_finger() is Some),
            context@.len() == 12,
            en_body@ == body.en_body_spec(),
        ensures
            r == (match self.spec_finger() {
                Some(f) => body.tag_spec() == finger_spec(f.hash_seq(), context@, en_body@),
                None => true,
            }),
    {
        if let Some(finger) = &self.finger {
            let stored = match body.finger() {
                Ok(t) => t,
                Err(_) => {
                    return false;
                },
            };
            let computed = finger.calculate_finger(context, en_body);
            crate::bytes::vec_u8_eq(&stored, &computed)
        } else {
            true
        }
    }

    /// Authenticate (when fingerprinting is enabled) and decrypt the packet
    /// body in place: the stored tag is checked before any decryption is
    /// attempted, the unpadded plaintext replaces the payload with its
    /// trailing 4-byte nonce discarded, and the encrypted flag is cleared.
    /// On every failure the packet is left exactly as it was.
    ///
    /// The final `ensures` clause is the round trip: a packet that is an
    /// encryption of some view `pv` under this cipher decrypts back to `pv`
    /// with its encrypted flag cleared.
    pub fn decrypt_ipv4(&self, net_packet: &mut NetPacket) -> (r: Result<(), CipherError>)
        requires
            old(net_packet).wf(),
        ensures
            final(net_packet).wf(),
            (match spec_decrypt(self, old(net_packet)@) {
                Ok(pv) => r is Ok && final(net_packet)@ == pv,
                Err(e) => r == Err::<(), CipherError>(e) && final(net_packet)@ == old(net_packet)@,
            }),
            forall|pv: PacketView, nonce: Seq<u8>|
                encrypts_to(self, pv, nonce, old(net_packet)@) ==> spec_decrypt(
                    self,
                    old(net_packet)@,
                ) == Ok::<PacketView, CipherError>(spec_cleared(pv)),
    {
        let ghost pv0 = old(net_packet)@;
        if !net_packet.is_encrypt() {
            proof {
                assert forall|pv: PacketView, nonce: Seq<u8>|
                    encrypts_to(self, pv, nonce, pv0) implies spec_decrypt(self, pv0)
                    == Ok::<PacketView, CipherError>(spec_cleared(pv)) by {
                    lemma_encrypts_to_shape(self, pv, nonce, pv0);
                }
            }
            return Err(CipherError::NotEncrypted);
        }
        let payload = net_packet.payload();
        if payload.len() < 16 {
            proof {
                assert forall|pv: PacketView, nonce: Seq<u8>|
                    encrypts_to(self, pv, nonce, pv0) implies spec_decrypt(self, pv0)
                    == Ok::<PacketView, CipherError>(spec_cleared(pv)) by {
                    lemma_encrypts_to_shape(self, pv, nonce, pv0);
                }
            }
            return Err(CipherError::MalformedPacket);
        }
        let context = context_prefix(net_packet);
        let has_finger = self.finger.is_some();
        let body = match SecretBody::new(payload, has_finger) {
            Ok(b) => b,
            Err(e) => {
                return Err(e);
            },
        };
        let en_body = body.en_body();
        proof {
            if self.spec_finger() is None {
                assert(pv0.payload.take(pv0.payload.len() as int) =~= pv0.payload);
            }
            assert(en_body@ == pv0.payload.take(pv0.payload.len() - tag_len_of(self)));
        }
        if !self.tag_ok(&body, &context, &en_body) {
            proof {
                assert forall|pv: PacketView, nonce: Seq<u8>|
                    encrypts_to(self, pv, nonce, pv0) implies spec_decrypt(self, pv0)
                    == Ok::<PacketView, CipherError>(spec_cleared(pv)) by {
                    lemma_encrypts_to_shape(self, pv, nonce, pv0);
                    assert(false);
                }
            }
            return Err(CipherError::IntegrityFailure);
        }
        let rs = run_decrypt(&self.cipher, &en_body);
        let plain = match rs {
            Some(v) => v,
            None => {
                proof {
                    assert forall|pv: PacketView, nonce: Seq<u8>|
                        encrypts_to(self, pv, nonce, pv0) implies spec_decrypt(self, pv0)
                        == Ok::<PacketView, CipherError>(spec_cleared(pv)) by {
                        lemma_encrypts_to_shape(self, pv, nonce, pv0);
                        assert(enc_of(self.spec_cipher(), pv.payload + nonce) == en_body@);
                        assert(false);
                    }
                }
                return Err(CipherError::DecryptFailure);
            },
        };
        if plain.len() < 4 {
            proof {
                assert forall|pv: PacketView, nonce: Seq<u8>|
                    encrypts_to(self, pv, nonce, pv0) implies spec_decrypt(self, pv0)
                    == Ok::<PacketView, CipherError>(spec_cleared(pv)) by {
                    lemma_encrypts_to_shape(self, pv, nonce, pv0);
                    assert(enc_of(self.spec_cipher(), pv.payload + nonce) == en_body@);
                    assert(plain@ == pv.payload + nonce);
                    assert(false);
                }
            }
            return Err(CipherError::DecryptFailure);
        }
        let out = copy_subrange(&plain, 0, plain.len() - 4);
        proof {
            net_packet.lemma_view_shape();
        }
        net_packet.commit_payload(&out);
        net_packet.set_encrypt_flag(false);
        proof {
            assert(net_packet@ =~= (PacketView {
                encrypted: false,
                payload: plain@.take(plain@.len() - 4),
                ..pv0
            }));
            assert forall|pv: PacketView, nonce: Seq<u8>|
                encrypts_to(self, pv, nonce, pv0) implies spec_decrypt(self, pv0)
                == Ok::<PacketView, CipherError>(spec_cleared(pv)) by {
                lemma_encrypts_to_shape(self, pv, nonce, pv0);
                assert(enc_of(self.spec_cipher(), pv.payload + nonce) == en_body@);
                assert(plain@ == pv.payload + nonce);
                assert((pv.payload + nonce).take(pv.payload.len() as int) =~= pv.payload);
                assert(spec_cleared(pv) =~= (PacketView {
                    encrypted: false,
                    payload: plain@.take(plain@.len() - 4),
                    ..pv0
                }));
            }
        }
        Ok(())
    }

    /// Encrypt the packet body in place: the payload is extended by a fresh
    /// 4-byte random nonce, transformed by the padded block cipher, and,
    /// when fingerprinting is enabled, followed by the 12-byte keyed tag
    /// over the header context and the ciphertext; the encrypted flag is
    /// then set. The caller must have reserved enough spare capacity; the
    /// exact capacity errors mirror the order the regions are staked out
    /// in, and on every failure the packet is left exactly as it was.
    pub fn encrypt_ipv4(&self, net_packet: &mut NetPacket) -> (r: Result<(), CipherError>)
        requires
            old(net_packet).wf(),
        ensures
            final(net_packet).wf(),
            (match r {
                Ok(()) => spec_encrypt_check(self, old(net_packet)@) is Ok && exists|
                    nonce: Seq<u8>,
                |
                    encrypts_to(self, old(net_packet)@, nonce, final(net_packet)@),
                Err(e) => Err::<(), CipherError>(e) == spec_encrypt_check(self, old(net_packet)@)
                    && final(net_packet)@ == old(net_packet)@,
            }),
    {
        let ghost pv0 = old(net_packet)@;
        let payload = net_packet.payload();
        let capacity = net_packet.capacity();
        proof {
            net_packet.lemma_view_shape();
        }
        let has_finger = self.finger.is_some();
        let grow: usize = if has_finger {
            16
        } else {
            4
        };
        let avail = capacity - HEAD_LEN;
        if payload.len() + grow > avail {
            return Err(CipherError::LengthExceedsCapacity);
        }
        let padded = (payload.len() + 4) / 16 * 16 + 16;
        if padded > avail {
            return Err(CipherError::EncryptFailure);
        }
        if has_finger && padded + TAG_LEN > avail {
            return Err(CipherError::LengthExceedsCapacity);
        }
        let context = context_prefix(net_packet);
        let ghost payload0 = payload@;
        let mut work = payload;
        let mut k: usize = 0;
        while k < grow
            invariant
                k <= grow,
                grow <= 16,
                payload0.len() + grow <= usize::MAX,
                work@.len() == payload0.len() + k,
                work@.take(payload0.len() as int) == payload0,
            decreases grow - k,
        {
            work.push(0u8);
            proof {
                assert(work@.take(payload0.len() as int) =~= payload0);
            }
            k = k + 1;
        }
        let mut body = match SecretBody::new(work, has_finger) {
            Ok(b) => b,
            Err(e) => {
                return Err(e);
            },
        };
        let ghost en_old = body.en_body_spec();
        let nv = random_u32();
        body.set_random(nv);
        let en_plain = body.en_body();
        proof {
            assert(en_old.take(en_old.len() - 4) =~= payload0);
            assert(en_plain@ == payload0 + u32_be_seq(nv));
        }
        let ct = run_encrypt(&self.cipher, &en_plain);
        let ghost ct0 = ct@;
        let out: Vec<u8>;
        if let Some(finger) = &self.finger {
            let tag = finger.calculate_finger(&context, &ct);
            let mut work2 = ct;
            let mut k2: usize = 0;
            while k2 < TAG_LEN
                invariant
                    k2 <= TAG_LEN,
                    ct0.len() + TAG_LEN <= usize::MAX,
                    work2@.len() == ct0.len() + k2,
                    work2@.take(ct0.len() as int) == ct0,
                decreases TAG_LEN - k2,
            {
                work2.push(0u8);
                proof {
                    assert(work2@.take(ct0.len() as int) =~= ct0);
                }
                k2 = k2 + 1;
            }
            let mut body2 = match SecretBody::new(work2, true) {
                Ok(b) => b,
                Err(e) => {
                    return Err(e);
                },
            };
            match body2.set_finger(&tag) {
                Ok(()) => (),
                Err(e) => {
                    return Err(e);
                },
            }
            out = body2.into_buffer();
            proof {
                assert(body2.en_body_spec() =~= ct0);
                assert(out@ =~= body2.en_body_spec() + body2.tag_spec());
                assert(out@ == ct0 + spec_tag(self, pv0, ct0));
            }
        } else {
            out = ct;
            proof {
                assert(out@ =~= ct0 + spec_tag(self, pv0, ct0));
            }
        }
        net_packet.commit_payload(&out);
        net_packet.set_encrypt_flag(true);
        proof {
            let nb = u32_be_seq(nv);
            assert(net_packet@ =~= spec_encrypt(self, pv0, nb));
            assert(encrypts_to(self, pv0, nb, net_packet@));
        }
        Ok(())
    }
}

/// The 12-byte context prefix drawn from the packet header. The full
/// context vector ends in 4 bytes drawn from the keyed hash, but those are
/// derived from, not fed to, the fingerprint computation, so only the
/// prefix is materialised.
fn context_prefix(net_packet: &NetPacket) -> (r: Vec<u8>)
    requires
        net_packet.wf(),
    ensures
        r@ == iv12_of(net_packet@),
        r@.len() == 12,
{
    let mut iv = net_packet.source();
    let mut dst = net_packet.destination();
    iv.append(&mut dst);
    iv.push(net_packet.protocol());
    iv.push(net_packet.transport_protocol());
    iv.push(
        if net_packet.is_gateway() {
            1
        } else {
            0
        },
    );
    iv.push(net_packet.source_ttl());
    proof {
        net_packet.lemma_view_shape();
        assert(iv@ =~= iv12_of(net_packet@));
    }
    iv
}

} // verus!
