//! Packet-level confidentiality and integrity for a tunnel's data plane.
//!
//! The crate transforms a tunneled packet between plaintext and an
//! authenticated, encrypted on-wire form inside a fixed-capacity buffer:
//! an AES-ECB block transform with standard block padding over a structured
//! payload region, bound to the packet header by an optional keyed
//! fingerprint tag.

use vstd::prelude::*;

pub mod aes_ecb;
pub mod body;
pub mod bytes;
pub mod finger;
pub mod packet;

verus! {

/// The failures this layer reports; every one is local and synchronous,
/// and none is retried internally.
#[derive(Clone, Copy, Debug, PartialEq, Eq, Structural)]
pub enum CipherError {
    /// `decrypt` was invoked on a packet not flagged as encrypted.
    NotEncrypted,
    /// The payload is too short to contain a valid encrypted body.
    MalformedPacket,
    /// The buffer is too short for the declared tag layout.
    MalformedBody,
    /// The stored tag does not match the computed keyed fingerprint.
    IntegrityFailure,
    /// The block padding was invalid after decryption.
    DecryptFailure,
    /// The buffer lacks room for the padded ciphertext.
    EncryptFailure,
    /// A requested payload length exceeds the buffer's capacity.
    LengthExceedsCapacity,
}

} // verus!
