//! The secret body codec: pure layout arithmetic over the structured region
//! inside a packet payload.
//!
//! The region is `[encryption region][tag region]`, where the 12-byte tag
//! region exists exactly when the body was constructed with a tag. Before
//! encryption, the encryption region ends in a 4-byte random nonce. No key
//! material and no cryptography appear here.

use vstd::prelude::*;
use vstd::pervasive::VecAdditionalExecFns;
use crate::CipherError;
use crate::bytes::{copy_subrange, u32_be_seq};

verus! {

/// Length in bytes of the authentication tag region.
pub const TAG_LEN: usize = 12;

/// Length in bytes of the random nonce folded into the plaintext.
pub const NONCE_LEN: usize = 4;

/// The structured region inside a packet payload.
pub struct SecretBody {
    buffer: Vec<u8>,
    tag_present: bool,
}

impl View for SecretBody {
    type V = Seq<u8>;

    closed spec fn view(&self) -> Seq<u8> {
        self.buffer@
    }
}

impl SecretBody {
    /// Whether the body carries a trailing tag region.
    pub closed spec fn has_tag(&self) -> bool {
        self.tag_present
    }

    /// The bytes eligible for the block-cipher transform.
    pub open spec fn en_body_spec(&self) -> Seq<u8> {
        if self.has_tag() {
            self@.take(self@.len() - TAG_LEN)
        } else {
            self@
        }
    }

    /// The stored tag bytes; meaningful only when a tag is present.
    pub open spec fn tag_spec(&self) -> Seq<u8> {
        self@.skip(self@.len() - TAG_LEN)
    }

    /// The buffer holds the declared layout with a non-empty encryption
    /// region.
    pub open spec fn wf(&self) -> bool {
        if self.has_tag() {
            self@.len() >= TAG_LEN + 1
        } else {
            self@.len() >= 1
        }
    }

    /// Partition a buffer into an encryption region and, when `tag_present`,
    /// a trailing 12-byte tag region; fails when the buffer cannot hold the
    /// declared layout with a non-empty encryption region.
    pub fn new(buffer: Vec<u8>, tag_present: bool) -> (r: Result<SecretBody, CipherError>)
        ensures
            match r {
                Ok(b) => {
                    &&& b@ == buffer@
                    &&& b.has_tag() == tag_present
                    &&& b.wf()
                    &&& buffer@.len() >= (if tag_present { TAG_LEN + 1 } else { 1 })
                },
                Err(e) => {
                    &&& e == CipherError::MalformedBody
                    &&& buffer@.len() < (if tag_present { TAG_LEN + 1 } else { 1 })
                },
            },
    {
        let min_len = if tag_present {
            TAG_LEN + 1
        } else {
            1
        };
        if buffer.len() < min_len {
            return Err(CipherError::MalformedBody);
        }
        Ok(SecretBody { buffer, tag_present })
    }

    /// A copy of the encryption region.
    pub fn en_body(&self) -> (r: Vec<u8>)
        requires
            self.wf(),
        ensures
            r@ == self.en_body_spec(),
    {
        if self.tag_present {
            copy_subrange(&self.buffer, 0, self.buffer.len() - TAG_LEN)
        } else {
            let r = copy_subrange(&self.buffer, 0, self.buffer.len());
            proof {
                assert(r@ =~= self@);
            }
            r
        }
    }

    /// Write the caller-supplied randomness into the last 4 bytes of the
    /// (pre-encryption) encryption region.
    pub fn set_random(&mut self, random: u32)
        requires
            old(self).wf(),
            old(self).en_body_spec().len() >= NONCE_LEN,
        ensures
            final(self).wf(),
            final(self).has_tag() == old(self).has_tag(),
            final(self)@.len() == old(self)@.len(),
            final(self).en_body_spec() == old(self).en_body_spec().take(
                old(self).en_body_spec().len() - NONCE_LEN,
            ) + u32_be_seq(random),
            old(self).has_tag() ==> final(self).tag_spec() == old(self).tag_spec(),
    {
        let en_len = if self.tag_present {
            self.buffer.len() - TAG_LEN
        } else {
            self.buffer.len()
        };
        self.buffer.set(en_len - 4, ((random >> 24u32) % 256) as u8);
        self.buffer.set(en_len - 3, ((random >> 16u32) % 256) as u8);
        self.buffer.set(en_len - 2, ((random >> 8u32) % 256) as u8);
        self.buffer.set(en_len - 1, (random % 256) as u8);
        proof {
            assert(self.en_body_spec() =~= old(self).en_body_spec().take(
                old(self).en_body_spec().len() - NONCE_LEN,
            ) + u32_be_seq(random));
            if old(self).has_tag() {
                assert(self.tag_spec() =~= old(self).tag_spec());
            }
        }
    }

    /// A copy of the stored tag; fails when the body was constructed
    /// without a tag region.
    pub fn finger(&self) -> (r: Result<Vec<u8>, CipherError>)
        requires
            self.wf(),
        ensures
            match r {
                Ok(t) => {
                    &&& self.has_tag()
                    &&& t@ == self.tag_spec()
                    &&& t@.len() == TAG_LEN
                },
                Err(e) => {
                    &&& !self.has_tag()
                    &&& e == CipherError::MalformedBody
                },
            },
    {
        if !self.tag_present {
            return Err(CipherError::MalformedBody);
        }
        Ok(copy_subrange(&self.buffer, self.buffer.len() - TAG_LEN, self.buffer.len()))
    }

    /// Store a tag into the tag region; fails when the body was constructed
    /// without one.
    pub fn set_finger(&mut self, tag: &Vec<u8>) -> (r: Result<(), CipherError>)
        requires
            old(self).wf(),
            tag@.len() == TAG_LEN,
        ensures
            final(self).wf(),
            final(self).has_tag() == old(self).has_tag(),
            match r {
                Ok(()) => {
                    &&& old(self).has_tag()
                    &&& final(self)@.len() == old(self)@.len()
                    &&& final(self).en_body_spec() == old(self).en_body_spec()
                    &&& final(self).tag_spec() == tag@
                },
                Err(e) => {
                    &&& !old(self).has_tag()
                    &&& e == CipherError::MalformedBody
                    &&& final(self)@ == old(self)@
                },
            },
    {
        if !self.tag_present {
            return Err(CipherError::MalformedBody);
        }
        let off = self.buffer.len() - TAG_LEN;
        let mut i: usize = 0;
        while i < TAG_LEN
            invariant
                old(self).wf(),
                old(self).has_tag(),
                tag@.len() == TAG_LEN,
                i <= TAG_LEN,
                self.tag_present == old(self).tag_present,
                self.buffer@.len() == old(self).buffer@.len(),
                off == self.buffer@.len() - TAG_LEN,
                off + TAG_LEN <= usize::MAX,
                forall|j: int| 0 <= j < off ==> self.buffer@[j] == old(self).buffer@[j],
                forall|j: int| off <= j < off + i ==> self.buffer@[j] == tag@[j - off],
                forall|j: int|
                    off + i <= j < self.buffer@.len() ==> self.buffer@[j] == old(self).buffer@[j],
            decreases TAG_LEN - i,
        {
            self.buffer.set(off + i, tag[i]);
            i = i + 1;
        }
        proof {
            assert(self.en_body_spec() =~= old(self).en_body_spec());
            assert(self.tag_spec() =~= tag@);
        }
        Ok(())
    }

    /// Give the underlying bytes back.
    pub fn into_buffer(self) -> (r: Vec<u8>)
        ensures
            r@ == self@,
    {
        self.buffer
    }
}

} // verus!
