//! The tunnel packet container: a fixed-capacity buffer holding a small
//! header followed by the payload this layer transforms.
//!
//! The header layout is: source address (4 bytes), destination address
//! (4 bytes), inner protocol id, transport protocol id, source TTL, and a
//! flags byte whose low bit marks the payload as encrypted and whose second
//! bit marks gateway traffic.

use vstd::prelude::*;
use vstd::pervasive::VecAdditionalExecFns;
use crate::CipherError;
use crate::bytes::copy_subrange;

verus! {

/// Length in bytes of the tunnel header that precedes the payload.
pub const HEAD_LEN: usize = 12;

/// Largest buffer a packet may occupy.
pub const MAX_BUFFER_LEN: usize = 65536;

/// What a packet looks like to the specification: the header fields this
/// layer reads, the payload bytes, and the buffer's capacity.
#[verifier::ext_equal]
pub ghost struct PacketView {
    pub source: Seq<u8>,
    pub destination: Seq<u8>,
    pub protocol: u8,
    pub transport_protocol: u8,
    pub ttl: u8,
    pub gateway: bool,
    pub encrypted: bool,
    pub payload: Seq<u8>,
    pub capacity: nat,
}

/// The view a buffer and declared data length denote.
pub open spec fn view_of(buffer: Seq<u8>, data_len: int) -> PacketView {
    PacketView {
        source: buffer.subrange(0, 4),
        destination: buffer.subrange(4, 8),
        protocol: buffer[8],
        transport_protocol: buffer[9],
        ttl: buffer[10],
        gateway: (buffer[11] & 2) == 2,
        encrypted: (buffer[11] & 1) == 1,
        payload: buffer.subrange(HEAD_LEN as int, data_len),
        capacity: buffer.len(),
    }
}

/// A mutable packet: an owned buffer and the length of the data currently
/// declared valid (header included).
pub struct NetPacket {
    buffer: Vec<u8>,
    data_len: usize,
}

impl View for NetPacket {
    type V = PacketView;

    closed spec fn view(&self) -> PacketView {
        view_of(self.buffer@, self.data_len as int)
    }
}

impl NetPacket {
    /// The buffer holds at least the header, the declared length fits the
    /// buffer, and the buffer respects the module-wide capacity bound.
    pub closed spec fn wf(&self) -> bool {
        HEAD_LEN <= self.data_len <= self.buffer@.len() <= MAX_BUFFER_LEN
    }

    /// The shape a well-formed packet's view always has.
    pub proof fn lemma_view_shape(&self)
        requires
            self.wf(),
        ensures
            self@.source.len() == 4,
            self@.destination.len() == 4,
            HEAD_LEN + self@.payload.len() <= self@.capacity,
            self@.capacity <= MAX_BUFFER_LEN,
    {
    }

    /// Wrap a raw buffer, initially declaring the whole buffer as data.
    pub fn new(buffer: Vec<u8>) -> (r: Result<NetPacket, CipherError>)
        ensures
            match r {
                Ok(p) => {
                    &&& HEAD_LEN <= buffer@.len() <= MAX_BUFFER_LEN
                    &&& p.wf()
                    &&& p@ == view_of(buffer@, buffer@.len() as int)
                },
                Err(e) => {
                    &&& !(HEAD_LEN <= buffer@.len() <= MAX_BUFFER_LEN)
                    &&& e == (if buffer@.len() < HEAD_LEN {
                        CipherError::MalformedPacket
                    } else {
                        CipherError::LengthExceedsCapacity
                    })
                },
            },
    {
        let n = buffer.len();
        if n < HEAD_LEN {
            return Err(CipherError::MalformedPacket);
        }
        if n > MAX_BUFFER_LEN {
            return Err(CipherError::LengthExceedsCapacity);
        }
        Ok(NetPacket { buffer, data_len: n })
    }

    /// The source address, as four bytes.
    pub fn source(&self) -> (r: Vec<u8>)
        requires
            self.wf(),
        ensures
            r@ == self@.source,
    {
        copy_subrange(&self.buffer, 0, 4)
    }

    /// The destination address, as four bytes.
    pub fn destination(&self) -> (r: Vec<u8>)
        requires
            self.wf(),
        ensures
            r@ == self@.destination,
    {
        copy_subrange(&self.buffer, 4, 8)
    }

    /// The inner protocol id.
    pub fn protocol(&self) -> (r: u8)
        requires
            self.wf(),
        ensures
            r == self@.protocol,
    {
        self.buffer[8]
    }

    /// The transport protocol id.
    pub fn transport_protocol(&self) -> (r: u8)
        requires
            self.wf(),
        ensures
            r == self@.transport_protocol,
    {
        self.buffer[9]
    }

    /// The source TTL.
    pub fn source_ttl(&self) -> (r: u8)
        requires
            self.wf(),
        ensures
            r == self@.ttl,
    {
        self.buffer[10]
    }

    /// Whether the packet is marked as gateway traffic.
    pub fn is_gateway(&self) -> (r: bool)
        requires
            self.wf(),
        ensures
            r == self@.gateway,
    {
        (self.buffer[11] & 2) == 2
    }

    /// Whether the payload is currently flagged as encrypted.
    pub fn is_encrypt(&self) -> (r: bool)
        requires
            self.wf(),
        ensures
            r == self@.encrypted,
    {
        (self.buffer[11] & 1) == 1
    }

    /// The payload bytes following the header.
    pub fn payload(&self) -> (r: Vec<u8>)
        requires
            self.wf(),
        ensures
            r@ == self@.payload,
    {
        copy_subrange(&self.buffer, HEAD_LEN, self.data_len)
    }

    /// The buffer's capacity in bytes, header included.
    pub fn capacity(&self) -> (r: usize)
        requires
            self.wf(),
        ensures
            r as nat == self@.capacity,
            HEAD_LEN <= r <= MAX_BUFFER_LEN,
    {
        self.buffer.len()
    }

    /// The declared data length, header included.
    pub fn data_len(&self) -> (r: usize)
        requires
            self.wf(),
        ensures
            r as int == HEAD_LEN + self@.payload.len(),
    {
        self.data_len
    }

    /// Write the source address.
    pub fn set_source(&mut self, addr: &Vec<u8>)
        requires
            old(self).wf(),
            addr@.len() == 4,
        ensures
            final(self).wf(),
            final(self)@ == (PacketView { source: addr@, ..old(self)@ }),
    {
        self.buffer.set(0, addr[0]);
        self.buffer.set(1, addr[1]);
        self.buffer.set(2, addr[2]);
        self.buffer.set(3, addr[3]);
        proof {
            assert(self.buffer@.subrange(0, 4) =~= addr@);
            assert(self.buffer@.subrange(4, 8) =~= old(self).buffer@.subrange(4, 8));
            assert(self.buffer@.subrange(HEAD_LEN as int, self.data_len as int)
                =~= old(self).buffer@.subrange(HEAD_LEN as int, self.data_len as int));
            assert(self@ =~= (PacketView { source: addr@, ..old(self)@ }));
        }
    }

    /// Write the destination address.
    pub fn set_destination(&mut self, addr: &Vec<u8>)
        requires
            old(self).wf(),
            addr@.len() == 4,
        ensures
            final(self).wf(),
            final(self)@ == (PacketView { destination: addr@, ..old(self)@ }),
    {
        self.buffer.set(4, addr[0]);
        self.buffer.set(5, addr[1]);
        self.buffer.set(6, addr[2]);
        self.buffer.set(7, addr[3]);
        proof {
            assert(self.buffer@.subrange(0, 4) =~= old(self).buffer@.subrange(0, 4));
            assert(self.buffer@.subrange(4, 8) =~= addr@);
            assert(self.buffer@.subrange(HEAD_LEN as int, self.data_len as int)
                =~= old(self).buffer@.subrange(HEAD_LEN as int, self.data_len as int));
            assert(self@ =~= (PacketView { destination: addr@, ..old(self)@ }));
        }
    }

    /// Write the inner protocol id.
    pub fn set_protocol(&mut self, p: u8)
        requires
            old(self).wf(),
        ensures
            final(self).wf(),
            final(self)@ == (PacketView { protocol: p, ..old(self)@ }),
    {
        self.buffer.set(8, p);
        proof {
            self.lemma_header_byte_update(old(self), 8);
            assert(self@ =~= (PacketView { protocol: p, ..old(self)@ }));
        }
    }

    /// Write the transport protocol id.
    pub fn set_transport_protocol(&mut self, p: u8)
        requires
            old(self).wf(),
        ensures
            final(self).wf(),
            final(self)@ == (PacketView { transport_protocol: p, ..old(self)@ }),
    {
        self.buffer.set(9, p);
        proof {
            self.lemma_header_byte_update(old(self), 9);
            assert(self@ =~= (PacketView { transport_protocol: p, ..old(self)@ }));
        }
    }

    /// Write the source TTL.
    pub fn set_source_ttl(&mut self, ttl: u8)
        requires
            old(self).wf(),
        ensures
            final(self).wf(),
            final(self)@ == (PacketView { ttl: ttl, ..old(self)@ }),
    {
        self.buffer.set(10, ttl);
        proof {
            self.lemma_header_byte_update(old(self), 10);
            assert(self@ =~= (PacketView { ttl: ttl, ..old(self)@ }));
        }
    }

    /// Mark or unmark the packet as gateway traffic.
    pub fn set_gateway_flag(&mut self, gateway: bool)
        requires
            old(self).wf(),
        ensures
            final(self).wf(),
            final(self)@ == (PacketView { gateway: gateway, ..old(self)@ }),
    {
        let flags = self.buffer[11];
        let updated = if gateway {
            flags | 2
        } else {
            flags & 0xfd
        };
        self.buffer.set(11, updated);
        proof {
            assert(((flags | 2) & 2) == 2) by (bit_vector);
            assert(((flags | 2) & 1) == (flags & 1)) by (bit_vector);
            assert(((flags & 0xfd) & 2) != 2) by (bit_vector);
            assert(((flags & 0xfd) & 1) == (flags & 1)) by (bit_vector);
            self.lemma_header_byte_update(old(self), 11);
            assert(self@ =~= (PacketView { gateway: gateway, ..old(self)@ }));
        }
    }

    /// Set or clear the encrypted flag.
    pub fn set_encrypt_flag(&mut self, encrypted: bool)
        requires
            old(self).wf(),
        ensures
            final(self).wf(),
            final(self)@ == (PacketView { encrypted: encrypted, ..old(self)@ }),
    {
        let flags = self.buffer[11];
        let updated = if encrypted {
            flags | 1
        } else {
            flags & 0xfe
        };
        self.buffer.set(11, updated);
        proof {
            assert(((flags | 1) & 1) == 1) by (bit_vector);
            assert(((flags | 1) & 2) == (flags & 2)) by (bit_vector);
            assert(((flags & 0xfe) & 1) != 1) by (bit_vector);
            assert(((flags & 0xfe) & 2) == (flags & 2)) by (bit_vector);
            self.lemma_header_byte_update(old(self), 11);
            assert(self@ =~= (PacketView { encrypted: encrypted, ..old(self)@ }));
        }
    }

    /// Updating one header byte beyond the addresses leaves the address
    /// ranges and the payload range unchanged.
    proof fn lemma_header_byte_update(&self, prev: &NetPacket, i: int)
        requires
            prev.wf(),
            8 <= i < HEAD_LEN,
            self.data_len == prev.data_len,
            self.buffer@.len() == prev.buffer@.len(),
            forall|j: int| 0 <= j < self.buffer@.len() && j != i ==> self.buffer@[j] == prev.buffer@[j],
        ensures
            self.buffer@.subrange(0, 4) == prev.buffer@.subrange(0, 4),
            self.buffer@.subrange(4, 8) == prev.buffer@.subrange(4, 8),
            self.buffer@.subrange(HEAD_LEN as int, self.data_len as int) == prev.buffer@.subrange(
                HEAD_LEN as int,
                prev.data_len as int,
            ),
    {
        assert(self.buffer@.subrange(0, 4) =~= prev.buffer@.subrange(0, 4));
        assert(self.buffer@.subrange(4, 8) =~= prev.buffer@.subrange(4, 8));
        assert(self.buffer@.subrange(HEAD_LEN as int, self.data_len as int) =~= prev.buffer@
            .subrange(HEAD_LEN as int, prev.data_len as int));
    }

    /// Replace the payload and declare its length, without touching the
    /// header; the caller has shown that it fits.
    pub(crate) fn commit_payload(&mut self, bytes: &Vec<u8>)
        requires
            old(self).wf(),
            HEAD_LEN + bytes@.len() <= old(self)@.capacity,
        ensures
            final(self).wf(),
            final(self)@ == (PacketView { payload: bytes@, ..old(self)@ }),
    {
        let mut i: usize = 0;
        while i < bytes.len()
            invariant
                old(self).wf(),
                HEAD_LEN + bytes@.len() <= old(self).buffer@.len(),
                i <= bytes@.len(),
                self.data_len == old(self).data_len,
                self.buffer@.len() == old(self).buffer@.len(),
                forall|j: int|
                    0 <= j < HEAD_LEN ==> self.buffer@[j] == old(self).buffer@[j],
                forall|j: int|
                    HEAD_LEN <= j < HEAD_LEN + i ==> self.buffer@[j] == bytes@[j - HEAD_LEN],
                forall|j: int|
                    HEAD_LEN + i <= j < self.buffer@.len() ==> self.buffer@[j] == old(
                        self,
                    ).buffer@[j],
            decreases bytes@.len() - i,
        {
            self.buffer.set(HEAD_LEN + i, bytes[i]);
            i = i + 1;
        }
        self.data_len = HEAD_LEN + bytes.len();
        proof {
            assert(self.buffer@.subrange(0, 4) =~= old(self).buffer@.subrange(0, 4));
            assert(self.buffer@.subrange(4, 8) =~= old(self).buffer@.subrange(4, 8));
            assert(self.buffer@.subrange(HEAD_LEN as int, self.data_len as int) =~= bytes@);
            assert(self@ =~= (PacketView { payload: bytes@, ..old(self)@ }));
        }
    }

    /// Replace the payload, rejecting one that exceeds the buffer.
    pub fn set_payload(&mut self, bytes: &Vec<u8>) -> (r: Result<(), CipherError>)
        requires
            old(self).wf(),
        ensures
            final(self).wf(),
            match r {
                Ok(()) => {
                    &&& HEAD_LEN + bytes@.len() <= old(self)@.capacity
                    &&& final(self)@ == (PacketView { payload: bytes@, ..old(self)@ })
                },
                Err(e) => {
                    &&& HEAD_LEN + bytes@.len() > old(self)@.capacity
                    &&& e == CipherError::LengthExceedsCapacity
                    &&& final(self)@ == old(self)@
                },
            },
    {
        if bytes.len() > self.buffer.len() - HEAD_LEN {
            return Err(CipherError::LengthExceedsCapacity);
        }
        self.commit_payload(bytes);
        Ok(())
    }
}

} // verus!
