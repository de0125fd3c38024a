//! Stored-object bookkeeping and the chunked transfer state machine.
//!
//! A firmware image or stored resource arrives as a sequence of SysEx
//! chunks: first a five-word size, then any number of data chunks packed
//! by the codec, finally a five-word CRC-32 checksum.  The machine
//! reassembles the bytes and validates the checksum; every failure is
//! surfaced as a state, never as a panic.

use vstd::prelude::*;

use crate::crc32::crc32_spec;
use crate::crc32::crc32;
use crate::sysex::decode32;
use crate::sysex::decode32_spec;
use crate::sysex::decode_bytes;
use crate::sysex::decode_bytes_spec;
use crate::sysex::decode_capacity_spec;
use crate::sysex::lemma_decoded_len_mono_capacity;
use crate::sysex::lemma_decode_bytes_len;

verus! {

/// What `byte_unit` renders for a byte count with binary-multiple
/// units: "100 B", "2.00 KiB", and so on.
pub uninterp spec fn size_display_of(size: u32) -> Seq<char>;

/// Relies on `byte_unit::Byte::from_bytes`,
/// `Byte::get_appropriate_unit(true)` and the `Display` of
/// `AdjustedByte`: the rendering depends on the byte count alone.
#[verifier::external_body]
fn byte_unit_size_string(size: u32) -> (r: String)
    ensures
        r@ == size_display_of(size),
{
    let byte = byte_unit::Byte::from_bytes(u128::from(size));
    byte.get_appropriate_unit(true).to_string()
}

/// A named, sized, checksummed object stored on the device: one entry
/// of the patch list or of the resource list.
#[derive(Clone, Debug, PartialEq, Eq)]
pub struct Resource {
    pub id: u8,
    pub name: String,
    pub size: u32,
    pub checksum: u32,
}

impl Resource {
    pub fn new(id: u8, name: String, size: u32, checksum: u32) -> (r: Self)
        ensures
            r == (Resource { id, name, size, checksum }),
    {
        Resource { id, name, size, checksum }
    }

    /// The size rendered human-readably with a binary-multiple unit.
    pub fn size_string(&self) -> (r: String)
        ensures
            r@ == size_display_of(self.size),
    {
        byte_unit_size_string(self.size)
    }
}

/// The states of one chunked transfer.  `Success`, `Failed` and
/// `InvalidChecksum` are terminal until an explicit reset.
#[derive(Clone, Copy, Debug, PartialEq, Eq, Structural)]
pub enum ResourceState {
    New,
    InProgress,
    Complete,
    Success,
    Failed,
    InvalidChecksum,
}

/// The mathematical state of a transfer: its state, the bytes
/// reassembled so far, the expected total size and the received
/// checksum.
#[verifier::ext_equal]
pub ghost struct TransferModel {
    pub state: ResourceState,
    pub data: Seq<u8>,
    pub size: u32,
    pub checksum: u32,
}

/// The model of a freshly reset transfer.
pub open spec fn fresh_transfer() -> TransferModel {
    TransferModel {
        state: ResourceState::New,
        data: Seq::<u8>::empty(),
        size: 0u32,
        checksum: 0u32,
    }
}

/// How one chunk advances a transfer.
///
/// - `New`: a five-word chunk is the expected size and starts the
///   transfer; any other shape fails it.
/// - `InProgress`: a five-word chunk has the shape of a size chunk and
///   is rejected as a malformed frame (no implicit restart); a chunk
///   whose decoding would not fit the 256-byte scratch buffer fails the
///   transfer; any other chunk is decoded and appended, and reaching
///   the expected size completes the transfer.
/// - `Complete`: a five-word chunk is the checksum; the accumulated
///   bytes up to the expected size are checked against it.  Any other
///   shape fails the transfer.
/// - terminal states ignore further chunks.
pub open spec fn transfer_step(m: TransferModel, chunk: Seq<u8>) -> TransferModel {
    match m.state {
        ResourceState::New => {
            if chunk.len() == 5 {
                TransferModel {
                    state: ResourceState::InProgress,
                    size: decode32_spec(chunk),
                    ..m
                }
            } else {
                TransferModel { state: ResourceState::Failed, ..m }
            }
        },
        ResourceState::InProgress => {
            if chunk.len() == 5 {
                TransferModel { state: ResourceState::Failed, ..m }
            } else if decode_capacity_spec(chunk.len() as int) > 256 {
                TransferModel { state: ResourceState::Failed, ..m }
            } else {
                let grown = m.data + decode_bytes_spec(chunk);
                TransferModel {
                    state: if grown.len() >= m.size {
                        ResourceState::Complete
                    } else {
                        ResourceState::InProgress
                    },
                    data: grown,
                    ..m
                }
            }
        },
        ResourceState::Complete => {
            if chunk.len() == 5 {
                let cks = decode32_spec(chunk);
                TransferModel {
                    state: if crc32_spec(m.data.take(m.size as int)) == cks {
                        ResourceState::Success
                    } else {
                        ResourceState::InvalidChecksum
                    },
                    checksum: cks,
                    ..m
                }
            } else {
                TransferModel { state: ResourceState::Failed, ..m }
            }
        },
        _ => m,
    }
}

/// A whole sequence of chunks fed one after the other.
pub open spec fn transfer_run(m: TransferModel, cs: Seq<Seq<u8>>) -> TransferModel
    decreases cs.len(),
{
    if cs.len() == 0 {
        m
    } else {
        transfer_run(transfer_step(m, cs[0]), cs.skip(1))
    }
}

/// The concatenation of the decodings of a sequence of chunks.
pub open spec fn decoded_concat(cs: Seq<Seq<u8>>) -> Seq<u8>
    decreases cs.len(),
{
    if cs.len() == 0 {
        Seq::empty()
    } else {
        decode_bytes_spec(cs[0]) + decoded_concat(cs.skip(1))
    }
}

/// Every chunk of `cs` is acceptable as a data chunk: not shaped like a
/// size chunk and small enough for the decoder's scratch buffer.
pub open spec fn data_chunks_ok(cs: Seq<Seq<u8>>) -> bool {
    forall|i: int| 0 <= i < cs.len() ==> {
        &&& (#[trigger] cs[i]).len() != 5
        &&& decode_capacity_spec(cs[i].len() as int) <= 256
    }
}

/// No proper prefix of `cs` already decodes to `size` or more bytes
/// beyond `have`: the transfer completes only with the last chunk.
pub open spec fn completes_only_at_end(cs: Seq<Seq<u8>>, have: int, size: int) -> bool {
    forall|k: int| 1 <= k < cs.len() ==> have + decoded_concat(#[trigger] cs.take(k)).len() < size
}

proof fn lemma_decoded_concat_unfold_take(cs: Seq<Seq<u8>>, k: int)
    requires
        cs.len() >= 1,
        0 <= k <= cs.len() - 1,
    ensures
        decoded_concat(cs.take(k + 1)) == decode_bytes_spec(cs[0]) + decoded_concat(
            cs.skip(1).take(k),
        ),
{
    assert(cs.take(k + 1)[0] == cs[0]);
    assert(cs.take(k + 1).skip(1) =~= cs.skip(1).take(k));
}

/// Feeding acceptable data chunks to an in-progress transfer appends
/// exactly their decodings and completes the transfer with the last
/// chunk.
proof fn lemma_transfer_feed_chunks(m: TransferModel, cs: Seq<Seq<u8>>)
    requires
        m.state == ResourceState::InProgress,
        cs.len() >= 1,
        data_chunks_ok(cs),
        m.data.len() + decoded_concat(cs).len() >= m.size,
        completes_only_at_end(cs, m.data.len() as int, m.size as int),
    ensures
        transfer_run(m, cs) == (TransferModel {
            state: ResourceState::Complete,
            data: m.data + decoded_concat(cs),
            size: m.size,
            checksum: m.checksum,
        }),
    decreases cs.len(),
{
    let m1 = transfer_step(m, cs[0]);
    if cs.len() == 1 {
        assert(cs.skip(1) =~= Seq::<Seq<u8>>::empty());
        assert(decoded_concat(cs) =~= decode_bytes_spec(cs[0]));
        assert(m1.data =~= m.data + decoded_concat(cs));
        assert(m1.state == ResourceState::Complete);
        assert(transfer_run(m, cs) =~= m1);
    } else {
        lemma_decoded_concat_unfold_take(cs, 0);
        assert(cs.take(1int) =~= cs.take(0int + 1));
        assert(decoded_concat(cs.skip(1).take(0)) =~= Seq::<u8>::empty());
        assert(decoded_concat(cs.take(1)) =~= decode_bytes_spec(cs[0]));
        assert(m.data.len() + decoded_concat(cs.take(1)).len() < m.size);
        assert(m1.state == ResourceState::InProgress);
        assert(m1.data =~= m.data + decode_bytes_spec(cs[0]));
        // the remaining chunks still satisfy every premise
        assert(data_chunks_ok(cs.skip(1))) by {
            assert forall|i: int| 0 <= i < cs.skip(1).len() implies {
                &&& (#[trigger] cs.skip(1)[i]).len() != 5
                &&& decode_capacity_spec(cs.skip(1)[i].len() as int) <= 256
            } by {
                assert(cs.skip(1)[i] == cs[i + 1]);
            };
        };
        assert(cs.skip(1).skip(1) =~= cs.skip(2));
        assert(decoded_concat(cs) == decode_bytes_spec(cs[0]) + decoded_concat(cs.skip(1)));
        assert(completes_only_at_end(cs.skip(1), m1.data.len() as int, m.size as int)) by {
            assert forall|k: int| 1 <= k < cs.skip(1).len() implies m1.data.len()
                + decoded_concat(#[trigger] cs.skip(1).take(k)).len() < m.size by {
                lemma_decoded_concat_unfold_take(cs, k);
                assert(m.data.len() + decoded_concat(cs.take(k + 1)).len() < m.size);
            };
        };
        lemma_transfer_feed_chunks(m1, cs.skip(1));
        assert(m1.data + decoded_concat(cs.skip(1)) =~= m.data + decoded_concat(cs));
        assert(transfer_run(m, cs) == transfer_run(m1, cs.skip(1)));
    }
}

/// Law: feeding the size chunk of a fresh transfer twice without an
/// intervening reset does not restart it.  The first five-word chunk
/// sets the expected size; the second one, arriving while the transfer
/// is already in progress, is a malformed frame: the machine fails and
/// neither the size nor the bytes received so far change.
pub proof fn lemma_transfer_no_implicit_restart(m0: TransferModel, chunk: Seq<u8>)
    requires
        m0.state == ResourceState::New,
        m0.data.len() == 0,
        chunk.len() == 5,
    ensures
        ({
            let m1 = transfer_step(m0, chunk);
            let m2 = transfer_step(m1, chunk);
            &&& m1.state == ResourceState::InProgress
            &&& m1.size == decode32_spec(chunk)
            &&& m2.state == ResourceState::Failed
            &&& m2.size == m1.size
            &&& m2.data == m1.data
        }),
{
}

/// Law: a full transfer of a byte stream succeeds exactly when the
/// trailing checksum is its CRC-32.  From a fresh transfer, feed the
/// encoded total size, then any acceptable data chunks whose decodings
/// concatenate to the stream, then an encoded checksum: the machine
/// ends in `Success` when the checksum equals CRC-32 of the stream and
/// in `InvalidChecksum` for every other checksum.
pub proof fn lemma_transfer_checksum(m0: TransferModel, cs: Seq<Seq<u8>>, cks: u32)
    requires
        m0.state == ResourceState::New,
        m0.data.len() == 0,
        cs.len() >= 1,
        data_chunks_ok(cs),
        decoded_concat(cs).len() <= u32::MAX,
        completes_only_at_end(cs, 0, decoded_concat(cs).len() as int),
    ensures
        ({
            let stream = decoded_concat(cs);
            let m1 = transfer_step(m0, crate::sysex::encode32_spec(stream.len() as u32));
            let m2 = transfer_run(m1, cs);
            let m3 = transfer_step(m2, crate::sysex::encode32_spec(cks));
            &&& m2.state == ResourceState::Complete
            &&& m2.data == stream
            &&& m3.state == (if cks == crc32_spec(stream) {
                ResourceState::Success
            } else {
                ResourceState::InvalidChecksum
            })
        }),
{
    let stream = decoded_concat(cs);
    let total = stream.len() as u32;
    crate::sysex::lemma_decode32_encode32(total);
    let m1 = transfer_step(m0, crate::sysex::encode32_spec(total));
    assert(m1.state == ResourceState::InProgress);
    assert(m1.size == total);
    assert(m1.data.len() == 0);
    lemma_transfer_feed_chunks(m1, cs);
    let m2 = transfer_run(m1, cs);
    assert(m2.data =~= stream);
    crate::sysex::lemma_decode32_encode32(cks);
    assert(m2.data.take(m2.size as int) =~= stream);
}

/// One in-flight chunked transfer.
#[derive(Debug, PartialEq, Eq)]
pub struct ResourceData {
    pub state: ResourceState,
    /// Bytes reassembled so far.
    pub data: Vec<u8>,
    /// Expected total size, from the opening size chunk.
    pub size: u32,
    /// Bytes received so far; always the length of `data`.
    pub offset: usize,
    /// Expected checksum, from the closing checksum chunk.
    pub checksum: u32,
    decode_buffer: Vec<u8>,
}

impl View for ResourceData {
    type V = TransferModel;

    closed spec fn view(&self) -> TransferModel {
        TransferModel {
            state: self.state,
            data: self.data@,
            size: self.size,
            checksum: self.checksum,
        }
    }
}

impl ResourceData {
    /// Well-formedness every transfer keeps: the scratch buffer holds
    /// 256 bytes, the byte counter mirrors the accumulator, a fresh
    /// transfer has received nothing, and a complete one has at least
    /// the expected size.
    pub closed spec fn inv(&self) -> bool {
        &&& self.decode_buffer@.len() == 256
        &&& self.offset == self.data@.len()
        &&& (self.state == ResourceState::New ==> self.data@.len() == 0)
        &&& (self.state == ResourceState::Complete ==> self.data@.len() >= self.size)
    }

    pub fn new() -> (r: Self)
        ensures
            r.inv(),
            r@ == (TransferModel {
                state: ResourceState::New,
                data: Seq::<u8>::empty(),
                size: 0u32,
                checksum: 0u32,
            }),
    {
        let r = ResourceData {
            state: ResourceState::New,
            data: Vec::new(),
            size: 0,
            offset: 0,
            checksum: 0,
            decode_buffer: vec![0u8; 256],
        };
        proof {
            assert(r@ =~= (TransferModel {
                state: ResourceState::New,
                data: Seq::<u8>::empty(),
                size: 0u32,
                checksum: 0u32,
            }));
        }
        r
    }

    /// Abandons the current transfer and starts afresh.
    pub fn reset(&mut self)
        ensures
            final(self).inv(),
            final(self)@ == (TransferModel {
                state: ResourceState::New,
                data: Seq::<u8>::empty(),
                size: 0u32,
                checksum: 0u32,
            }),
    {
        *self = Self::new();
    }

    /// Feeds one chunk to the machine; the whole transition is
    /// `transfer_step` on the transfer's model.
    pub fn process_data(&mut self, chunk: &[u8])
        requires
            old(self).inv(),
        ensures
            final(self).inv(),
            final(self)@ == transfer_step(old(self)@, chunk@),
    {
        match self.state {
            ResourceState::New => {
                if chunk.len() == 5 {
                    match decode32(chunk) {
                        Ok((v, _)) => {
                            self.size = v;
                            self.state = ResourceState::InProgress;
                        },
                        Err(_) => {
                            proof {
                                assert(false);
                            }
                        },
                    }
                } else {
                    self.state = ResourceState::Failed;
                }
            },
            ResourceState::InProgress => {
                if chunk.len() == 5 {
                    self.state = ResourceState::Failed;
                } else {
                    match decode_bytes(chunk, &mut self.decode_buffer) {
                        Ok(cr) => {
                            let n = cr.bytes_written;
                            let ghost d0 = self.data@;
                            let ghost scratch = self.decode_buffer@;
                            proof {
                                lemma_decoded_len_mono_capacity(
                                    chunk@.len() as int,
                                    chunk@.len() as int,
                                );
                                lemma_decode_bytes_len(chunk@);
                                assert(n <= 256);
                            }
                            let mut t: usize = 0;
                            while t < n
                                invariant
                                    t <= n,
                                    n <= self.decode_buffer@.len(),
                                    self.decode_buffer@ == scratch,
                                    self.data@ == d0 + scratch.take(t as int),
                                    self.state == ResourceState::InProgress,
                                    self.size == old(self).size,
                                    self.checksum == old(self).checksum,
                                decreases n - t,
                            {
                                let b = self.decode_buffer[t];
                                self.data.push(b);
                                proof {
                                    assert(d0 + scratch.take((t + 1) as int)
                                        =~= (d0 + scratch.take(t as int)).push(b));
                                }
                                t += 1;
                            }
                            self.offset = self.data.len();
                            if self.offset >= self.size as usize {
                                self.state = ResourceState::Complete;
                            }
                            proof {
                                lemma_decode_bytes_len(chunk@);
                                assert(scratch.take(n as int) =~= decode_bytes_spec(chunk@));
                                assert(self.data@ =~= d0 + decode_bytes_spec(chunk@));
                                assert(self@ =~= transfer_step(old(self)@, chunk@));
                            }
                        },
                        Err(_) => {
                            self.state = ResourceState::Failed;
                        },
                    }
                }
            },
            ResourceState::Complete => {
                if chunk.len() == 5 {
                    match decode32(chunk) {
                        Ok((cks, _)) => {
                            self.checksum = cks;
                            let whole = self.data.as_slice();
                            let part = &whole[0..self.size as usize];
                            let crc = crc32(part);
                            if crc != cks {
                                self.state = ResourceState::InvalidChecksum;
                            } else {
                                self.state = ResourceState::Success;
                            }
                        },
                        Err(_) => {
                            proof {
                                assert(false);
                            }
                        },
                    }
                } else {
                    self.state = ResourceState::Failed;
                }
            },
            _ => {},
        }
        proof {
            assert(self@ =~= transfer_step(old(self)@, chunk@));
        }
    }
}

} // verus!
