//! Encoding of the message header exchanged over the network.
//!
//! A message is laid out as:
//!
//! * the number of acknowledged ids (`ack_len`), one byte;
//! * `ack_len` acknowledged ids, each a big-endian `u32`;
//! * the message's own sequence id, a big-endian `u32`;
//! * the data it carries, if any, up to the end of the message.
//!
//! Whether a message is reliable is not encoded: the transport reports it.

use std::collections::VecDeque;

use vstd::prelude::*;

use crate::common::SeqId;

verus! {

/// Largest number of acknowledgements carried by one message.
pub const ACK_MAX_LEN: usize = 8;

/// The big-endian bytes of `x`.
pub open spec fn be_bytes(x: u32) -> Seq<u8> {
    seq![
        (x / 0x100_0000) as u8,
        ((x / 0x1_0000) % 0x100) as u8,
        ((x / 0x100) % 0x100) as u8,
        (x % 0x100) as u8,
    ]
}

/// The `u32` whose big-endian bytes are the four bytes of `b`.
pub open spec fn be_value(b: Seq<u8>) -> u32
    recommends
        b.len() == 4,
{
    (b[0] * 0x100_0000 + b[1] * 0x1_0000 + b[2] * 0x100 + b[3]) as u32
}

/// The acknowledged ids, one after the other, each as four big-endian bytes.
pub open spec fn encode_acks(acks: Seq<SeqId>) -> Seq<u8> {
    Seq::new(4 * acks.len(), |k: int| be_bytes(acks[k / 4])[k % 4])
}

/// The content of a message: acknowledged ids, its own sequence id, and the data
/// it carries, if any.
pub struct MsgFrame {
    pub acks: Seq<SeqId>,
    pub seq_id: SeqId,
    pub data: Option<Seq<u8>>,
}

/// The bytes sent for a message.
pub open spec fn spec_encode_frame(f: MsgFrame) -> Seq<u8> {
    seq![f.acks.len() as u8] + encode_acks(f.acks) + be_bytes(f.seq_id) + match f.data {
        Some(data) => data,
        None => Seq::empty(),
    }
}

/// Offset of the sequence id in a message whose first byte is `ack_len`.
pub open spec fn seq_id_offset(ack_len: int) -> int {
    1 + 4 * ack_len
}

/// What a received message holds, or `None` where its header (the
/// acknowledgements and the sequence id) is cut short.
///
/// The message carries data when bytes follow the sequence id.
pub open spec fn spec_decode_frame(b: Seq<u8>) -> Option<MsgFrame> {
    if b.len() == 0 {
        None
    } else {
        let n = b[0] as int;
        let off = seq_id_offset(n);
        if b.len() < off + 4 {
            None
        } else {
            let acks = Seq::new(n as nat, |i: int| be_value(b.subrange(1 + 4 * i, 5 + 4 * i)));
            let data = if b.len() == off + 4 {
                None
            } else {
                Some(b.subrange(off + 4, b.len() as int))
            };
            Some(MsgFrame { acks, seq_id: be_value(b.subrange(off, off + 4)), data })
        }
    }
}

/// Decoding panics on these bytes: a complete header that announces more
/// acknowledgements than a message can hold.
pub open spec fn decode_would_panic(b: Seq<u8>) -> bool {
    &&& b.len() >= 1
    &&& b[0] > ACK_MAX_LEN
    &&& b.len() >= seq_id_offset(b[0] as int)
}

/// Whether decoding `data` would panic: its header announces more
/// acknowledgements than a message can hold, and is complete.
pub fn header_overflows(data: &[u8]) -> (r: bool)
    ensures
        r == decode_would_panic(data@),
{
    if data.len() == 0 {
        return false;
    }
    let ack_len = data[0] as usize;
    ack_len > ACK_MAX_LEN && data.len() >= 1 + 4 * ack_len
}

/// A frame that can be sent: at most `ACK_MAX_LEN` acknowledgements, and data that
/// is not empty when it carries data.
pub open spec fn frame_is_sendable(f: MsgFrame) -> bool {
    &&& f.acks.len() <= ACK_MAX_LEN
    &&& f.data matches Some(data) ==> data.len() > 0
}

/// A `u32` written as big-endian bytes and read back is the same `u32`.
pub proof fn lemma_be_roundtrip(x: u32)
    ensures
        be_value(be_bytes(x)) == x,
{
    let b = be_bytes(x);
    assert(x == (x / 0x100_0000) * 0x100_0000 + ((x / 0x1_0000) % 0x100) * 0x1_0000 + ((x / 0x100)
        % 0x100) * 0x100 + x % 0x100) by (nonlinear_arith);
}

/// Four bytes read as a big-endian `u32` and written back give the same bytes.
pub proof fn lemma_be_bytes_of_value(b: Seq<u8>)
    requires
        b.len() == 4,
    ensures
        be_bytes(be_value(b)) == b,
{
    let (b0, b1, b2, b3) = (b[0] as int, b[1] as int, b[2] as int, b[3] as int);
    let v = b0 * 0x100_0000 + b1 * 0x1_0000 + b2 * 0x100 + b3;
    assert(v / 0x100_0000 == b0 && (v / 0x1_0000) % 0x100 == b1 && (v / 0x100) % 0x100 == b2 && v
        % 0x100 == b3) by (nonlinear_arith)
        requires
            0 <= b0 < 256,
            0 <= b1 < 256,
            0 <= b2 < 256,
            0 <= b3 < 256,
            v == b0 * 0x100_0000 + b1 * 0x1_0000 + b2 * 0x100 + b3,
    ;
    assert(be_bytes(be_value(b)) =~= b);
}

proof fn lemma_encode_acks_at(acks: Seq<SeqId>, i: int)
    requires
        0 <= i < acks.len(),
    ensures
        encode_acks(acks).subrange(4 * i, 4 * i + 4) == be_bytes(acks[i]),
{
    let e = encode_acks(acks);
    assert forall|j: int| 0 <= j < 4 implies #[trigger] e.subrange(4 * i, 4 * i + 4)[j] == be_bytes(
        acks[i],
    )[j] by {
        assert((4 * i + j) / 4 == i);
        assert((4 * i + j) % 4 == j);
    }
    assert(e.subrange(4 * i, 4 * i + 4) =~= be_bytes(acks[i]));
}

/// Decoding the bytes sent for a sendable frame gives back that frame.
pub proof fn lemma_decode_encode(f: MsgFrame)
    requires
        frame_is_sendable(f),
    ensures
        spec_decode_frame(spec_encode_frame(f)) == Some(f),
{
    let b = spec_encode_frame(f);
    let n = f.acks.len() as int;
    let off = seq_id_offset(n);
    let head = seq![f.acks.len() as u8] + encode_acks(f.acks);
    assert(head.len() == off);
    assert(b[0] == n);
    let acks = Seq::new(n as nat, |i: int| be_value(b.subrange(1 + 4 * i, 5 + 4 * i)));
    assert forall|i: int| 0 <= i < n implies #[trigger] acks[i] == f.acks[i] by {
        lemma_encode_acks_at(f.acks, i);
        assert(b.subrange(1 + 4 * i, 5 + 4 * i) =~= encode_acks(f.acks).subrange(4 * i, 4 * i + 4));
        lemma_be_roundtrip(f.acks[i]);
    }
    assert(acks =~= f.acks);
    assert(b.subrange(off, off + 4) =~= be_bytes(f.seq_id));
    lemma_be_roundtrip(f.seq_id);
    match f.data {
        Some(data) => {
            assert(b.subrange(off + 4, b.len() as int) =~= data);
        },
        None => {
            assert(b.len() == off + 4);
        },
    }
}

/// A well-formed message survives encoding and decoding: the header read back has
/// the same acknowledgements, data flag and sequence id, and the data comes back
/// when the message carries any.
pub proof fn lemma_message_roundtrip(c: RawMsgCommon, data: Seq<u8>, d: RawMsgCommon)
    requires
        c.wf(),
        c.unused_acks_zero(),
        c.has_data ==> data.len() > 0,
        d.decoded_from(spec_decode_frame(spec_encode_frame(c.frame(data))).unwrap()),
    ensures
        spec_decode_frame(spec_encode_frame(c.frame(data))) == Some(c.frame(data)),
        d.ack_len == c.ack_len,
        d.raw_acks@ == c.raw_acks@,
        d.has_data == c.has_data,
        d.seq_id == c.seq_id,
        c.has_data ==> c.frame(data).data == Some(data),
{
    lemma_decode_encode(c.frame(data));
    assert(d.raw_acks@.take(d.ack_len as int) == c.raw_acks@.take(c.ack_len as int));
    assert forall|i: int| 0 <= i < ACK_MAX_LEN implies d.raw_acks@[i] == c.raw_acks@[i] by {
        if i < c.ack_len {
            assert(d.raw_acks@.take(d.ack_len as int)[i] == d.raw_acks@[i]);
        }
    }
    assert(d.raw_acks@ =~= c.raw_acks@);
}

/// The header part shared by outgoing and incoming messages.
#[derive(Clone, Copy)]
pub struct RawMsgCommon {
    pub ack_len: usize,
    pub raw_acks: [SeqId; ACK_MAX_LEN],
    pub has_data: bool,
    pub seq_id: SeqId,
}

impl RawMsgCommon {
    /// At most `ACK_MAX_LEN` acknowledgements are in use.
    pub open spec fn wf(self) -> bool {
        self.ack_len <= ACK_MAX_LEN
    }

    /// The acknowledgements in use.
    pub open spec fn acks_view(self) -> Seq<SeqId> {
        self.raw_acks@.take(self.ack_len as int)
    }

    /// The unused acknowledgement slots hold 0.
    pub open spec fn unused_acks_zero(self) -> bool {
        forall|i: int| self.ack_len <= i < ACK_MAX_LEN ==> self.raw_acks[i] == 0
    }

    /// The frame that this header sends with `data`.
    pub open spec fn frame(self, data: Seq<u8>) -> MsgFrame {
        MsgFrame {
            acks: self.acks_view(),
            seq_id: self.seq_id,
            data: if self.has_data {
                Some(data)
            } else {
                None
            },
        }
    }

    /// This header is what decoding reads for frame `f`.
    pub open spec fn decoded_from(self, f: MsgFrame) -> bool {
        &&& self.wf()
        &&& self.ack_len == f.acks.len()
        &&& self.acks_view() == f.acks
        &&& self.unused_acks_zero()
        &&& self.has_data == f.data is Some
        &&& self.seq_id == f.seq_id
    }

    /// The acknowledgements in use.
    pub fn acks(&self) -> (r: &[SeqId])
        requires
            self.wf(),
        ensures
            r@ == self.acks_view(),
    {
        let a: &[SeqId] = self.raw_acks.as_slice();
        &a[0..self.ack_len]
    }
}

/// The four big-endian bytes of `x`, appended to `buf`.
pub(crate) fn push_be_u32(buf: &mut Vec<u8>, x: u32)
    ensures
        final(buf)@ == old(buf)@ + be_bytes(x),
{
    buf.push((x / 0x100_0000) as u8);
    buf.push(((x / 0x1_0000) % 0x100) as u8);
    buf.push(((x / 0x100) % 0x100) as u8);
    buf.push((x % 0x100) as u8);
    assert(final(buf)@ =~= old(buf)@ + be_bytes(x));
}

/// The `u32` whose big-endian bytes start at `at` in `bytes`.
fn read_be_u32(bytes: &[u8], at: usize) -> (r: u32)
    requires
        at + 4 <= bytes@.len(),
    ensures
        r == be_value(bytes@.subrange(at as int, at + 4)),
{
    let b0 = bytes[at] as u32;
    let b1 = bytes[at + 1] as u32;
    let b2 = bytes[at + 2] as u32;
    let b3 = bytes[at + 3] as u32;
    let r = b0 * 0x100_0000 + b1 * 0x1_0000 + b2 * 0x100 + b3;
    assert(bytes@.subrange(at as int, at + 4)[0] == b0);
    r
}

/// A message about to be sent: its header and the data it carries.
pub struct RawMsgOut<'a> {
    pub common: RawMsgCommon,
    pub data: &'a [u8],
}

impl<'a> RawMsgOut<'a> {
    /// Builds the message for `data` with sequence id `seq_id`, taking up to
    /// `ACK_MAX_LEN` acknowledgements from the front of `confirmed_acks`.
    pub fn new(confirmed_acks: &mut VecDeque<SeqId>, seq_id: SeqId, data: &'a [u8]) -> (r: Self)
        ensures
            ({
                let k = if old(confirmed_acks)@.len() < ACK_MAX_LEN {
                    old(confirmed_acks)@.len() as int
                } else {
                    ACK_MAX_LEN as int
                };
                &&& r.common.ack_len == k
                &&& r.common.acks_view() == old(confirmed_acks)@.take(k)
                &&& final(confirmed_acks)@ == old(confirmed_acks)@.skip(k)
            }),
            r.common.wf(),
            r.common.unused_acks_zero(),
            r.common.has_data == (data@.len() > 0),
            r.common.seq_id == seq_id,
            r.data@ == data@,
    {
        let mut i: usize = 0;
        let mut common = RawMsgCommon {
            ack_len: 0,
            raw_acks: [0; ACK_MAX_LEN],
            has_data: data.len() > 0,
            seq_id,
        };
        let ghost orig = confirmed_acks@;
        while i < ACK_MAX_LEN
            invariant
                i <= ACK_MAX_LEN,
                i <= orig.len(),
                confirmed_acks@ == orig.skip(i as int),
                common.raw_acks@.take(i as int) == orig.take(i as int),
                forall|j: int| i <= j < ACK_MAX_LEN ==> common.raw_acks[j] == 0,
                common.has_data == (data@.len() > 0),
                common.seq_id == seq_id,
            ensures
                i <= ACK_MAX_LEN,
                i == ACK_MAX_LEN || i == orig.len(),
                i <= orig.len(),
                confirmed_acks@ == orig.skip(i as int),
                common.raw_acks@.take(i as int) == orig.take(i as int),
                forall|j: int| i <= j < ACK_MAX_LEN ==> common.raw_acks[j] == 0,
                common.has_data == (data@.len() > 0),
                common.seq_id == seq_id,
            decreases ACK_MAX_LEN - i,
        {
            let Some(ack_seq_id) = confirmed_acks.pop_front() else {
                break;
            };
            common.raw_acks[i] = ack_seq_id;
            assert(common.raw_acks@.take(i + 1) =~= orig.take(i + 1));
            i += 1;
            assert(confirmed_acks@ =~= orig.skip(i as int));
        }
        common.ack_len = i;
        RawMsgOut { common, data }
    }

    /// Writes the bytes of this message into `buf`, replacing what it held.
    pub fn encode_into(&self, buf: &mut Vec<u8>)
        requires
            self.common.wf(),
        ensures
            final(buf)@ == spec_encode_frame(self.common.frame(self.data@)),
    {
        buf.clear();
        let ack_len = self.common.ack_len;
        buf.push(ack_len as u8);
        let ghost acks = self.common.acks_view();
        let mut i: usize = 0;
        while i < ack_len
            invariant
                self.common.wf(),
                ack_len == self.common.ack_len,
                acks == self.common.acks_view(),
                i <= ack_len,
                buf@ == seq![ack_len as u8] + encode_acks(acks.take(i as int)),
            decreases ack_len - i,
        {
            let ghost before = buf@;
            push_be_u32(buf, self.common.raw_acks[i]);
            proof {
                let e1 = encode_acks(acks.take(i + 1));
                let e0 = encode_acks(acks.take(i as int));
                assert forall|k: int| 0 <= k < 4 * i + 4 implies #[trigger] e1[k] == (e0 + be_bytes(
                    acks[i as int],
                ))[k] by {
                    if k < 4 * i {
                        assert(k / 4 < i);
                    } else {
                        assert(k / 4 == i);
                        assert(k % 4 == k - 4 * i);
                    }
                }
                assert(e1 =~= e0 + be_bytes(acks[i as int]));
            }
            i += 1;
        }
        assert(acks.take(ack_len as int) =~= acks);
        push_be_u32(buf, self.common.seq_id);
        if self.common.has_data {
            let data = self.data;
            let ghost start = buf@;
            let mut j: usize = 0;
            while j < data.len()
                invariant
                    j <= data@.len(),
                    buf@ == start + data@.take(j as int),
                decreases data@.len() - j,
            {
                buf.push(data[j]);
                assert(data@.take(j + 1) =~= data@.take(j as int).push(data@[j as int]));
                j += 1;
            }
            assert(data@.take(data@.len() as int) =~= data@);
        }
        assert(buf@ =~= spec_encode_frame(self.common.frame(self.data@)));
    }
}

/// A message that was received: its header. The data goes to the buffer handed
/// to `decode_from`.
pub struct RawMsgIn {
    pub common: RawMsgCommon,
}

impl RawMsgIn {
    /// Decodes the header of `data`, and copies its data part into `buf`.
    ///
    /// `buf` is replaced only when the message carries data.
    pub fn decode_from(buf: &mut Vec<u8>, data: &[u8]) -> (r: Option<RawMsgIn>)
        requires
            !decode_would_panic(data@),
        ensures
            match spec_decode_frame(data@) {
                None => r is None && final(buf)@ == old(buf)@,
                Some(f) => r matches Some(m) && m.common.decoded_from(f) && final(buf)@ == match f.data {
                    Some(payload) => payload,
                    None => old(buf)@,
                },
            },
    {
        if data.len() == 0 {
            return None;
        }
        let ack_len = data[0] as usize;
        let seq_id_offset = 1 + ack_len * 4;
        if data.len() < seq_id_offset + 4 {
            return None;
        }
        let ghost f = spec_decode_frame(data@).unwrap();
        let mut common = RawMsgCommon { ack_len, raw_acks: [0; ACK_MAX_LEN], has_data: false, seq_id: 0 };
        let mut i: usize = 0;
        while i < ack_len
            invariant
                ack_len <= ACK_MAX_LEN,
                ack_len == data@[0],
                seq_id_offset == 1 + ack_len * 4,
                seq_id_offset + 4 <= data@.len(),
                f == spec_decode_frame(data@).unwrap(),
                i <= ack_len,
                common.ack_len == ack_len,
                common.has_data == false,
                common.seq_id == 0,
                forall|j: int| 0 <= j < i ==> common.raw_acks[j] == f.acks[j],
                forall|j: int| i <= j < ACK_MAX_LEN ==> common.raw_acks[j] == 0,
            decreases ack_len - i,
        {
            let v = read_be_u32(data, 1 + 4 * i);
            common.raw_acks[i] = v;
            i += 1;
        }
        assert(common.acks_view() =~= f.acks);
        common.seq_id = read_be_u32(data, seq_id_offset);
        if data.len() == seq_id_offset + 4 {
            return Some(RawMsgIn { common });
        }
        common.has_data = true;
        let data_offset = seq_id_offset + 4;
        buf.clear();
        let mut j: usize = data_offset;
        while j < data.len()
            invariant
                data_offset <= j <= data@.len(),
                buf@ == data@.subrange(data_offset as int, j as int),
            decreases data@.len() - j,
        {
            buf.push(data[j]);
            assert(data@.subrange(data_offset as int, j + 1) =~= data@.subrange(
                data_offset as int,
                j as int,
            ).push(data@[j as int]));
            j += 1;
        }
        Some(RawMsgIn { common })
    }
}

} // verus!
