//! DMRD packets: the voice and data frames of the Homebrew protocol.
//!
//! ```text
//!   0..4    b"DMRD"
//!   4       seq
//!   5..8    src_id (24-bit BE)
//!   8..11   dst_id (24-bit BE)
//!   11..15  repeater_id (32-bit BE)
//!   15      flags (slot | call_type | frame_type | dtype_vseq)
//!   16..20  stream_id (32-bit BE)
//!   20..53  dmr_data (layer 2 burst)
//! ```

use vstd::prelude::*;

use crate::bytes::{
    be24, be32, id_to_24_be, lemma_be24_injective, lemma_be32_injective, u24_from_be, u32_from_be,
    u32_to_be, MAX_24BIT,
};
use crate::types::Slot;

verus! {

/// Tag that opens every packet.
pub const MAGIC: [u8; 4] = [0x44, 0x4D, 0x52, 0x44];

/// Bytes ahead of the burst.
pub const HEADER_SIZE: usize = 20;

/// Bytes of a layer 2 burst.
pub const DMR_DATA_SIZE: usize = 33;

/// Bytes of a whole packet.
pub const PACKET_SIZE: usize = 53;

/// Group or unit (private) call.
#[derive(Debug, Clone, Copy, PartialEq, Eq, Structural)]
pub enum CallType {
    Group,
    Unit,
}

/// Class of a frame.
#[derive(Debug, Clone, Copy, PartialEq, Eq, Structural)]
pub enum FrameType {
    /// Voice burst B to F of a superframe; `dtype_vseq` carries the letter.
    Voice,
    /// Voice burst A, which carries the sync pattern.
    VoiceSync,
    /// Voice header, voice terminator or data; `dtype_vseq` carries the data type.
    DataSync,
}

/// Why bytes are not a packet.
#[derive(Debug, Clone, Copy, PartialEq, Eq)]
#[non_exhaustive]
pub enum DmrdError {
    /// Fewer bytes than a packet has; carries how many there are.
    TooShort(usize),
    /// The first four bytes are not the tag.
    BadMagic([u8; 4]),
    /// The frame type bits hold the reserved value.
    ReservedFrameType,
}

/// A packet.  `src_id` and `dst_id` are 24-bit numbers.
#[derive(Debug, Clone, Copy)]
pub struct Dmrd {
    pub seq: u8,
    pub src_id: u32,
    pub dst_id: u32,
    pub repeater_id: u32,
    pub slot: Slot,
    pub call_type: CallType,
    pub frame_type: FrameType,
    pub dtype_vseq: u8,
    pub stream_id: u32,
    pub dmr_data: [u8; DMR_DATA_SIZE],
}

/// The two frame type bits of the flag byte.
pub open spec fn frame_type_bits(frame_type: FrameType) -> int {
    match frame_type {
        FrameType::Voice => 0,
        FrameType::VoiceSync => 1,
        FrameType::DataSync => 2,
    }
}

/// The flag byte: slot, call type, frame type, then the low four bits of
/// `dtype_vseq`.
pub open spec fn flag_byte(d: Dmrd) -> int {
    (if d.slot is Two { 0x80int } else { 0 }) + (if d.call_type is Unit { 0x40int } else { 0 })
        + frame_type_bits(d.frame_type) * 0x10 + d.dtype_vseq % 0x10
}

/// The frame type bits that a flag byte carries.
pub open spec fn flags_frame_type(flags: u8) -> int {
    (flags / 0x10 % 4) as int
}

/// `w` opens with the header of `d`.
pub open spec fn has_header_of(d: Dmrd, w: Seq<u8>) -> bool {
    &&& w.len() >= HEADER_SIZE
    &&& w.subrange(0, 4) == MAGIC@
    &&& w[4] == d.seq
    &&& be24(w[5], w[6], w[7]) == d.src_id
    &&& be24(w[8], w[9], w[10]) == d.dst_id
    &&& be32(w[11], w[12], w[13], w[14]) == d.repeater_id
    &&& w[15] == flag_byte(d)
    &&& be32(w[16], w[17], w[18], w[19]) == d.stream_id
}

/// `w` is the packet of `d`.
pub open spec fn is_packet_of(d: Dmrd, w: Seq<u8>) -> bool {
    &&& w.len() == PACKET_SIZE
    &&& has_header_of(d, w)
    &&& w.subrange(20, 53) == d.dmr_data@
}

/// `r` is what reading a packet from `buf` gives.
pub open spec fn parses_to(buf: Seq<u8>, r: Result<Dmrd, DmrdError>) -> bool {
    match r {
        Err(DmrdError::TooShort(n)) => buf.len() < PACKET_SIZE && n == buf.len(),
        Err(DmrdError::BadMagic(m)) => buf.len() >= PACKET_SIZE && buf.subrange(0, 4) != MAGIC@
            && m@ == buf.subrange(0, 4),
        Err(DmrdError::ReservedFrameType) => buf.len() >= PACKET_SIZE && buf.subrange(0, 4)
            == MAGIC@ && flags_frame_type(buf[15]) == 3,
        Ok(d) => {
            &&& buf.len() >= PACKET_SIZE
            &&& buf.subrange(0, 4) == MAGIC@
            &&& flags_frame_type(buf[15]) != 3
            &&& is_packet_of(d, buf.subrange(0, PACKET_SIZE as int))
            &&& d.addresses_fit()
            &&& d.dtype_vseq < 0x10
        },
    }
}

impl Dmrd {
    /// Both addresses fit their 24-bit fields.
    pub open spec fn addresses_fit(self) -> bool {
        self.src_id <= MAX_24BIT && self.dst_id <= MAX_24BIT
    }

    pub fn serialize(&self) -> (r: [u8; PACKET_SIZE])
        requires
            self.addresses_fit(),
        ensures
            is_packet_of(*self, r@),
    {
        let mut buf: [u8; PACKET_SIZE] = [0u8; PACKET_SIZE];
        buf[0] = MAGIC[0];
        buf[1] = MAGIC[1];
        buf[2] = MAGIC[2];
        buf[3] = MAGIC[3];
        buf[4] = self.seq;
        let src = id_to_24_be(self.src_id);
        buf[5] = src[0];
        buf[6] = src[1];
        buf[7] = src[2];
        let dst = id_to_24_be(self.dst_id);
        buf[8] = dst[0];
        buf[9] = dst[1];
        buf[10] = dst[2];
        let repeater = u32_to_be(self.repeater_id);
        buf[11] = repeater[0];
        buf[12] = repeater[1];
        buf[13] = repeater[2];
        buf[14] = repeater[3];
        let slot_flag: u8 = match self.slot {
            Slot::One => 0,
            Slot::Two => 0x80,
        };
        let call_flag: u8 = match self.call_type {
            CallType::Group => 0,
            CallType::Unit => 0x40,
        };
        let frame_flag: u8 = match self.frame_type {
            FrameType::Voice => 0,
            FrameType::VoiceSync => 0x10,
            FrameType::DataSync => 0x20,
        };
        buf[15] = slot_flag + call_flag + frame_flag + self.dtype_vseq % 0x10;
        let stream = u32_to_be(self.stream_id);
        buf[16] = stream[0];
        buf[17] = stream[1];
        buf[18] = stream[2];
        buf[19] = stream[3];
        assert(buf@.subrange(0, 4) =~= MAGIC@);
        let mut i: usize = 0;
        while i < DMR_DATA_SIZE
            invariant
                i <= DMR_DATA_SIZE,
                has_header_of(*self, buf@),
                forall|k: int| 0 <= k < i ==> buf@[HEADER_SIZE + k] == self.dmr_data@[k],
            decreases DMR_DATA_SIZE - i,
        {
            let ghost before = buf@;
            buf[HEADER_SIZE + i] = self.dmr_data[i];
            assert(buf@.subrange(0, 4) =~= before.subrange(0, 4));
            i += 1;
        }
        assert(buf@.subrange(20, 53) =~= self.dmr_data@);
        buf
    }

    /// Reads the packet that opens `buf`; bytes after it are ignored.
    pub fn parse(buf: &[u8]) -> (r: Result<Self, DmrdError>)
        ensures
            parses_to(buf@, r),
    {
        if buf.len() < PACKET_SIZE {
            return Err(DmrdError::TooShort(buf.len()));
        }
        let opening: [u8; 4] = [buf[0], buf[1], buf[2], buf[3]];
        assert(opening@ =~= buf@.subrange(0, 4));
        if opening[0] != MAGIC[0] || opening[1] != MAGIC[1] || opening[2] != MAGIC[2] || opening[3]
            != MAGIC[3] {
            return Err(DmrdError::BadMagic(opening));
        }
        assert(opening@ =~= MAGIC@);
        let flags: u8 = buf[15];
        let slot = if flags / 0x80 == 1 {
            Slot::Two
        } else {
            Slot::One
        };
        let call_type = if flags / 0x40 % 2 == 1 {
            CallType::Unit
        } else {
            CallType::Group
        };
        let frame_type = match flags / 0x10 % 4 {
            0 => FrameType::Voice,
            1 => FrameType::VoiceSync,
            2 => FrameType::DataSync,
            _ => return Err(DmrdError::ReservedFrameType),
        };
        let mut dmr_data: [u8; DMR_DATA_SIZE] = [0u8; DMR_DATA_SIZE];
        let mut i: usize = 0;
        while i < DMR_DATA_SIZE
            invariant
                i <= DMR_DATA_SIZE,
                buf@.len() >= PACKET_SIZE,
                forall|k: int| 0 <= k < i ==> dmr_data@[k] == buf@[HEADER_SIZE + k],
            decreases DMR_DATA_SIZE - i,
        {
            dmr_data[i] = buf[HEADER_SIZE + i];
            i += 1;
        }
        let d = Dmrd {
            seq: buf[4],
            src_id: u24_from_be(buf[5], buf[6], buf[7]),
            dst_id: u24_from_be(buf[8], buf[9], buf[10]),
            repeater_id: u32_from_be(buf[11], buf[12], buf[13], buf[14]),
            slot,
            call_type,
            frame_type,
            dtype_vseq: flags % 0x10,
            stream_id: u32_from_be(buf[16], buf[17], buf[18], buf[19]),
            dmr_data,
        };
        proof {
            let w = buf@.subrange(0, PACKET_SIZE as int);
            assert(w.subrange(0, 4) =~= buf@.subrange(0, 4));
            assert(w.subrange(20, 53) =~= d.dmr_data@);
        }
        Ok(d)
    }
}

/// Law: a written packet reads back as the frame that was written, the low four
/// bits of `dtype_vseq` in place of the whole byte.
pub proof fn law_parse_inverts_serialize(written: Dmrd, w: Seq<u8>, r: Result<Dmrd, DmrdError>)
    requires
        is_packet_of(written, w),
        parses_to(w, r),
    ensures
        r == Ok::<Dmrd, DmrdError>(
            Dmrd { dtype_vseq: (written.dtype_vseq % 0x10) as u8, ..written },
        ),
{
    assert(w.subrange(0, PACKET_SIZE as int) =~= w);
    if let Ok(read) = r {
        assert(read.dmr_data =~= written.dmr_data);
    }
}

/// Law: a packet that was read is written as the bytes that it was read from.
pub proof fn law_serialize_inverts_parse(buf: Seq<u8>, read: Dmrd, again: Seq<u8>)
    requires
        parses_to(buf, Ok(read)),
        is_packet_of(read, again),
    ensures
        again == buf.subrange(0, PACKET_SIZE as int),
{
    let w = buf.subrange(0, PACKET_SIZE as int);
    lemma_be24_injective((w[5], w[6], w[7]), (again[5], again[6], again[7]));
    lemma_be24_injective((w[8], w[9], w[10]), (again[8], again[9], again[10]));
    lemma_be32_injective((w[11], w[12], w[13], w[14]), (again[11], again[12], again[13], again[14]));
    lemma_be32_injective((w[16], w[17], w[18], w[19]), (again[16], again[17], again[18], again[19]));
    assert forall|k: int| 0 <= k < w.len() implies again[k] == w[k] by {
        if k < 4 {
            assert(again.subrange(0, 4)[k] == w.subrange(0, 4)[k]);
        } else if k >= 20 {
            assert(again.subrange(20, 53)[k - 20] == w.subrange(20, 53)[k - 20]);
        }
    }
    assert(again =~= w);
}

/// Law: the bytes of a packet: the tag "DMRD", the sequence number, the source and
/// destination in three bytes each and the repeater in four, all with the most
/// significant byte first, the flags (0x80 for slot two, 0x40 for a private call,
/// 0x10 for voice with sync or 0x20 for data, and the low four bits of
/// `dtype_vseq`), the stream in four bytes and the burst.
pub proof fn law_packet_bytes(d: Dmrd, w: Seq<u8>)
    requires
        is_packet_of(d, w),
    ensures
        w.len() == 53,
        w[0] == 0x44 && w[1] == 0x4D && w[2] == 0x52 && w[3] == 0x44,
        w[4] == d.seq,
        0x1_0000 * w[5] + 0x100 * w[6] + w[7] == d.src_id,
        0x1_0000 * w[8] + 0x100 * w[9] + w[10] == d.dst_id,
        0x100_0000 * w[11] + 0x1_0000 * w[12] + 0x100 * w[13] + w[14] == d.repeater_id,
        w[15] >= 0x80 <==> d.slot is Two,
        w[15] / 0x40 % 2 == 1 <==> d.call_type is Unit,
        w[15] / 0x10 % 4 == 0 <==> d.frame_type is Voice,
        w[15] / 0x10 % 4 == 1 <==> d.frame_type is VoiceSync,
        w[15] / 0x10 % 4 == 2 <==> d.frame_type is DataSync,
        w[15] % 0x10 == d.dtype_vseq % 0x10,
        0x100_0000 * w[16] + 0x1_0000 * w[17] + 0x100 * w[18] + w[19] == d.stream_id,
        forall|i: int| 20 <= i < 53 ==> #[trigger] w[i] == d.dmr_data@[i - 20],
{
    assert(w.subrange(0, 4)[0] == w[0] && w.subrange(0, 4)[1] == w[1]);
    assert(w.subrange(0, 4)[2] == w[2] && w.subrange(0, 4)[3] == w[3]);
    assert forall|i: int| 20 <= i < 53 implies #[trigger] w[i] == d.dmr_data@[i - 20] by {
        assert(w.subrange(20, 53)[i - 20] == w[i]);
    }
}

/// Law: what is read from bytes: anything that starts with "DMRD", holds at least
/// 53 bytes and does not have both frame type bits set is a packet, whose fields
/// are where `law_packet_bytes` has them; what is too short, or opens with another
/// tag, or has both bits set, is told apart in this order.
pub proof fn law_packet_read(buf: Seq<u8>, r: Result<Dmrd, DmrdError>)
    requires
        parses_to(buf, r),
    ensures
        buf.len() < 53 <==> r is Err && r->Err_0 is TooShort,
        r matches Err(DmrdError::TooShort(n)) ==> n == buf.len(),
        buf.len() >= 53 && !(buf[0] == 0x44 && buf[1] == 0x4D && buf[2] == 0x52 && buf[3] == 0x44)
            <==> r is Err && r->Err_0 is BadMagic,
        r matches Err(DmrdError::BadMagic(m)) ==> forall|i: int| 0 <= i < 4 ==> #[trigger] m@[i] == buf[i],
        r is Err && r->Err_0 is ReservedFrameType ==> buf[15] / 0x10 % 4 == 3,
        r matches Ok(d) ==> {
            &&& d.seq == buf[4]
            &&& d.src_id == 0x1_0000 * buf[5] + 0x100 * buf[6] + buf[7]
            &&& d.dst_id == 0x1_0000 * buf[8] + 0x100 * buf[9] + buf[10]
            &&& d.repeater_id == 0x100_0000 * buf[11] + 0x1_0000 * buf[12] + 0x100 * buf[13] + buf[14]
            &&& d.slot is Two <==> buf[15] >= 0x80
            &&& d.call_type is Unit <==> buf[15] / 0x40 % 2 == 1
            &&& d.frame_type is Voice <==> buf[15] / 0x10 % 4 == 0
            &&& d.frame_type is VoiceSync <==> buf[15] / 0x10 % 4 == 1
            &&& d.frame_type is DataSync <==> buf[15] / 0x10 % 4 == 2
            &&& d.dtype_vseq == buf[15] % 0x10
            &&& d.stream_id == 0x100_0000 * buf[16] + 0x1_0000 * buf[17] + 0x100 * buf[18] + buf[19]
            &&& forall|i: int| 0 <= i < 33 ==> #[trigger] d.dmr_data@[i] == buf[20 + i]
        },
{
    if buf.len() >= 53 {
        let o = buf.subrange(0, 4);
        assert(o[0] == buf[0] && o[1] == buf[1] && o[2] == buf[2] && o[3] == buf[3]);
        let tagged = buf[0] == 0x44 && buf[1] == 0x4D && buf[2] == 0x52 && buf[3] == 0x44;
        assert(tagged == (o =~= MAGIC@));
    }
    if let Ok(d) = r {
        let w = buf.subrange(0, 53);
        assert forall|i: int| 0 <= i < 53 implies #[trigger] w[i] == buf[i] by {}
        law_packet_bytes(d, w);
        assert forall|i: int| 0 <= i < 33 implies #[trigger] d.dmr_data@[i] == buf[20 + i] by {
            assert(w[20 + i] == d.dmr_data@[20 + i - 20]);
        }
    }
}

} // verus!
