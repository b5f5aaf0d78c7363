//! USRP packets: 8 kHz audio between AllStarLink's `chan_usrp` and its peers.
//!
//! ```text
//!   0..4    "USRP"
//!   4..8    seq (32-bit BE)
//!   8..12   memory (zero)
//!   12..16  keyup (32-bit BE, 0 or not)
//!   16..20  talkgroup (32-bit BE)
//!   20..24  frame type (32-bit BE: 0 voice, 1 DTMF, 2 text)
//!   24..32  zero
//!   32..    voice: nothing, or 160 samples in the sender's byte order;
//!           text and DTMF: any bytes, usually with a trailing NUL
//! ```

use vstd::endian::*;
use vstd::prelude::*;
use vstd::string::*;

use crate::bytes::{
    be32, native_low_first, sample_bytes, sample_from, sample_of, u32_from_be, u32_to_be,
};

verus! {

/// Tag that opens every packet.
pub const MAGIC: [u8; 4] = [0x55, 0x53, 0x52, 0x50];

/// Bytes of the header.
pub const HEADER_SIZE: usize = 32;

/// Samples of a voice frame: 20 ms at 8 kHz.
pub const VOICE_SAMPLES: usize = 160;

/// Bytes of the samples of a voice frame.
pub const VOICE_FRAME_SIZE: usize = 320;

/// Bytes of a voice packet.
pub const PACKET_SIZE: usize = 352;

/// Room to leave in a receive buffer, so that longer packets show.
pub const RECV_SLACK: usize = 64;

/// Nanoseconds between voice frames.
pub const VOICE_FRAME_INTERVAL: u64 = 20_000_000;

/// Why bytes are not a packet.
#[derive(Debug, Clone, Copy, PartialEq, Eq)]
#[non_exhaustive]
pub enum UsrpError {
    /// Fewer bytes than a header has; carries how many there are.
    TooShort(usize),
    /// The first four bytes are not the tag.
    BadMagic([u8; 4]),
    UnknownFrameType(u32),
    /// A voice packet that is neither header-only nor whole, so that it cannot
    /// be told whether it keys or not.  Carries its length and the two lengths
    /// that would do.
    AmbiguousLength(usize, usize, usize),
}

/// Kind of a packet.
#[derive(Debug, Clone, Copy, PartialEq, Eq, Structural)]
pub enum FrameType {
    Voice,
    Dtmf,
    Text,
}

/// A packet.
#[derive(Debug, Clone)]
pub struct Frame {
    pub seq: u32,
    pub keyup: bool,
    pub talkgroup: u32,
    pub frame_type: FrameType,
    /// Samples of a voice packet; `None` for a header-only one.
    pub audio: Option<[i16; VOICE_SAMPLES]>,
    /// Payload of a text or DTMF packet without its trailing NUL.
    pub text: Option<Vec<u8>>,
}

// ---------------------------------------------------------------------------
// Samples
// ---------------------------------------------------------------------------

/// Samples are sent low byte first: the order of this machine, or the other
/// one where the peer wants the bytes swapped.
pub open spec fn low_byte_first(byte_swap: bool) -> bool {
    (endianness() is Little) != byte_swap
}

/// Sample `i` of the audio that starts at byte 32.
pub open spec fn sample_at(w: Seq<u8>, i: int, low_first: bool) -> int {
    if low_first {
        sample_of(w[32 + 2 * i], w[33 + 2 * i])
    } else {
        sample_of(w[33 + 2 * i], w[32 + 2 * i])
    }
}

// ---------------------------------------------------------------------------
// Model
// ---------------------------------------------------------------------------

/// The number of a frame type.
pub open spec fn type_number(t: FrameType) -> int {
    match t {
        FrameType::Voice => 0,
        FrameType::Dtmf => 1,
        FrameType::Text => 2,
    }
}

/// The number in the four bytes at `at`.
pub open spec fn field(w: Seq<u8>, at: int) -> int {
    be32(w[at], w[at + 1], w[at + 2], w[at + 3])
}

/// Bytes without their trailing NUL, if they have one.
pub open spec fn without_nul(s: Seq<u8>) -> Seq<u8> {
    if s.len() > 0 && s.last() == 0 {
        s.drop_last()
    } else {
        s
    }
}

/// `f` is what the packet `w` says.
pub open spec fn reads_as(w: Seq<u8>, low_first: bool, f: Frame) -> bool {
    &&& f.seq == field(w, 4)
    &&& f.keyup == (field(w, 12) != 0)
    &&& f.talkgroup == field(w, 16)
    &&& type_number(f.frame_type) == field(w, 20)
    &&& if f.frame_type is Voice {
        &&& f.text is None
        &&& f.audio is Some <==> w.len() == PACKET_SIZE
        &&& f.audio matches Some(a) ==> forall|i: int|
            0 <= i < 160 ==> #[trigger] a@[i] == sample_at(w, i, low_first)
    } else {
        &&& f.audio is None
        &&& f.text matches Some(t) && t@ == without_nul(w.subrange(32, w.len() as int))
    }
}

/// `r` is what reading a packet from `w` gives.
pub open spec fn parses_to(w: Seq<u8>, low_first: bool, r: Result<Frame, UsrpError>) -> bool {
    let tagged = w.len() >= HEADER_SIZE && w.subrange(0, 4) == MAGIC@;
    let ambiguous = field(w, 20) == 0 && w.len() != HEADER_SIZE && w.len() != PACKET_SIZE;
    match r {
        Err(UsrpError::TooShort(n)) => w.len() < HEADER_SIZE && n == w.len(),
        Err(UsrpError::BadMagic(m)) => w.len() >= HEADER_SIZE && !tagged && m@ == w.subrange(0, 4),
        Err(UsrpError::UnknownFrameType(t)) => tagged && field(w, 20) > 2 && t == field(w, 20),
        Err(UsrpError::AmbiguousLength(n, a, b)) => tagged && ambiguous && n == w.len() && a
            == HEADER_SIZE && b == PACKET_SIZE,
        Ok(f) => tagged && field(w, 20) <= 2 && !ambiguous && reads_as(w, low_first, f),
    }
}

/// `w` opens with a header of these fields.
pub open spec fn is_header(w: Seq<u8>, seq: u32, keyup: bool, talkgroup: u32, t: FrameType) -> bool {
    &&& w.len() >= HEADER_SIZE
    &&& w.subrange(0, 4) == MAGIC@
    &&& field(w, 4) == seq
    &&& field(w, 8) == 0
    &&& field(w, 12) == if keyup {
        1int
    } else {
        0
    }
    &&& field(w, 16) == talkgroup
    &&& field(w, 20) == type_number(t)
    &&& field(w, 24) == 0
    &&& field(w, 28) == 0
}

/// `w` is the packet of `f`, without its text.
pub open spec fn is_packet_of(f: Frame, low_first: bool, w: Seq<u8>) -> bool {
    &&& is_header(w, f.seq, f.keyup, f.talkgroup, f.frame_type)
    &&& match f.audio {
        Some(a) => w.len() == PACKET_SIZE && forall|i: int|
            0 <= i < 160 ==> sample_at(w, i, low_first) == #[trigger] a@[i],
        None => w.len() == HEADER_SIZE,
    }
}

// ---------------------------------------------------------------------------
// Reading and writing
// ---------------------------------------------------------------------------

/// The number in the four bytes at `at`.
fn get_field(w: &[u8], at: usize) -> (r: u32)
    requires
        at + 4 <= w@.len(),
    ensures
        r == field(w@, at as int),
{
    u32_from_be(w[at], w[at + 1], w[at + 2], w[at + 3])
}

/// The header of a packet.
fn header(seq: u32, keyup: bool, talkgroup: u32, frame_type: FrameType) -> (w: Vec<u8>)
    ensures
        w@.len() == HEADER_SIZE,
        is_header(w@, seq, keyup, talkgroup, frame_type),
{
    let s = u32_to_be(seq);
    let g = u32_to_be(talkgroup);
    let k: u8 = if keyup {
        1
    } else {
        0
    };
    let t: u8 = match frame_type {
        FrameType::Voice => 0,
        FrameType::Dtmf => 1,
        FrameType::Text => 2,
    };
    let w: Vec<u8> = vec![
        0x55, 0x53, 0x52, 0x50, s[0], s[1], s[2], s[3], 0, 0, 0, 0, 0, 0, 0, k, g[0], g[1], g[2], g[3],
        0, 0, 0, t, 0, 0, 0, 0, 0, 0, 0, 0,
    ];
    assert(w@.subrange(0, 4) =~= MAGIC@);
    w
}

/// The samples of a voice packet.
fn get_samples(w: &[u8], low_first: bool) -> (a: [i16; VOICE_SAMPLES])
    requires
        w@.len() >= PACKET_SIZE,
    ensures
        forall|i: int| 0 <= i < 160 ==> #[trigger] a@[i] == sample_at(w@, i, low_first),
{
    let mut a: [i16; VOICE_SAMPLES] = [0i16; VOICE_SAMPLES];
    let mut i: usize = 0;
    while i < VOICE_SAMPLES
        invariant
            i <= 160,
            w@.len() >= PACKET_SIZE,
            forall|k: int| 0 <= k < i ==> #[trigger] a@[k] == sample_at(w@, k, low_first),
        decreases 160 - i,
    {
        let b0: u8 = w[HEADER_SIZE + 2 * i];
        let b1: u8 = w[HEADER_SIZE + 2 * i + 1];
        a[i] = if low_first {
            sample_from(b0, b1)
        } else {
            sample_from(b1, b0)
        };
        i += 1;
    }
    a
}

impl Frame {
    /// Reads a packet whose samples have the given byte order.
    pub fn parse_ordered(buf: &[u8], low_first: bool) -> (r: Result<Self, UsrpError>)
        ensures
            parses_to(buf@, low_first, r),
    {
        if buf.len() < HEADER_SIZE {
            return Err(UsrpError::TooShort(buf.len()));
        }
        let opening: [u8; 4] = [buf[0], buf[1], buf[2], buf[3]];
        assert(opening@ =~= buf@.subrange(0, 4));
        if opening[0] != MAGIC[0] || opening[1] != MAGIC[1] || opening[2] != MAGIC[2] || opening[3]
            != MAGIC[3] {
            return Err(UsrpError::BadMagic(opening));
        }
        assert(opening@ =~= MAGIC@);
        let frame_type = match get_field(buf, 20) {
            0 => FrameType::Voice,
            1 => FrameType::Dtmf,
            2 => FrameType::Text,
            other => return Err(UsrpError::UnknownFrameType(other)),
        };
        let seq: u32 = get_field(buf, 4);
        let keyup = get_field(buf, 12) != 0;
        let talkgroup: u32 = get_field(buf, 16);
        match frame_type {
            FrameType::Voice => {
                if buf.len() != HEADER_SIZE && buf.len() != PACKET_SIZE {
                    return Err(UsrpError::AmbiguousLength(buf.len(), HEADER_SIZE, PACKET_SIZE));
                }
                let audio = if buf.len() == PACKET_SIZE {
                    Some(get_samples(buf, low_first))
                } else {
                    None
                };
                Ok(Frame { seq, keyup, talkgroup, frame_type, audio, text: None })
            },
            _ => {
                let payload = payload_of(buf);
                Ok(Frame { seq, keyup, talkgroup, frame_type, audio: None, text: Some(payload) })
            },
        }
    }

    /// Reads a packet.  `byte_swap` is for peers with the other byte order.
    #[must_use]
    pub fn parse(buf: &[u8], byte_swap: bool) -> (r: Result<Self, UsrpError>)
        ensures
            parses_to(buf@, low_byte_first(byte_swap), r),
    {
        Frame::parse_ordered(buf, native_low_first() != byte_swap)
    }

    /// The text packet of `payload`, with a trailing NUL.
    #[must_use]
    pub fn serialize_text(seq: u32, payload: &str) -> (w: Vec<u8>)
        ensures
            is_header(w@, seq, false, 0, FrameType::Text),
            w@.subrange(32, w@.len() as int) == payload.spec_bytes().push(0u8),
    {
        let mut w = header(seq, false, 0, FrameType::Text);
        let ghost h = w@;
        let text = payload.as_bytes();
        let mut i: usize = 0;
        while i < text.len()
            invariant
                i <= text@.len(),
                text@ == payload.spec_bytes(),
                h.len() == 32,
                w@ == h + text@.subrange(0, i as int),
            decreases text@.len() - i,
        {
            w.push(text[i]);
            i += 1;
            assert(w@ =~= h + text@.subrange(0, i as int));
        }
        w.push(0);
        proof {
            assert(w@ =~= h + payload.spec_bytes().push(0u8));
            assert(w@.subrange(32, w@.len() as int) =~= payload.spec_bytes().push(0u8));
            assert(w@.subrange(0, 32) =~= h);
            lemma_header_prefix(h, w@, seq, false, 0, FrameType::Text);
        }
        w
    }

    /// The packet of this frame, with samples in the given byte order.  Text is
    /// not written: see `serialize_text`.
    pub fn serialize_ordered(&self, low_first: bool) -> (w: Vec<u8>)
        ensures
            is_packet_of(*self, low_first, w@),
    {
        let mut w = header(self.seq, self.keyup, self.talkgroup, self.frame_type);
        let ghost h = w@;
        match self.audio {
            Some(a) => {
                let mut i: usize = 0;
                while i < VOICE_SAMPLES
                    invariant
                        i <= 160,
                        h.len() == 32,
                        w@.len() == 32 + 2 * i,
                        w@.subrange(0, 32) == h,
                        forall|k: int|
                            0 <= k < i ==> sample_at(w@, k, low_first) == #[trigger] a@[k],
                    decreases 160 - i,
                {
                    let ghost before = w@;
                    let (lo, hi) = sample_bytes(a[i]);
                    if low_first {
                        w.push(lo);
                        w.push(hi);
                    } else {
                        w.push(hi);
                        w.push(lo);
                    }
                    assert(w@.subrange(0, 32) =~= before.subrange(0, 32));
                    assert forall|k: int| 0 <= k < i + 1 implies sample_at(w@, k, low_first)
                        == #[trigger] a@[k] by {
                        if k < i {
                            assert(sample_at(before, k, low_first) == a@[k]);
                        }
                    }
                    i += 1;
                }
                proof {
                    assert(w@ =~= h + w@.subrange(32, w@.len() as int));
                    lemma_header_prefix(
                        h,
                        w@,
                        self.seq,
                        self.keyup,
                        self.talkgroup,
                        self.frame_type,
                    );
                }
            },
            None => {},
        }
        w
    }

    /// The packet of this frame.  `byte_swap` is for peers with the other byte
    /// order.
    #[must_use]
    pub fn serialize(&self, byte_swap: bool) -> (w: Vec<u8>)
        ensures
            is_packet_of(*self, low_byte_first(byte_swap), w@),
    {
        self.serialize_ordered(native_low_first() != byte_swap)
    }
}

proof fn lemma_header_prefix(
    h: Seq<u8>,
    w: Seq<u8>,
    seq: u32,
    keyup: bool,
    talkgroup: u32,
    t: FrameType,
)
    requires
        h.len() == 32,
        is_header(h, seq, keyup, talkgroup, t),
        w.len() >= 32,
        w.subrange(0, 32) == h,
    ensures
        is_header(w, seq, keyup, talkgroup, t),
{
    assert forall|k: int| 0 <= k < 32 implies w[k] == h[k] by {
        assert(w.subrange(0, 32)[k] == w[k]);
    }
    assert(w.subrange(0, 4) =~= h.subrange(0, 4));
}

/// The payload of a text or DTMF packet.
fn payload_of(buf: &[u8]) -> (t: Vec<u8>)
    requires
        buf@.len() >= HEADER_SIZE,
    ensures
        t@ == without_nul(buf@.subrange(32, buf@.len() as int)),
{
    let mut t: Vec<u8> = Vec::new();
    let mut i: usize = HEADER_SIZE;
    while i < buf.len()
        invariant
            32 <= i <= buf@.len(),
            t@ == buf@.subrange(32, i as int),
        decreases buf@.len() - i,
    {
        t.push(buf[i]);
        i += 1;
        assert(t@ =~= buf@.subrange(32, i as int));
    }
    if t.len() > 0 && t[t.len() - 1] == 0 {
        t.pop();
        assert(t@ =~= buf@.subrange(32, buf@.len() as int).drop_last());
    }
    t
}

// ---------------------------------------------------------------------------
// Laws
// ---------------------------------------------------------------------------

/// Law: a written voice packet reads back as the frame that was written, if
/// both sides agree on the byte order.
pub proof fn law_voice_round_trip(
    f: Frame,
    low_first: bool,
    w: Seq<u8>,
    r: Result<Frame, UsrpError>,
)
    requires
        f.frame_type is Voice,
        is_packet_of(f, low_first, w),
        parses_to(w, low_first, r),
    ensures
        r matches Ok(g) && {
            &&& g.seq == f.seq
            &&& g.keyup == f.keyup
            &&& g.talkgroup == f.talkgroup
            &&& g.frame_type == f.frame_type
            &&& g.audio == f.audio
            &&& g.text is None
        },
{
    if let (Ok(g), Some(a)) = (r, f.audio) {
        let b = g.audio->0;
        assert forall|i: int| 0 <= i < 160 implies b@[i] == a@[i] by {}
        assert(b =~= a);
    }
}

/// Law: a written text packet reads back as its text.
pub proof fn law_text_round_trip(
    seq: u32,
    text: Seq<u8>,
    low_first: bool,
    w: Seq<u8>,
    r: Result<Frame, UsrpError>,
)
    requires
        is_header(w, seq, false, 0, FrameType::Text),
        w.subrange(32, w.len() as int) == text.push(0u8),
        parses_to(w, low_first, r),
    ensures
        r matches Ok(g) && {
            &&& g.seq == seq
            &&& !g.keyup
            &&& g.talkgroup == 0
            &&& g.frame_type is Text
            &&& g.audio is None
            &&& g.text matches Some(t) && t@ == text
        },
{
    assert(text.push(0u8).drop_last() =~= text);
}

/// Law: the packet of the other byte order has the bytes of each sample
/// swapped.
pub proof fn law_byte_swap(f: Frame, v: Seq<u8>, w: Seq<u8>, i: int)
    requires
        f.audio is Some,
        is_packet_of(f, true, v),
        is_packet_of(f, false, w),
        0 <= i < 160,
    ensures
        v[32 + 2 * i] == w[33 + 2 * i],
        v[33 + 2 * i] == w[32 + 2 * i],
{
    let a = f.audio->0;
    assert(sample_at(v, i, true) == a@[i]);
    assert(sample_at(w, i, false) == a@[i]);
}

/// Law: the bytes of a voice packet: the tag "USRP", the number, a zero, one while
/// keyed, the talkgroup, the kind of packet and two zeros, each in four bytes with
/// the most significant first, and then the samples, if any, in two bytes each.
pub proof fn law_packet_layout(f: Frame, low_first: bool, w: Seq<u8>)
    requires
        is_packet_of(f, low_first, w),
    ensures
        w.len() == (if f.audio is Some {
            352int
        } else {
            32
        }),
        w[0] == 0x55 && w[1] == 0x53 && w[2] == 0x52 && w[3] == 0x50,
        0x100_0000 * w[4] + 0x1_0000 * w[5] + 0x100 * w[6] + w[7] == f.seq,
        w[8] == 0 && w[9] == 0 && w[10] == 0 && w[11] == 0,
        w[12] == 0 && w[13] == 0 && w[14] == 0,
        w[15] == (if f.keyup {
            1int
        } else {
            0
        }),
        0x100_0000 * w[16] + 0x1_0000 * w[17] + 0x100 * w[18] + w[19] == f.talkgroup,
        w[20] == 0 && w[21] == 0 && w[22] == 0,
        w[23] == (match f.frame_type {
            FrameType::Voice => 0int,
            FrameType::Dtmf => 1,
            FrameType::Text => 2,
        }),
        forall|i: int| 24 <= i < 32 ==> #[trigger] w[i] == 0,
        f.audio matches Some(a) ==> forall|i: int|
            0 <= i < 160 ==> {
                let (lo, hi) = if low_first {
                    (w[32 + 2 * i], w[33 + 2 * i])
                } else {
                    (w[33 + 2 * i], w[32 + 2 * i])
                };
                #[trigger] a@[i] == lo + 256 * hi - (if hi >= 128 {
                    65536int
                } else {
                    0
                })
            },
{
    let o = w.subrange(0, 4);
    assert(o[0] == w[0] && o[1] == w[1] && o[2] == w[2] && o[3] == w[3]);
    assert(field(w, 8) == 0 && field(w, 12) <= 1 && field(w, 20) <= 2 && field(w, 24) == 0 && field(
        w,
        28,
    ) == 0);
    if let Some(a) = f.audio {
        assert forall|i: int| 0 <= i < 160 implies ({
            let (lo, hi) = if low_first {
                (w[32 + 2 * i], w[33 + 2 * i])
            } else {
                (w[33 + 2 * i], w[32 + 2 * i])
            };
            #[trigger] a@[i] == lo + 256 * hi - (if hi >= 128 {
                65536int
            } else {
                0
            })
        }) by {
            assert(sample_at(w, i, low_first) == a@[i]);
        }
    }
}

/// Law: what is read from bytes, told by the bytes alone: 32 or more that start with
/// "USRP", are of kind 0, 1 or 2 and, if of kind 0, are 32 or 352 in all, are a
/// packet; the rest is refused, for the first of these that it lacks.
pub proof fn law_packet_read(w: Seq<u8>, low_first: bool, r: Result<Frame, UsrpError>)
    requires
        parses_to(w, low_first, r),
    ensures
        ({
            let tagged = w.len() >= 32 && w[0] == 0x55 && w[1] == 0x53 && w[2] == 0x52 && w[3] == 0x50;
            let known = w[20] == 0 && w[21] == 0 && w[22] == 0 && w[23] <= 2;
            let kind = w[23];
            &&& r is Err && r->Err_0 is TooShort <==> w.len() < 32
            &&& r is Err && r->Err_0 is BadMagic <==> w.len() >= 32 && !tagged
            &&& r is Err && r->Err_0 is UnknownFrameType <==> tagged && !known
            &&& r is Err && r->Err_0 is AmbiguousLength <==> tagged && known && kind == 0 && w.len() != 32
                && w.len() != 352
            &&& r is Ok <==> tagged && known && (kind != 0 || w.len() == 32 || w.len() == 352)
            &&& r matches Err(UsrpError::TooShort(n)) ==> n == w.len()
            &&& r matches Err(UsrpError::BadMagic(m)) ==> forall|i: int|
                0 <= i < 4 ==> #[trigger] m@[i] == w[i]
            &&& r matches Err(UsrpError::UnknownFrameType(t)) ==> t == 0x100_0000 * w[20] + 0x1_0000
                * w[21] + 0x100 * w[22] + w[23]
            &&& r matches Err(UsrpError::AmbiguousLength(n, a, b)) ==> n == w.len() && a == 32 && b == 352
        }),
        r matches Ok(f) ==> {
            &&& f.seq == 0x100_0000 * w[4] + 0x1_0000 * w[5] + 0x100 * w[6] + w[7]
            &&& f.keyup <==> !(w[12] == 0 && w[13] == 0 && w[14] == 0 && w[15] == 0)
            &&& f.talkgroup == 0x100_0000 * w[16] + 0x1_0000 * w[17] + 0x100 * w[18] + w[19]
            &&& f.frame_type is Voice <==> w[23] == 0
            &&& f.frame_type is Dtmf <==> w[23] == 1
            &&& f.frame_type is Text <==> w[23] == 2
            &&& f.audio is Some <==> w[23] == 0 && w.len() == 352
            &&& f.text is Some <==> w[23] != 0
            &&& f.text matches Some(t) ==> if w.len() > 32 && w.last() == 0 {
                t@ == w.subrange(32, w.len() - 1)
            } else {
                t@ == w.subrange(32, w.len() as int)
            }
            &&& f.audio matches Some(a) ==> forall|i: int|
                0 <= i < 160 ==> {
                    let (lo, hi) = if low_first {
                        (w[32 + 2 * i], w[33 + 2 * i])
                    } else {
                        (w[33 + 2 * i], w[32 + 2 * i])
                    };
                    #[trigger] a@[i] == lo + 256 * hi - (if hi >= 128 {
                        65536int
                    } else {
                        0
                    })
                }
        },
{
    if w.len() >= 32 {
        let o = w.subrange(0, 4);
        assert(o[0] == w[0] && o[1] == w[1] && o[2] == w[2] && o[3] == w[3]);
        let same = w[0] == 0x55 && w[1] == 0x53 && w[2] == 0x52 && w[3] == 0x50;
        assert(same == (o =~= MAGIC@));
        assert(field(w, 20) == 0x100_0000 * w[20] + 0x1_0000 * w[21] + 0x100 * w[22] + w[23]);
        assert(field(w, 20) <= 2 <==> w[20] == 0 && w[21] == 0 && w[22] == 0 && w[23] <= 2);
        assert(field(w, 12) == 0 <==> w[12] == 0 && w[13] == 0 && w[14] == 0 && w[15] == 0);
        if let Err(UsrpError::BadMagic(m)) = r {
            assert forall|i: int| 0 <= i < 4 implies #[trigger] m@[i] == w[i] by {
                assert(o[i] == w[i]);
            }
        }
        if let Ok(f) = r {
            let payload = w.subrange(32, w.len() as int);
            if w.len() > 32 {
                assert(payload.last() == w.last());
                assert(payload.drop_last() =~= w.subrange(32, w.len() - 1));
            }
            if let Some(a) = f.audio {
                assert forall|i: int| 0 <= i < 160 implies ({
                    let (lo, hi) = if low_first {
                        (w[32 + 2 * i], w[33 + 2 * i])
                    } else {
                        (w[33 + 2 * i], w[32 + 2 * i])
                    };
                    #[trigger] a@[i] == lo + 256 * hi - (if hi >= 128 {
                        65536int
                    } else {
                        0
                    })
                }) by {
                    assert(sample_at(w, i, low_first) == a@[i]);
                }
            }
        }
    }
}

/// Law: the samples are in the order of this machine unless the peer wants them
/// swapped.
pub proof fn law_sample_order()
    ensures
        low_byte_first(false) == (endianness() is Little),
        low_byte_first(true) == (endianness() is Big),
{
}

} // verus!
