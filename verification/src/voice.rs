//! Configuration of the voice path and the pieces that its state machine is
//! built from.  Times and durations are nanoseconds.

use vstd::endian::*;
use vstd::prelude::*;

use crate::audio::{AudioFrame, VOICE_SAMPLES};
use crate::bits::bytes_of;
use crate::bptc::{
    as_bits, build_data_burst, build_voice_lc, burst_bits, burst_code, decodable, decoded,
    decode_voice_lc_burst, flips, is_bptc_of, is_voice_lc, law_voice_lc_round_trip, reads_lc,
    slot_type_byte, DecodedVoiceLc,
};
use crate::bytes::{be32, native_low_first, u32_from_be};
use crate::dmrd::{is_packet_of, CallType, Dmrd, FrameType, DMR_DATA_SIZE, PACKET_SIZE};
use crate::fec::{all_bits, golay_word};
use crate::sync::BS_DATA_SYNC;
use crate::types::{ColorCode, DmrId, PcmFrame, Slot, SubscriberId, Talkgroup, PCM_SAMPLES};

verus! {

/// Data type of a voice header.
pub const DATA_TYPE_VOICE_HEADER: u8 = 1;

/// Data type of a voice terminator.
pub const DATA_TYPE_VOICE_TERMINATOR: u8 = 2;

/// Vocoder frames in a burst.
pub const FRAMES_PER_BURST: usize = 3;

/// Event from the network side of the bridge.
#[derive(Debug, Clone, Copy, PartialEq, Eq, Structural)]
pub enum ControlEvent {
    /// The Homebrew session was renewed and queued packets were discarded, so
    /// an outgoing call has to start over with a fresh header.
    NetworkReset,
}

/// Directions that the gateway serves.
#[derive(Debug, Clone, Copy, PartialEq, Eq, Structural)]
pub enum Direction {
    Both,
    DmrToFm,
    FmToDmr,
}

/// Configuration of the voice path.
#[derive(Debug, Clone)]
pub struct VoiceConfig {
    pub gateway: Direction,
    pub slot: Slot,
    pub talkgroup: Talkgroup,
    pub call_type: CallType,
    /// How long the channel stays reserved after a received call.
    pub hang_time: u64,
    /// How long a received call may be silent.
    pub stream_timeout: u64,
    /// How long a transmission may last.
    pub tx_timeout: u64,
    /// Homebrew identity of the bridge.
    pub repeater_id: DmrId,
    /// Subscriber that transmissions come from.
    pub src_id: SubscriberId,
    pub color_code: ColorCode,
    /// Talker alias of transmissions: up to 31 ASCII characters; other text
    /// sends none.
    pub callsign: String,
}

/// Diagnostic capture; no effect on what is sent.
#[derive(Debug, Clone)]
pub struct PttDiagnostics {
    /// Directory for recordings of each call.
    pub pcm_record_dir: Option<String>,
}

/// Audio policy.
#[derive(Debug, Clone, Copy)]
pub struct PttPolicy {
    /// Filter audio to the voice band before encoding.
    pub pre_encode_filter: bool,
}

impl Default for PttDiagnostics {
    fn default() -> (r: Self)
        ensures
            r.pcm_record_dir is None,
    {
        PttDiagnostics { pcm_record_dir: None }
    }
}

impl Default for PttPolicy {
    fn default() -> (r: Self)
        ensures
            !r.pre_encode_filter,
    {
        PttPolicy { pre_encode_filter: false }
    }
}

// ---------------------------------------------------------------------------
// Matching
// ---------------------------------------------------------------------------

/// A packet is part of the configured call: same slot and call type, and
/// addressed to the talkgroup (group calls) or to this subscriber (private
/// calls).
pub open spec fn is_for_us(pkt: Dmrd, config: VoiceConfig) -> bool {
    &&& pkt.slot == config.slot
    &&& pkt.call_type == config.call_type
    &&& pkt.dst_id == match config.call_type {
        CallType::Group => config.talkgroup.id(),
        CallType::Unit => config.src_id.id(),
    }
}

pub fn matches_config(pkt: &Dmrd, config: &VoiceConfig) -> (r: bool)
    ensures
        r == is_for_us(*pkt, *config),
{
    let dst: u32 = match config.call_type {
        CallType::Group => config.talkgroup.as_u32(),
        CallType::Unit => config.src_id.as_u32(),
    };
    pkt.dst_id == dst && pkt.slot == config.slot && pkt.call_type == config.call_type
}

// ---------------------------------------------------------------------------
// Checking received link control
// ---------------------------------------------------------------------------

/// Something worth a line in the log about a received voice LC.
#[derive(Debug, Clone, Copy, PartialEq, Eq)]
pub enum LcFinding {
    /// The product code could not be corrected.
    Uncorrectable,
    /// Bits flipped by the product code.
    BitsCorrected(u8),
    /// One wrong byte was put right.
    ByteCorrected([u8; 3]),
    /// More than one byte is wrong.
    BytesWrong([u8; 3]),
    /// The LC names other addresses than the packet.
    AddressMismatch { lc_src: u32, lc_dst: u32 },
}

/// The findings on a decoded LC.
pub open spec fn lc_findings(lc: DecodedVoiceLc, pkt: Dmrd) -> Seq<LcFinding> {
    (if lc.bptc_corrected_bits > 0 {
        seq![LcFinding::BitsCorrected(lc.bptc_corrected_bits)]
    } else {
        seq![]
    }) + (if lc.rs_syndromes@ == seq![0u8, 0u8, 0u8] {
        seq![]
    } else if lc.rs_corrected {
        seq![LcFinding::ByteCorrected(lc.rs_syndromes)]
    } else {
        seq![LcFinding::BytesWrong(lc.rs_syndromes)]
    }) + (if lc.src_id != pkt.src_id || lc.dst_id != pkt.dst_id {
        seq![LcFinding::AddressMismatch { lc_src: lc.src_id, lc_dst: lc.dst_id }]
    } else {
        seq![]
    })
}

/// The findings on a decoded LC.
pub fn findings_of(lc: &DecodedVoiceLc, pkt: &Dmrd) -> (r: Vec<LcFinding>)
    ensures
        r@ == lc_findings(*lc, *pkt),
{
    let mut out: Vec<LcFinding> = Vec::new();
    if lc.bptc_corrected_bits > 0 {
        out.push(LcFinding::BitsCorrected(lc.bptc_corrected_bits));
    }
    let s = lc.rs_syndromes;
    let clean = s[0] == 0 && s[1] == 0 && s[2] == 0;
    assert(clean == (s@ =~= seq![0u8, 0u8, 0u8]));
    if !clean {
        if lc.rs_corrected {
            out.push(LcFinding::ByteCorrected(s));
        } else {
            out.push(LcFinding::BytesWrong(s));
        }
    }
    if lc.src_id != pkt.src_id || lc.dst_id != pkt.dst_id {
        out.push(LcFinding::AddressMismatch { lc_src: lc.src_id, lc_dst: lc.dst_id });
    }
    assert(out@ =~= lc_findings(*lc, *pkt));
    out
}

/// Checks the LC of a voice header or terminator against its packet.  For the
/// log only: the packet stays what counts.
pub fn check_voice_lc(pkt: &Dmrd) -> (r: Vec<LcFinding>)
    ensures
        !decodable(burst_code(pkt.dmr_data@)) ==> r@ == seq![LcFinding::Uncorrectable],
        decodable(burst_code(pkt.dmr_data@)) ==> exists|lc: DecodedVoiceLc| #[trigger]
            reads_lc(lc, bytes_of(decoded(burst_code(pkt.dmr_data@))), pkt.dtype_vseq)
                && lc.bptc_corrected_bits == flips(burst_code(pkt.dmr_data@)) && r@ == lc_findings(
                lc,
                *pkt,
            ),
{
    match decode_voice_lc_burst(&pkt.dmr_data, pkt.dtype_vseq) {
        Some(lc) => findings_of(&lc, pkt),
        None => {
            let mut out: Vec<LcFinding> = Vec::new();
            out.push(LcFinding::Uncorrectable);
            assert(out@ =~= seq![LcFinding::Uncorrectable]);
            out
        },
    }
}

// ---------------------------------------------------------------------------
// Stream identifiers
// ---------------------------------------------------------------------------

/// Four bytes from the operating system's random source.
///
/// Calls `getrandom::fill` on four zero bytes.  Nothing is claimed of the
/// bytes, nor of when the source fails.
#[verifier::external_body]
fn random_bytes() -> (r: Option<[u8; 4]>) {
    let mut buf = [0u8; 4];
    match getrandom::fill(&mut buf) {
        Ok(()) => Some(buf),
        Err(_) => None,
    }
}

/// The number that four bytes spell in the machine's byte order.
pub open spec fn native_id(bytes: [u8; 4]) -> int {
    if endianness() is Little {
        be32(bytes[3], bytes[2], bytes[1], bytes[0])
    } else {
        be32(bytes[0], bytes[1], bytes[2], bytes[3])
    }
}

/// The stream identifier that four random bytes give, in the machine's byte
/// order.
pub fn stream_id_from(bytes: [u8; 4]) -> (r: u32)
    ensures
        r == native_id(bytes),
{
    if native_low_first() {
        u32_from_be(bytes[3], bytes[2], bytes[1], bytes[0])
    } else {
        u32_from_be(bytes[0], bytes[1], bytes[2], bytes[3])
    }
}

/// The stream identifier that a draw of random bytes gives: none where the
/// draw failed.
pub fn stream_id_of(drawn: Option<[u8; 4]>) -> (r: Option<u32>)
    ensures
        match drawn {
            Some(bytes) => r matches Some(id) && id == native_id(bytes),
            None => r is None,
        },
{
    match drawn {
        Some(bytes) => Some(stream_id_from(bytes)),
        None => None,
    }
}

/// A fresh stream identifier for an outgoing call: that of four bytes from the
/// operating system, or `None` where it has no random source.  Any identifier
/// may come out; `stream_id_of` says which one the bytes give.
pub fn new_stream_id() -> (r: Option<u32>) {
    stream_id_of(random_bytes())
}

// ---------------------------------------------------------------------------
// Audio frames
// ---------------------------------------------------------------------------

/// 20 ms of audio of a DMR stream.
pub fn make_voice_frame(audio: [i16; VOICE_SAMPLES], dmr_stream_id: u32) -> (r: AudioFrame)
    ensures
        r == (AudioFrame {
            keyup: true,
            samples: Some(audio),
            dmr_stream_id: Some(dmr_stream_id),
        }),
{
    AudioFrame { keyup: true, samples: Some(audio), dmr_stream_id: Some(dmr_stream_id) }
}

/// The end of audio.
pub open spec fn unkey_frame(dmr_stream_id: Option<u32>) -> AudioFrame {
    AudioFrame { keyup: false, samples: None, dmr_stream_id }
}

pub fn make_unkey_frame(dmr_stream_id: Option<u32>) -> (r: AudioFrame)
    ensures
        r == unkey_frame(dmr_stream_id),
{
    AudioFrame { keyup: false, samples: None, dmr_stream_id }
}

/// 20 ms of silence.
pub fn silence() -> (r: PcmFrame)
    ensures
        forall|i: int| 0 <= i < 160 ==> r@[i] == 0,
{
    [0i16; PCM_SAMPLES]
}

// ---------------------------------------------------------------------------
// Packets
// ---------------------------------------------------------------------------

/// The packet of an outgoing call.
pub open spec fn outgoing(
    config: VoiceConfig,
    seq: u8,
    stream_id: u32,
    frame_type: FrameType,
    dtype_vseq: u8,
    dmr_data: [u8; DMR_DATA_SIZE],
) -> Dmrd {
    Dmrd {
        seq,
        src_id: config.src_id.id(),
        dst_id: config.talkgroup.id(),
        repeater_id: config.repeater_id.id(),
        slot: config.slot,
        call_type: config.call_type,
        frame_type,
        dtype_vseq,
        stream_id,
        dmr_data,
    }
}

pub fn build_dmrd(
    seq: u8,
    config: &VoiceConfig,
    stream_id: u32,
    frame_type: FrameType,
    dtype_vseq: u8,
    dmr_data: [u8; DMR_DATA_SIZE],
) -> (r: Dmrd)
    ensures
        r == outgoing(*config, seq, stream_id, frame_type, dtype_vseq, dmr_data),
        r.addresses_fit(),
{
    Dmrd {
        seq,
        src_id: config.src_id.as_u32(),
        dst_id: config.talkgroup.as_u32(),
        repeater_id: config.repeater_id.as_u32(),
        slot: config.slot,
        call_type: config.call_type,
        frame_type,
        dtype_vseq,
        stream_id,
        dmr_data,
    }
}

/// `bits` and `code` are the LC and the product code of a header or
/// terminator, and `burst` carries them.
pub open spec fn is_lc_burst_of(
    config: VoiceConfig,
    data_type: u8,
    bits: Seq<u8>,
    code: Seq<u8>,
    burst: Seq<u8>,
) -> bool {
    &&& bits.len() == 96
    &&& all_bits(bits)
    &&& is_voice_lc(
        bytes_of(bits),
        config.call_type is Group,
        config.talkgroup.id(),
        config.src_id.id(),
        data_type,
    )
    &&& is_bptc_of(bits, code)
    &&& burst == bytes_of(
        as_bits(
            burst_bits(
                code,
                golay_word(slot_type_byte(data_type, config.color_code.id())),
                BS_DATA_SYNC@,
            ),
        ),
    )
}

/// `w` is the packet of a header (`data_type` 1) or terminator (2).
#[verifier::opaque]
pub open spec fn is_boundary_packet(
    config: VoiceConfig,
    seq: u8,
    stream_id: u32,
    data_type: u8,
    w: Seq<u8>,
) -> bool {
    exists|bits: Seq<u8>, code: Seq<u8>, burst: [u8; DMR_DATA_SIZE]| #[trigger]
        is_lc_burst_of(config, data_type, bits, code, burst@) && is_packet_of(
            outgoing(config, seq, stream_id, FrameType::DataSync, data_type, burst),
            w,
        )
}

/// The packet of a header or terminator.
pub fn build_boundary_packet(
    config: &VoiceConfig,
    seq: u8,
    stream_id: u32,
    data_type: u8,
) -> (w: [u8; PACKET_SIZE])
    ensures
        is_boundary_packet(*config, seq, stream_id, data_type, w@),
{
    let group = match config.call_type {
        CallType::Group => true,
        CallType::Unit => false,
    };
    let lc = build_voice_lc(group, config.talkgroup.as_u32(), config.src_id.as_u32(), data_type);
    let burst = build_data_burst(&lc, data_type, config.color_code.value(), &BS_DATA_SYNC);
    let ghost code = choose|code: Seq<u8>| #[trigger]
        is_bptc_of(lc@, code) && burst@ == bytes_of(
            as_bits(
                burst_bits(
                    code,
                    golay_word(slot_type_byte(data_type, config.color_code.id())),
                    BS_DATA_SYNC@,
                ),
            ),
        );
    let pkt = build_dmrd(seq, config, stream_id, FrameType::DataSync, data_type, burst);
    let w = pkt.serialize();
    assert(is_lc_burst_of(*config, data_type, lc@, code, burst@));
    proof {
        reveal(is_boundary_packet);
    }
    w
}

/// Law: a receiver that decodes the burst of a header or terminator reads the
/// configured addresses, with a clean checksum and nothing to correct, and its
/// check finds nothing.
pub proof fn law_boundary_readable(
    config: VoiceConfig,
    seq: u8,
    stream_id: u32,
    data_type: u8,
    bits: Seq<u8>,
    code: Seq<u8>,
    burst: [u8; DMR_DATA_SIZE],
    lc: DecodedVoiceLc,
)
    requires
        is_lc_burst_of(config, data_type, bits, code, burst@),
        reads_lc(lc, bytes_of(decoded(burst_code(burst@))), data_type),
        lc.bptc_corrected_bits == flips(burst_code(burst@)),
    ensures
        decodable(burst_code(burst@)),
        lc.src_id == config.src_id.id(),
        lc.dst_id == config.talkgroup.id(),
        lc.rs_corrected,
        lc.rs_syndromes@ == seq![0u8, 0u8, 0u8],
        lc_findings(
            lc,
            outgoing(config, seq, stream_id, FrameType::DataSync, data_type, burst),
        ) == Seq::<LcFinding>::empty(),
{
    law_voice_lc_round_trip(
        bits,
        config.call_type is Group,
        config.talkgroup.id(),
        config.src_id.id(),
        data_type,
        code,
        golay_word(slot_type_byte(data_type, config.color_code.id())),
        BS_DATA_SYNC@,
        burst@,
        lc,
    );
    assert(lc_findings(
        lc,
        outgoing(config, seq, stream_id, FrameType::DataSync, data_type, burst),
    ) =~= Seq::<LcFinding>::empty());
}

/// Law: a packet is taken exactly if it is of the configured slot and kind of call
/// and addressed to the configured talkgroup or, in a private call, to the
/// configured subscriber.
pub proof fn law_packets_taken(pkt: Dmrd, config: VoiceConfig)
    ensures
        config.call_type is Group ==> (is_for_us(pkt, config) <==> pkt.slot == config.slot
            && pkt.call_type is Group && pkt.dst_id == config.talkgroup.id()),
        config.call_type is Unit ==> (is_for_us(pkt, config) <==> pkt.slot == config.slot
            && pkt.call_type is Unit && pkt.dst_id == config.src_id.id()),
{
}

/// Law: an outgoing packet comes from the configured subscriber and repeater, goes
/// to the configured talkgroup on the configured slot, and carries the rest as
/// given.
pub proof fn law_outgoing(
    config: VoiceConfig,
    seq: u8,
    stream_id: u32,
    frame_type: FrameType,
    dtype_vseq: u8,
    dmr_data: [u8; DMR_DATA_SIZE],
)
    ensures
        ({
            let d = outgoing(config, seq, stream_id, frame_type, dtype_vseq, dmr_data);
            &&& d.src_id == config.src_id.id()
            &&& d.dst_id == config.talkgroup.id()
            &&& d.repeater_id == config.repeater_id.id()
            &&& d.slot == config.slot
            &&& d.call_type == config.call_type
            &&& d.seq == seq
            &&& d.stream_id == stream_id
            &&& d.frame_type == frame_type
            &&& d.dtype_vseq == dtype_vseq
            &&& d.dmr_data == dmr_data
        }),
{
}

/// Law: the end of audio is a frame without audio that is not keyed, of the given
/// stream.
pub proof fn law_unkey_frame(dmr_stream_id: Option<u32>)
    ensures
        !unkey_frame(dmr_stream_id).keyup,
        unkey_frame(dmr_stream_id).samples is None,
        unkey_frame(dmr_stream_id).dmr_stream_id == dmr_stream_id,
{
}

/// Law: a check finds what there is to find, and nothing else: bits that were put
/// right, a byte that was put right or bytes that were not, and other addresses
/// than those of the packet.
pub proof fn law_findings(lc: DecodedVoiceLc, pkt: Dmrd)
    ensures
        ({
            let found = lc_findings(lc, pkt);
            let clean = lc.rs_syndromes@[0] == 0 && lc.rs_syndromes@[1] == 0 && lc.rs_syndromes@[2]
                == 0;
            let strange = lc.src_id != pkt.src_id || lc.dst_id != pkt.dst_id;
            &&& found.len() == (if lc.bptc_corrected_bits > 0 {
                1int
            } else {
                0
            }) + (if clean {
                0int
            } else {
                1
            }) + (if strange {
                1int
            } else {
                0
            })
            &&& lc.bptc_corrected_bits > 0 ==> found.contains(
                LcFinding::BitsCorrected(lc.bptc_corrected_bits),
            )
            &&& !clean && lc.rs_corrected ==> found.contains(LcFinding::ByteCorrected(lc.rs_syndromes))
            &&& !clean && !lc.rs_corrected ==> found.contains(LcFinding::BytesWrong(lc.rs_syndromes))
            &&& strange ==> found.contains(
                LcFinding::AddressMismatch { lc_src: lc.src_id, lc_dst: lc.dst_id },
            )
        }),
{
    let found = lc_findings(lc, pkt);
    let s = lc.rs_syndromes@;
    let clean = s[0] == 0 && s[1] == 0 && s[2] == 0;
    assert(clean == (s =~= seq![0u8, 0u8, 0u8]));
    let strange = lc.src_id != pkt.src_id || lc.dst_id != pkt.dst_id;
    let bits: int = if lc.bptc_corrected_bits > 0 {
        1
    } else {
        0
    };
    if bits == 1 {
        assert(found[0] == LcFinding::BitsCorrected(lc.bptc_corrected_bits));
    }
    if !clean {
        if lc.rs_corrected {
            assert(found[bits] == LcFinding::ByteCorrected(lc.rs_syndromes));
        } else {
            assert(found[bits] == LcFinding::BytesWrong(lc.rs_syndromes));
        }
    }
    if strange {
        assert(found.last() == LcFinding::AddressMismatch { lc_src: lc.src_id, lc_dst: lc.dst_id });
    }
}

} // verus!
