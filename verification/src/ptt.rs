//! Push-to-talk: the half-duplex state machine between the two sides.
//!
//! `Idle -> Rx -> RxHang -> Idle` for received calls, `Idle -> Tx -> Idle` for
//! transmissions.  `Rx` and `RxHang` block transmitting, `Tx` blocks
//! receiving.  Each handler takes one event and the time and returns the
//! actions to perform, in order.  The vocoder is outside: before the handlers
//! that may need encoded audio, the `*_burst` functions say which frames to
//! encode, and the result goes in with the event.

use vstd::prelude::*;
use vstd::std_specs::convert::*;

use crate::audio::{AudioFrame, VOICE_SAMPLES};
use crate::bits::{bit_of, byte_at, bytes_of, law_spelled_byte, lemma_byte_has_bits};
use crate::bptc::{build_voice_lc_body, is_lc_body, law_lc_body_bytes};
use crate::dmrd::{
    is_packet_of, law_packet_bytes, law_parse_inverts_serialize, parses_to, CallType, Dmrd,
    DmrdError, FrameType, DMR_DATA_SIZE, PACKET_SIZE,
};
use crate::embedded_lc::{
    build_fragments, decoded_raw, is_raw_of, law_embedded_places, law_embedded_round_trip,
    law_raw_is_bits,
    lcss_for_fragment, DecodeError,
};
use crate::events::{CallDirection, CallMetadata, MetaEvent, StatsEvent, TerminationReason};
use crate::fec::all_bits;
use crate::frame::{
    assemble_burst, burst_dibits, codeword_dibits, dibits_of, extract_ambe, law_burst_layout,
    law_codeword_places, law_codewords_extracted,
};
use crate::sync::{build_emb_section, build_null_emb, is_emb_section, BS_VOICE_SYNC};
use crate::talker_alias::{alias_lcs, encode_talker_alias_lcs};
use crate::types::{law_identities, AmbeFrame, PcmFrame, Slot, SubscriberId, Talkgroup};
use crate::voice::{
    build_boundary_packet, build_dmrd, is_boundary_packet, is_for_us, is_lc_burst_of,
    make_unkey_frame, make_voice_frame, matches_config, outgoing, silence, unkey_frame,
    ControlEvent, Direction, VoiceConfig, DATA_TYPE_VOICE_HEADER, DATA_TYPE_VOICE_TERMINATOR, FRAMES_PER_BURST,
};

verus! {

/// A gap of more packets than this starts the vocoder afresh instead of being
/// filled.
pub const GAP_BOUNDARY_PACKETS: u8 = 3;

/// Vocoder time, in nanoseconds, beyond which a frame is worth a warning.
pub const TRANSCODE_BUDGET: u64 = 20_000_000;

/// How far ahead the deadline of an idle machine is, in nanoseconds.
pub const IDLE_WAIT: u64 = 3_600_000_000_000;

/// A call being received.
#[derive(Debug, Clone, Copy)]
pub struct RxCall {
    pub stream_id: u32,
    pub src_id: u32,
    pub dst_id: u32,
    pub slot: Slot,
    pub started: u64,
    pub last_voice: u64,
    /// Sequence number of the last voice packet, once there was one.
    pub last_seq: Option<u8>,
}

/// A call being transmitted.
#[derive(Debug)]
pub struct TxCall {
    pub stream_id: u32,
    /// Sequence number of the next packet.
    pub dmrd_seq: u8,
    /// Place of the next voice burst in its superframe, 0 to 5.
    pub vseq: u8,
    /// Audio waiting to fill a burst.
    pub pcm_buf: Vec<PcmFrame>,
    pub started: u64,
    /// Embedded LCs, one per superframe in turn: the voice LC, then those of
    /// the talker alias.
    pub lc_rotation: Vec<[[u8; 4]; 4]>,
    /// Superframes completed.
    pub superframe_idx: u32,
}

/// State of the machine.
#[derive(Debug)]
pub enum PttState {
    Idle,
    Rx(RxCall),
    /// Holding the channel after a received call, until the given time.
    RxHang(u64),
    Tx(TxCall),
}

/// Something to do.
#[derive(Debug)]
pub enum Action {
    /// Hand a frame to the FM side.
    Audio(AudioFrame),
    /// Report call metadata.
    Meta(MetaEvent),
    /// Report to the statistics.
    Stats(StatsEvent),
    /// Check the LC of the packet at hand, for the log.
    CheckLc,
    /// Forget the vocoder's history.
    ResetVocoder,
    /// Begin and end diagnostics of a call, by stream.
    RxCallStart(u32),
    RxCallEnd(u32),
    TxCallStart(u32),
    TxCallEnd(u32),
    /// Send a call boundary; these are never dropped.
    Control([u8; PACKET_SIZE]),
    /// Send voice; dropped where the queue is full.
    Voice([u8; PACKET_SIZE]),
}

/// Received voice to decode.
#[derive(Debug, Clone, Copy)]
pub struct RxBurst {
    pub stream_id: u32,
    /// Missing frames to fill in first.
    pub gap_frames: usize,
    pub frames: [AmbeFrame; FRAMES_PER_BURST],
}

/// What a received packet asks for.
#[derive(Debug)]
pub struct DmrdStep {
    pub actions: Vec<Action>,
    pub burst: Option<RxBurst>,
}

/// The machine.
#[derive(Debug)]
pub struct PttMachine {
    pub config: VoiceConfig,
    pub state: PttState,
}

// ---------------------------------------------------------------------------
// Model
// ---------------------------------------------------------------------------

/// Deadlines that count from `t` can be told.
pub open spec fn time_fits(config: VoiceConfig, t: u64) -> bool {
    &&& t + config.hang_time <= u64::MAX
    &&& t + config.stream_timeout <= u64::MAX
    &&& t + config.tx_timeout <= u64::MAX
    &&& t + IDLE_WAIT <= u64::MAX
}

/// `f` is the four fragments of the LC bits `lc`.
pub open spec fn is_fragments_of(lc: Seq<u8>, f: [[u8; 4]; 4]) -> bool {
    exists|raw: Seq<u8>| #[trigger]
        is_raw_of(lc, raw) && forall|n: int, i: int|
            0 <= n < 4 && 0 <= i < 4 ==> #[trigger] f@[n]@[i] == byte_at(raw, 32 * n + 8 * i)
}

/// `lc` is the voice LC of outgoing calls.
pub open spec fn is_voice_lc_bits(config: VoiceConfig, lc: Seq<u8>) -> bool {
    &&& lc.len() == 72
    &&& all_bits(lc)
    &&& is_lc_body(
        bytes_of(lc),
        config.call_type is Group,
        config.talkgroup.id(),
        config.src_id.id(),
    )
}

/// `rotation` is the voice LC followed by the LCs of the talker alias.
pub open spec fn is_rotation(config: VoiceConfig, rotation: Seq<[[u8; 4]; 4]>) -> bool {
    let alias = alias_lcs(config.callsign@);
    &&& rotation.len() == 1 + alias.len()
    &&& exists|lc: Seq<u8>| #[trigger]
        is_voice_lc_bits(config, lc) && is_fragments_of(lc, rotation[0])
    &&& forall|i: int|
        0 <= i < alias.len() ==> is_fragments_of(alias[i], #[trigger] rotation[1 + i])
}

impl PttMachine {
    /// The machine is well formed.
    pub open spec fn wf(self) -> bool {
        match self.state {
            PttState::Idle => true,
            PttState::Rx(rx) => time_fits(self.config, rx.last_voice),
            PttState::RxHang(_) => true,
            PttState::Tx(tx) => {
                &&& time_fits(self.config, tx.started)
                &&& tx.vseq < 6
                &&& tx.pcm_buf@.len() < 3
                &&& is_rotation(self.config, tx.lc_rotation@)
            },
        }
    }
}

/// A packet that the machine acts on: receiving is served, the packet is part
/// of the configured call, and no transmission is running.
pub open spec fn listens(config: VoiceConfig, state: PttState, pkt: Dmrd) -> bool {
    config.gateway != Direction::FmToDmr && is_for_us(pkt, config) && !(state is Tx)
}

pub open spec fn is_header(pkt: Dmrd) -> bool {
    pkt.frame_type is DataSync && pkt.dtype_vseq == DATA_TYPE_VOICE_HEADER
}

pub open spec fn is_terminator(pkt: Dmrd) -> bool {
    pkt.frame_type is DataSync && pkt.dtype_vseq == DATA_TYPE_VOICE_TERMINATOR
}

pub open spec fn is_voice(pkt: Dmrd) -> bool {
    pkt.frame_type is Voice || pkt.frame_type is VoiceSync
}

/// The machine is receiving this stream.
pub open spec fn in_stream(state: PttState, stream_id: u32) -> bool {
    state is Rx && state->Rx_0.stream_id == stream_id
}

/// Packets missing before this one.  A step of 128 or more is taken for a late
/// or repeated packet.
pub open spec fn seq_gap(state: PttState, pkt: Dmrd) -> int {
    if in_stream(state, pkt.stream_id) && state->Rx_0.last_seq is Some {
        let delta = (pkt.seq - state->Rx_0.last_seq->0 - 1) % 256;
        if delta < 128 {
            delta
        } else {
            0
        }
    } else {
        0
    }
}

/// The state of a call that begins with this packet.
pub open spec fn new_rx(pkt: Dmrd, now: u64, last_seq: Option<u8>) -> PttState {
    PttState::Rx(
        RxCall {
            stream_id: pkt.stream_id,
            src_id: pkt.src_id,
            dst_id: pkt.dst_id,
            slot: pkt.slot,
            started: now,
            last_voice: now,
            last_seq,
        },
    )
}

/// The state after a received packet.
pub open spec fn rx_state(config: VoiceConfig, state: PttState, pkt: Dmrd, now: u64) -> PttState {
    if !listens(config, state, pkt) {
        state
    } else if is_header(pkt) && !in_stream(state, pkt.stream_id) {
        new_rx(pkt, now, None)
    } else if is_terminator(pkt) && in_stream(state, pkt.stream_id) {
        PttState::RxHang((now + config.hang_time) as u64)
    } else if is_voice(pkt) {
        if in_stream(state, pkt.stream_id) {
            PttState::Rx(
                RxCall { last_voice: now, last_seq: Some(pkt.seq), ..state->Rx_0 },
            )
        } else {
            new_rx(pkt, now, Some(pkt.seq))
        }
    } else {
        state
    }
}

/// Text, unless it is empty.
pub open spec fn non_empty(s: String) -> Option<String> {
    if s@.len() == 0 {
        None
    } else {
        Some(s)
    }
}

/// The metadata of a call, where both addresses are valid.
pub open spec fn call_metadata(
    config: VoiceConfig,
    pkt: Dmrd,
    who: Option<(String, String)>,
) -> Option<CallMetadata> {
    match (
        <SubscriberId as TryFromSpec<u32>>::try_from_spec(pkt.src_id),
        <Talkgroup as TryFromSpec<u32>>::try_from_spec(pkt.dst_id),
    ) {
        (Ok(dmr_id), Ok(tg)) => Some(
            CallMetadata {
                dmr_id,
                tg,
                slot: pkt.slot,
                cc: config.color_code,
                call: match who {
                    Some(w) => non_empty(w.0),
                    None => None,
                },
                name: match who {
                    Some(w) => non_empty(w.1),
                    None => None,
                },
            },
        ),
        _ => None,
    }
}

/// The report of a call's metadata.
pub open spec fn meta_actions(
    config: VoiceConfig,
    pkt: Dmrd,
    who: Option<(String, String)>,
) -> Seq<Action> {
    match call_metadata(config, pkt, who) {
        Some(meta) => seq![Action::Meta(MetaEvent::Call(meta))],
        None => seq![],
    }
}

/// `n` lost frames.
pub open spec fn drops(dir: CallDirection, n: int) -> Seq<Action> {
    Seq::new(n as nat, |i: int| Action::Stats(StatsEvent::Drop { dir }))
}

/// The report that a received call began.
pub open spec fn rx_call_start(pkt: Dmrd) -> Action {
    Action::Stats(
        StatsEvent::CallStart {
            dir: CallDirection::DmrToFm,
            src_id: pkt.src_id,
            dst_id: pkt.dst_id,
            slot: pkt.slot,
        },
    )
}

/// The report that a call ended.
pub open spec fn call_end(dir: CallDirection, reason: TerminationReason) -> Action {
    Action::Stats(StatsEvent::CallEnd { dir, reason })
}

/// What is done when another stream takes over: the call that was being received
/// is over, and the FM side hears so before anything of the new one.
pub open spec fn takeover_actions(state: PttState, pkt: Dmrd) -> Seq<Action> {
    if state is Rx && !in_stream(state, pkt.stream_id) {
        seq![
            call_end(CallDirection::DmrToFm, TerminationReason::Normal),
            Action::RxCallEnd(state->Rx_0.stream_id),
            Action::Audio(unkey_frame(Some(state->Rx_0.stream_id))),
        ]
    } else {
        seq![]
    }
}

/// What is done on a voice packet before it is decoded.
pub open spec fn voice_actions(
    config: VoiceConfig,
    state: PttState,
    pkt: Dmrd,
    who: Option<(String, String)>,
) -> Seq<Action> {
    takeover_actions(state, pkt) + (if in_stream(state, pkt.stream_id) {
        seq![]
    } else {
        seq![Action::ResetVocoder, Action::RxCallStart(pkt.stream_id), rx_call_start(pkt)]
            + meta_actions(config, pkt, who)
    }) + drops(CallDirection::DmrToFm, seq_gap(state, pkt)) + (if seq_gap(state, pkt)
        > GAP_BOUNDARY_PACKETS {
        seq![Action::ResetVocoder]
    } else {
        seq![]
    })
}

/// What is done on a received packet.
pub open spec fn rx_actions(
    config: VoiceConfig,
    state: PttState,
    pkt: Dmrd,
    who: Option<(String, String)>,
) -> Seq<Action> {
    if !listens(config, state, pkt) {
        seq![]
    } else if is_header(pkt) && !in_stream(state, pkt.stream_id) {
        takeover_actions(state, pkt) + seq![Action::CheckLc] + meta_actions(config, pkt, who)
            + seq![rx_call_start(pkt), Action::ResetVocoder, Action::RxCallStart(pkt.stream_id)]
    } else if is_terminator(pkt) && in_stream(state, pkt.stream_id) {
        seq![
            Action::CheckLc,
            Action::Meta(MetaEvent::Clear),
            call_end(CallDirection::DmrToFm, TerminationReason::Normal),
            Action::RxCallEnd(pkt.stream_id),
            Action::Audio(unkey_frame(Some(pkt.stream_id))),
        ]
    } else if is_voice(pkt) {
        voice_actions(config, state, pkt, who)
    } else {
        seq![]
    }
}

/// `burst` is the voice of a packet, with the gap before it to be filled.
pub open spec fn is_rx_burst(state: PttState, pkt: Dmrd, burst: RxBurst) -> bool {
    &&& burst.stream_id == pkt.stream_id
    &&& burst.gap_frames == if seq_gap(state, pkt) > GAP_BOUNDARY_PACKETS {
        0
    } else {
        3 * seq_gap(state, pkt)
    }
    &&& forall|n: int|
        0 <= n < 3 ==> dibits_of((#[trigger] burst.frames@[n])@) == codeword_dibits(
            dibits_of(pkt.dmr_data@),
            n,
        )
}

// ---------------------------------------------------------------------------
// Receiving
// ---------------------------------------------------------------------------

/// A packet's sequence number less the expected one, modulo 256.
fn seq_delta(seq: u8, last: u8) -> (r: u8)
    ensures
        r == (seq - last - 1) % 256,
{
    let d: i16 = seq as i16 - last as i16 - 1;
    if d < 0 {
        (d + 256) as u8
    } else {
        d as u8
    }
}

/// Text, unless it is empty.
fn keep_non_empty(s: String) -> (r: Option<String>)
    ensures
        r == non_empty(s),
{
    if s.as_str().is_empty() {
        None
    } else {
        Some(s)
    }
}

/// Adds the report of a call's metadata.
fn push_metadata(
    out: &mut Vec<Action>,
    config: &VoiceConfig,
    pkt: &Dmrd,
    who: Option<(String, String)>,
)
    ensures
        final(out)@ == old(out)@ + meta_actions(*config, *pkt, who),
{
    let dmr_id = SubscriberId::try_from(pkt.src_id);
    let tg = Talkgroup::try_from(pkt.dst_id);
    match (dmr_id, tg) {
        (Ok(dmr_id), Ok(tg)) => {
            let (call, name) = match who {
                Some((c, n)) => (keep_non_empty(c), keep_non_empty(n)),
                None => (None, None),
            };
            let meta = CallMetadata { dmr_id, tg, slot: pkt.slot, cc: config.color_code, call, name };
            out.push(Action::Meta(MetaEvent::Call(meta)));
        },
        _ => {},
    }
    assert(out@ =~= old(out)@ + meta_actions(*config, *pkt, who));
}

/// Adds reports of `n` lost frames.
fn push_drops(out: &mut Vec<Action>, dir: CallDirection, n: u8)
    ensures
        final(out)@ == old(out)@ + drops(dir, n as int),
{
    let ghost before = out@;
    let mut i: u8 = 0;
    while i < n
        invariant
            i <= n,
            out@ == before + drops(dir, i as int),
        decreases n - i,
    {
        out.push(Action::Stats(StatsEvent::Drop { dir }));
        i += 1;
        assert(out@ =~= before + drops(dir, i as int));
    }
    assert(before + drops(dir, 0) =~= before);
}

/// When a machine in the given state next wants to hear of the time.
pub open spec fn deadline_of(config: VoiceConfig, state: PttState, now: u64) -> int {
    match state {
        PttState::Idle => now + IDLE_WAIT,
        PttState::Rx(rx) => rx.last_voice + config.stream_timeout,
        PttState::RxHang(t) => t as int,
        PttState::Tx(tx) => tx.started + config.tx_timeout,
    }
}

impl PttMachine {
    /// An idle machine.
    pub fn new(config: VoiceConfig) -> (r: Self)
        ensures
            r.config == config,
            r.state is Idle,
            r.wf(),
    {
        PttMachine { config, state: PttState::Idle }
    }

    /// When the machine next wants to hear of the time.
    pub fn deadline(&self, now: u64) -> (r: u64)
        requires
            self.wf(),
            now + IDLE_WAIT <= u64::MAX,
        ensures
            r == match self.state {
                PttState::Idle => now + IDLE_WAIT,
                PttState::Rx(rx) => rx.last_voice + self.config.stream_timeout,
                PttState::RxHang(t) => t as int,
                PttState::Tx(tx) => tx.started + self.config.tx_timeout,
            },
            r == deadline_of(self.config, self.state, now),
    {
        match &self.state {
            PttState::Idle => now + IDLE_WAIT,
            PttState::Rx(rx) => rx.last_voice + self.config.stream_timeout,
            PttState::RxHang(t) => *t,
            PttState::Tx(tx) => tx.started + self.config.tx_timeout,
        }
    }

    /// Whether a packet belongs to the stream being received.
    fn receiving(&self, stream_id: u32) -> (r: bool)
        ensures
            r == in_stream(self.state, stream_id),
    {
        match &self.state {
            PttState::Rx(rx) => rx.stream_id == stream_id,
            _ => false,
        }
    }

    /// Packets missing before this one.
    fn gap_before(&self, pkt: &Dmrd) -> (r: u8)
        ensures
            r == seq_gap(self.state, *pkt),
            r < 128,
    {
        match &self.state {
            PttState::Rx(rx) => {
                if rx.stream_id != pkt.stream_id {
                    return 0;
                }
                match rx.last_seq {
                    Some(last) => {
                        let delta: u8 = seq_delta(pkt.seq, last);
                        if delta < 128 {
                            delta
                        } else {
                            0
                        }
                    },
                    None => 0,
                }
            },
            _ => 0,
        }
    }

    /// A packet arrived.  `who` is the callsign and first name of its source,
    /// where the subscriber is known.
    pub fn on_dmrd(&mut self, pkt: &Dmrd, now: u64, who: Option<(String, String)>) -> (r: DmrdStep)
        requires
            old(self).wf(),
            time_fits(old(self).config, now),
        ensures
            final(self).wf(),
            final(self).config == old(self).config,
            final(self).state == rx_state(old(self).config, old(self).state, *pkt, now),
            r.actions@ == rx_actions(old(self).config, old(self).state, *pkt, who),
            r.burst is Some <==> listens(old(self).config, old(self).state, *pkt) && is_voice(*pkt),
            r.burst matches Some(burst) ==> is_rx_burst(old(self).state, *pkt, burst),
    {
        let mut actions: Vec<Action> = Vec::new();
        let serving = self.config.gateway != Direction::FmToDmr;
        let transmitting = match &self.state {
            PttState::Tx(_) => true,
            _ => false,
        };
        if !serving || transmitting || !matches_config(pkt, &self.config) {
            assert(actions@ =~= rx_actions(old(self).config, old(self).state, *pkt, who));
            return DmrdStep { actions, burst: None };
        }
        match pkt.frame_type {
            FrameType::DataSync => {
                let same = self.receiving(pkt.stream_id);
                if pkt.dtype_vseq == DATA_TYPE_VOICE_HEADER && !same {
                    self.end_prior(&mut actions, pkt);
                    actions.push(Action::CheckLc);
                    push_metadata(&mut actions, &self.config, pkt, who);
                    self.start_rx(&mut actions, pkt, now);
                } else if pkt.dtype_vseq == DATA_TYPE_VOICE_TERMINATOR && same {
                    actions.push(Action::CheckLc);
                    actions.push(Action::Meta(MetaEvent::Clear));
                    actions.push(
                        Action::Stats(
                            StatsEvent::CallEnd {
                                dir: CallDirection::DmrToFm,
                                reason: TerminationReason::Normal,
                            },
                        ),
                    );
                    actions.push(Action::RxCallEnd(pkt.stream_id));
                    actions.push(Action::Audio(make_unkey_frame(Some(pkt.stream_id))));
                    self.state = PttState::RxHang(now + self.config.hang_time);
                }
                assert(actions@ =~= rx_actions(old(self).config, old(self).state, *pkt, who));
                DmrdStep { actions, burst: None }
            },
            _ => {
                let burst = self.on_voice(&mut actions, pkt, now, who);
                assert(actions@ =~= rx_actions(old(self).config, old(self).state, *pkt, who));
                DmrdStep { actions, burst: Some(burst) }
            },
        }
    }

    /// Ends the call that this packet's stream takes over from, if any.
    fn end_prior(&self, out: &mut Vec<Action>, pkt: &Dmrd)
        ensures
            final(out)@ == old(out)@ + takeover_actions(self.state, *pkt),
    {
        match &self.state {
            PttState::Rx(rx) => {
                if rx.stream_id != pkt.stream_id {
                    out.push(
                        Action::Stats(
                            StatsEvent::CallEnd {
                                dir: CallDirection::DmrToFm,
                                reason: TerminationReason::Normal,
                            },
                        ),
                    );
                    out.push(Action::RxCallEnd(rx.stream_id));
                    out.push(Action::Audio(make_unkey_frame(Some(rx.stream_id))));
                }
            },
            _ => {},
        }
        assert(out@ =~= old(out)@ + takeover_actions(self.state, *pkt));
    }

    /// Begins a call with a header.
    fn start_rx(&mut self, out: &mut Vec<Action>, pkt: &Dmrd, now: u64)
        ensures
            final(self).config == old(self).config,
            final(self).state == new_rx(*pkt, now, None),
            final(out)@ == old(out)@ + seq![
                rx_call_start(*pkt),
                Action::ResetVocoder,
                Action::RxCallStart(pkt.stream_id),
            ],
    {
        out.push(
            Action::Stats(
                StatsEvent::CallStart {
                    dir: CallDirection::DmrToFm,
                    src_id: pkt.src_id,
                    dst_id: pkt.dst_id,
                    slot: pkt.slot,
                },
            ),
        );
        out.push(Action::ResetVocoder);
        out.push(Action::RxCallStart(pkt.stream_id));
        self.state = PttState::Rx(
            RxCall {
                stream_id: pkt.stream_id,
                src_id: pkt.src_id,
                dst_id: pkt.dst_id,
                slot: pkt.slot,
                started: now,
                last_voice: now,
                last_seq: None,
            },
        );
        assert(out@ =~= old(out)@ + seq![
            rx_call_start(*pkt),
            Action::ResetVocoder,
            Action::RxCallStart(pkt.stream_id),
        ]);
    }

    /// A voice packet of the configured call arrived.
    fn on_voice(
        &mut self,
        out: &mut Vec<Action>,
        pkt: &Dmrd,
        now: u64,
        who: Option<(String, String)>,
    ) -> (burst: RxBurst)
        requires
            listens(old(self).config, old(self).state, *pkt),
            is_voice(*pkt),
            old(out)@.len() == 0,
        ensures
            final(self).config == old(self).config,
            final(self).state == rx_state(old(self).config, old(self).state, *pkt, now),
            final(out)@ == voice_actions(old(self).config, old(self).state, *pkt, who),
            is_rx_burst(old(self).state, *pkt, burst),
    {
        let gap: u8 = self.gap_before(pkt);
        let same = self.receiving(pkt.stream_id);
        let prior: Option<RxCall> = match &self.state {
            PttState::Rx(rx) => Some(*rx),
            _ => None,
        };
        self.end_prior(out, pkt);
        assert(out@ =~= takeover_actions(old(self).state, *pkt));
        let ghost first = out@;
        if !same {
            out.push(Action::ResetVocoder);
            out.push(Action::RxCallStart(pkt.stream_id));
            out.push(
                Action::Stats(
                    StatsEvent::CallStart {
                        dir: CallDirection::DmrToFm,
                        src_id: pkt.src_id,
                        dst_id: pkt.dst_id,
                        slot: pkt.slot,
                    },
                ),
            );
            assert(out@ =~= first + seq![
                Action::ResetVocoder,
                Action::RxCallStart(pkt.stream_id),
                rx_call_start(*pkt),
            ]);
            push_metadata(out, &self.config, pkt, who);
        }
        push_drops(out, CallDirection::DmrToFm, gap);
        let gap_frames: usize = if gap > GAP_BOUNDARY_PACKETS {
            out.push(Action::ResetVocoder);
            0
        } else {
            FRAMES_PER_BURST * gap as usize
        };
        let rx = match prior {
            Some(rx) if same => RxCall { last_voice: now, last_seq: Some(pkt.seq), ..rx },
            _ => RxCall {
                stream_id: pkt.stream_id,
                src_id: pkt.src_id,
                dst_id: pkt.dst_id,
                slot: pkt.slot,
                started: now,
                last_voice: now,
                last_seq: Some(pkt.seq),
            },
        };
        self.state = PttState::Rx(rx);
        assert(out@ =~= voice_actions(old(self).config, old(self).state, *pkt, who));
        RxBurst { stream_id: pkt.stream_id, gap_frames, frames: extract_ambe(&pkt.dmr_data) }
    }
}

// ---------------------------------------------------------------------------
// Decoded audio
// ---------------------------------------------------------------------------

/// Frames to be reserved for a burst on the FM side, all or none.
pub fn frames_needed(burst: &RxBurst) -> (r: usize)
    requires
        burst.gap_frames + 3 <= usize::MAX,
    ensures
        r == 3 + burst.gap_frames,
{
    FRAMES_PER_BURST + burst.gap_frames
}

/// A burst that the FM side has no room for.
pub fn burst_refused() -> (r: Vec<Action>)
    ensures
        r@ == drops(CallDirection::DmrToFm, 3),
{
    let mut out: Vec<Action> = Vec::new();
    push_drops(&mut out, CallDirection::DmrToFm, 3);
    assert(out@ =~= drops(CallDirection::DmrToFm, 3));
    out
}

/// A missing frame was filled in, or could not be.
pub fn gap_frame_decoded(stream_id: u32, pcm: Option<PcmFrame>) -> (r: Vec<Action>)
    ensures
        r@ == match pcm {
            Some(audio) => seq![Action::Audio(voice_frame(audio, stream_id))],
            None => seq![],
        },
{
    let mut out: Vec<Action> = Vec::new();
    match pcm {
        Some(audio) => {
            out.push(Action::Audio(make_voice_frame(audio, stream_id)));
            assert(out@ =~= seq![Action::Audio(voice_frame(audio, stream_id))]);
        },
        None => {},
    }
    out
}

/// A received frame was decoded in `elapsed` nanoseconds, or could not be.
pub fn voice_frame_decoded(stream_id: u32, pcm: Option<PcmFrame>, elapsed: u64) -> (r: Vec<Action>)
    ensures
        r@ == match pcm {
            Some(audio) => seq![
                Action::Stats(
                    StatsEvent::VoiceFrame { dir: CallDirection::DmrToFm, transcode: elapsed },
                ),
                Action::Audio(voice_frame(audio, stream_id)),
            ],
            None => drops(CallDirection::DmrToFm, 1),
        },
{
    let mut out: Vec<Action> = Vec::new();
    match pcm {
        Some(audio) => {
            out.push(
                Action::Stats(
                    StatsEvent::VoiceFrame { dir: CallDirection::DmrToFm, transcode: elapsed },
                ),
            );
            out.push(Action::Audio(make_voice_frame(audio, stream_id)));
            assert(out@ =~= seq![
                Action::Stats(
                    StatsEvent::VoiceFrame { dir: CallDirection::DmrToFm, transcode: elapsed },
                ),
                Action::Audio(voice_frame(audio, stream_id)),
            ]);
        },
        None => {
            push_drops(&mut out, CallDirection::DmrToFm, 1);
            assert(out@ =~= drops(CallDirection::DmrToFm, 1));
        },
    }
    out
}

/// Audio of a stream.
pub open spec fn voice_frame(audio: [i16; VOICE_SAMPLES], stream_id: u32) -> AudioFrame {
    AudioFrame { keyup: true, samples: Some(audio), dmr_stream_id: Some(stream_id) }
}

// ---------------------------------------------------------------------------
// Transmitting: model
// ---------------------------------------------------------------------------

/// `sync` is the middle section of the next voice burst: the voice sync in
/// burst A, a fragment of the superframe's LC in bursts B to E, no LC in F.
pub open spec fn is_middle_section(config: VoiceConfig, tx: TxCall, sync: Seq<u8>) -> bool {
    if tx.vseq == 0 {
        sync == BS_VOICE_SYNC@
    } else if tx.vseq <= 4 {
        is_emb_section(
            sync,
            config.color_code.id(),
            if tx.vseq == 1 {
                1
            } else if tx.vseq == 4 {
                2
            } else {
                3
            },
            tx.lc_rotation@[tx.superframe_idx as int % tx.lc_rotation@.len() as int]@[tx.vseq - 1]@,
        )
    } else {
        is_emb_section(sync, config.color_code.id(), 0, seq![0u8, 0u8, 0u8, 0u8])
    }
}

/// The packet of the next voice burst.
pub open spec fn voice_dmrd(config: VoiceConfig, tx: TxCall, burst: [u8; DMR_DATA_SIZE]) -> Dmrd {
    outgoing(
        config,
        tx.dmrd_seq,
        tx.stream_id,
        if tx.vseq == 0 {
            FrameType::VoiceSync
        } else {
            FrameType::Voice
        },
        tx.vseq,
        burst,
    )
}

/// `w` is the packet of the next voice burst, made of the given codewords.
#[verifier::opaque]
pub open spec fn is_voice_packet(
    config: VoiceConfig,
    tx: TxCall,
    ambe: [AmbeFrame; FRAMES_PER_BURST],
    w: Seq<u8>,
) -> bool {
    exists|sync: [u8; 6], burst: [u8; DMR_DATA_SIZE]|
        {
            &&& #[trigger] is_middle_section(config, tx, sync@)
            &&& dibits_of(burst@) == burst_dibits(ambe@[0]@, ambe@[1]@, ambe@[2]@, sync@)
            &&& #[trigger] is_packet_of(voice_dmrd(config, tx, burst), w)
        }
}

/// The number after `n`, modulo 256.
pub open spec fn next_seq(n: u8) -> u8 {
    ((n + 1) % 256) as u8
}

/// `new` is the call `old` after a voice burst was sent.
pub open spec fn advanced(old_tx: TxCall, new_tx: TxCall) -> bool {
    &&& new_tx.stream_id == old_tx.stream_id
    &&& new_tx.started == old_tx.started
    &&& new_tx.lc_rotation@ == old_tx.lc_rotation@
    &&& new_tx.dmrd_seq == next_seq(old_tx.dmrd_seq)
    &&& new_tx.vseq == (old_tx.vseq + 1) % 6
    &&& new_tx.superframe_idx == if old_tx.vseq == 5 {
        (old_tx.superframe_idx + 1) % 0x1_0000_0000
    } else {
        old_tx.superframe_idx as int
    }
}

/// `new` is the call `old`, with other audio waiting.
pub open spec fn unadvanced(old_tx: TxCall, new_tx: TxCall) -> bool {
    &&& new_tx.stream_id == old_tx.stream_id
    &&& new_tx.started == old_tx.started
    &&& new_tx.lc_rotation@ == old_tx.lc_rotation@
    &&& new_tx.dmrd_seq == old_tx.dmrd_seq
    &&& new_tx.vseq == old_tx.vseq
    &&& new_tx.superframe_idx == old_tx.superframe_idx
}

/// The frames to encode are `pcm`: the waiting audio, filled with silence.
pub open spec fn is_padded(buf: Seq<PcmFrame>, pcm: [PcmFrame; FRAMES_PER_BURST]) -> bool {
    forall|i: int|
        0 <= i < 3 ==> if i < buf.len() {
            #[trigger] pcm@[i] == buf[i]
        } else {
            forall|k: int| 0 <= k < 160 ==> pcm@[i]@[k] == 0
        }
}

/// What is sent for a burst that was encoded, or not.
pub open spec fn burst_sent(
    config: VoiceConfig,
    tx: TxCall,
    encoded: Option<[AmbeFrame; FRAMES_PER_BURST]>,
    out: Seq<Action>,
) -> bool {
    match encoded {
        Some(ambe) => out.len() == 1 && out[0] is Voice && is_voice_packet(
            config,
            tx,
            ambe,
            out[0]->Voice_0@,
        ),
        None => out == drops(CallDirection::FmToDmr, 3),
    }
}

/// What is done to close a transmission: the waiting audio goes out, then the
/// terminator, then the call is accounted for.
pub open spec fn closing(
    config: VoiceConfig,
    tx: TxCall,
    encoded: Option<[AmbeFrame; FRAMES_PER_BURST]>,
    reason: TerminationReason,
    out: Seq<Action>,
) -> bool {
    let n = out.len() - 3;
    let term_seq = if tx.pcm_buf@.len() > 0 && encoded is Some {
        next_seq(tx.dmrd_seq)
    } else {
        tx.dmrd_seq
    };
    &&& n >= 0
    &&& if tx.pcm_buf@.len() > 0 {
        burst_sent(config, tx, encoded, out.subrange(0, n))
    } else {
        n == 0
    }
    &&& out[n] is Control
    &&& is_boundary_packet(
        config,
        term_seq,
        tx.stream_id,
        DATA_TYPE_VOICE_TERMINATOR,
        out[n]->Control_0@,
    )
    &&& out[n + 1] == call_end(CallDirection::FmToDmr, reason)
    &&& out[n + 2] == Action::TxCallEnd(tx.stream_id)
}

/// Audio that the machine acts on while keyed.
pub open spec fn takes_audio(config: VoiceConfig, state: PttState, frame: AudioFrame) -> bool {
    &&& config.gateway != Direction::DmrToFm
    &&& frame.keyup
    &&& frame.samples is Some
    &&& (state is Idle || state is Tx)
}

/// The end of keying ends a transmission.
pub open spec fn takes_unkey(config: VoiceConfig, state: PttState, frame: AudioFrame) -> bool {
    config.gateway != Direction::DmrToFm && !frame.keyup && state is Tx
}

/// `pcm` is what has to be encoded before the audio frame is handled.
pub open spec fn is_audio_burst(
    config: VoiceConfig,
    state: PttState,
    frame: AudioFrame,
    pcm: Option<[PcmFrame; FRAMES_PER_BURST]>,
) -> bool {
    if takes_unkey(config, state, frame) && state->Tx_0.pcm_buf@.len() > 0 {
        pcm is Some && is_padded(state->Tx_0.pcm_buf@, pcm->0)
    } else if takes_audio(config, state, frame) && state is Tx && state->Tx_0.pcm_buf@.len() == 2 {
        pcm is Some && pcm->0@ == state->Tx_0.pcm_buf@.push(frame.samples->0)
    } else {
        pcm is None
    }
}

/// What is done on audio, and the state after it.
pub open spec fn audio_step(
    config: VoiceConfig,
    before: PttState,
    frame: AudioFrame,
    now: u64,
    fresh_id: u32,
    encoded: Option<[AmbeFrame; FRAMES_PER_BURST]>,
    after: PttState,
    out: Seq<Action>,
) -> bool {
    if takes_unkey(config, before, frame) {
        after is Idle && closing(config, before->Tx_0, encoded, TerminationReason::Normal, out)
    } else if takes_audio(config, before, frame) && before is Idle {
        &&& after is Tx
        &&& after->Tx_0.stream_id == fresh_id
        &&& after->Tx_0.dmrd_seq == 1
        &&& after->Tx_0.vseq == 0
        &&& after->Tx_0.superframe_idx == 0
        &&& after->Tx_0.started == now
        &&& after->Tx_0.pcm_buf@ == seq![frame.samples->0]
        &&& is_rotation(config, after->Tx_0.lc_rotation@)
        &&& out.len() == 4
        &&& out[0] is ResetVocoder
        &&& out[1] == Action::TxCallStart(fresh_id)
        &&& out[2] == Action::Stats(
            StatsEvent::CallStart {
                dir: CallDirection::FmToDmr,
                src_id: config.src_id.id(),
                dst_id: config.talkgroup.id(),
                slot: config.slot,
            },
        )
        &&& out[3] is Control
        &&& is_boundary_packet(config, 0, fresh_id, DATA_TYPE_VOICE_HEADER, out[3]->Control_0@)
    } else if takes_audio(config, before, frame) {
        let tx = before->Tx_0;
        &&& after is Tx
        &&& if tx.pcm_buf@.len() < 2 {
            &&& unadvanced(tx, after->Tx_0)
            &&& after->Tx_0.pcm_buf@ == tx.pcm_buf@.push(frame.samples->0)
            &&& out.len() == 0
        } else {
            &&& after->Tx_0.pcm_buf@.len() == 0
            &&& burst_sent(config, tx, encoded, out)
            &&& if encoded is Some {
                advanced(tx, after->Tx_0)
            } else {
                unadvanced(tx, after->Tx_0)
            }
        }
    } else {
        after == before && out.len() == 0
    }
}

// ---------------------------------------------------------------------------
// Transmitting
// ---------------------------------------------------------------------------

/// The waiting audio, filled with silence.
fn padded(buf: &Vec<PcmFrame>) -> (pcm: [PcmFrame; FRAMES_PER_BURST])
    ensures
        is_padded(buf@, pcm),
{
    let a = if buf.len() > 0 {
        buf[0]
    } else {
        silence()
    };
    let b = if buf.len() > 1 {
        buf[1]
    } else {
        silence()
    };
    let c = if buf.len() > 2 {
        buf[2]
    } else {
        silence()
    };
    [a, b, c]
}

/// Two waiting frames and a third.
fn completed(buf: &Vec<PcmFrame>, audio: PcmFrame) -> (pcm: [PcmFrame; FRAMES_PER_BURST])
    requires
        buf@.len() == 2,
    ensures
        pcm@ == buf@.push(audio),
{
    let pcm: [PcmFrame; FRAMES_PER_BURST] = [buf[0], buf[1], audio];
    assert(pcm@ =~= buf@.push(audio));
    pcm
}

/// The packet of the next voice burst; the call moves on.
fn build_voice_burst(
    config: &VoiceConfig,
    tx: &mut TxCall,
    ambe: &[AmbeFrame; FRAMES_PER_BURST],
) -> (w: [u8; PACKET_SIZE])
    requires
        old(tx).vseq < 6,
        old(tx).lc_rotation@.len() > 0,
    ensures
        is_voice_packet(*config, *old(tx), *ambe, w@),
        advanced(*old(tx), *final(tx)),
        final(tx).pcm_buf == old(tx).pcm_buf,
{
    let sync: [u8; 6] = if tx.vseq == 0 {
        BS_VOICE_SYNC
    } else if tx.vseq <= 4 {
        let fragment: usize = (tx.vseq - 1) as usize;
        let lc: usize = tx.superframe_idx as usize % tx.lc_rotation.len();
        let f = tx.lc_rotation[lc];
        build_emb_section(config.color_code.value(), lcss_for_fragment(fragment), &f[fragment])
    } else {
        build_null_emb(config.color_code.value())
    };
    assert(is_middle_section(*config, *tx, sync@));
    let burst = assemble_burst(ambe, &sync);
    let frame_type = if tx.vseq == 0 {
        FrameType::VoiceSync
    } else {
        FrameType::Voice
    };
    let pkt = build_dmrd(tx.dmrd_seq, config, tx.stream_id, frame_type, tx.vseq, burst);
    let w = pkt.serialize();
    assert(is_packet_of(voice_dmrd(*config, *tx, burst), w@));
    assert(is_voice_packet(*config, *tx, *ambe, w@)) by {
        reveal(is_voice_packet);
    }
    tx.dmrd_seq = tx.dmrd_seq.wrapping_add(1);
    if tx.vseq == 5 {
        tx.superframe_idx = tx.superframe_idx.wrapping_add(1);
        tx.vseq = 0;
    } else {
        tx.vseq = tx.vseq + 1;
    }
    w
}

/// Sends a burst that was encoded, or accounts for one that was not.
fn send_burst(
    config: &VoiceConfig,
    tx: &mut TxCall,
    encoded: Option<[AmbeFrame; FRAMES_PER_BURST]>,
) -> (out: Vec<Action>)
    requires
        old(tx).vseq < 6,
        old(tx).lc_rotation@.len() > 0,
    ensures
        burst_sent(*config, *old(tx), encoded, out@),
        encoded is Some ==> advanced(*old(tx), *final(tx)),
        encoded is None ==> unadvanced(*old(tx), *final(tx)),
        final(tx).pcm_buf == old(tx).pcm_buf,
{
    let mut out: Vec<Action> = Vec::new();
    match encoded {
        Some(ambe) => {
            let w = build_voice_burst(config, tx, &ambe);
            out.push(Action::Voice(w));
        },
        None => {
            push_drops(&mut out, CallDirection::FmToDmr, 3);
            assert(out@ =~= drops(CallDirection::FmToDmr, 3));
        },
    }
    out
}

/// Closes a transmission.
fn close(
    config: &VoiceConfig,
    tx: TxCall,
    encoded: Option<[AmbeFrame; FRAMES_PER_BURST]>,
    reason: TerminationReason,
) -> (out: Vec<Action>)
    requires
        tx.vseq < 6,
        tx.lc_rotation@.len() > 0,
    ensures
        closing(*config, tx, encoded, reason, out@),
{
    let mut call = tx;
    let mut out: Vec<Action> = if call.pcm_buf.len() > 0 {
        send_burst(config, &mut call, encoded)
    } else {
        Vec::new()
    };
    let ghost first = out@;
    let term = build_boundary_packet(
        config,
        call.dmrd_seq,
        call.stream_id,
        DATA_TYPE_VOICE_TERMINATOR,
    );
    out.push(Action::Control(term));
    out.push(Action::Stats(StatsEvent::CallEnd { dir: CallDirection::FmToDmr, reason }));
    out.push(Action::TxCallEnd(call.stream_id));
    assert(out@.subrange(0, first.len() as int) =~= first);
    out
}

/// The embedded LCs of outgoing calls.
fn build_rotation(config: &VoiceConfig) -> (rotation: Vec<[[u8; 4]; 4]>)
    ensures
        is_rotation(*config, rotation@),
{
    let group = match config.call_type {
        CallType::Group => true,
        CallType::Unit => false,
    };
    let body = build_voice_lc_body(group, config.talkgroup.as_u32(), config.src_id.as_u32());
    let mut rotation: Vec<[[u8; 4]; 4]> = Vec::new();
    rotation.push(build_fragments(&body));
    assert(is_voice_lc_bits(*config, body@) && is_fragments_of(body@, rotation@[0]));
    let alias = encode_talker_alias_lcs(config.callsign.as_str());
    let mut i: usize = 0;
    while i < alias.len()
        invariant
            i <= alias@.len(),
            alias@.len() == alias_lcs(config.callsign@).len(),
            forall|k: int|
                0 <= k < alias@.len() ==> (#[trigger] alias@[k])@ == alias_lcs(config.callsign@)[k],
            rotation@.len() == 1 + i,
            is_voice_lc_bits(*config, body@),
            is_fragments_of(body@, rotation@[0]),
            forall|k: int|
                0 <= k < i ==> is_fragments_of(
                    alias_lcs(config.callsign@)[k],
                    #[trigger] rotation@[1 + k],
                ),
        decreases alias@.len() - i,
    {
        let ghost before = rotation@;
        rotation.push(build_fragments(&alias[i]));
        assert(is_fragments_of(alias@[i as int]@, rotation@[1 + i]));
        assert(rotation@[0] == before[0]);
        assert forall|k: int| 0 <= k < i + 1 implies is_fragments_of(
            alias_lcs(config.callsign@)[k],
            #[trigger] rotation@[1 + k],
        ) by {
            if k < i {
                assert(rotation@[1 + k] == before[1 + k]);
            }
        }
        i += 1;
    }
    rotation
}

impl PttMachine {
    /// The frames to encode before `on_audio`, if any.
    pub fn audio_burst(&self, frame: &AudioFrame) -> (r: Option<[PcmFrame; FRAMES_PER_BURST]>)
        ensures
            is_audio_burst(self.config, self.state, *frame, r),
    {
        if self.config.gateway == Direction::DmrToFm {
            return None;
        }
        match &self.state {
            PttState::Tx(tx) => {
                if !frame.keyup {
                    if tx.pcm_buf.len() > 0 {
                        Some(padded(&tx.pcm_buf))
                    } else {
                        None
                    }
                } else {
                    match frame.samples {
                        Some(audio) => {
                            if tx.pcm_buf.len() == 2 {
                                Some(completed(&tx.pcm_buf, audio))
                            } else {
                                None
                            }
                        },
                        None => None,
                    }
                }
            },
            _ => None,
        }
    }

    /// An audio frame arrived from the FM side.  `fresh_id` names a call that
    /// begins with it; `encoded` is what became of the frames that
    /// `audio_burst` asked for.
    pub fn on_audio(
        &mut self,
        frame: &AudioFrame,
        now: u64,
        fresh_id: u32,
        encoded: Option<[AmbeFrame; FRAMES_PER_BURST]>,
    ) -> (out: Vec<Action>)
        requires
            old(self).wf(),
            time_fits(old(self).config, now),
        ensures
            final(self).wf(),
            final(self).config == old(self).config,
            audio_step(
                old(self).config,
                old(self).state,
                *frame,
                now,
                fresh_id,
                encoded,
                final(self).state,
                out@,
            ),
    {
        if self.config.gateway == Direction::DmrToFm {
            return Vec::new();
        }
        let mut state = PttState::Idle;
        std::mem::swap(&mut state, &mut self.state);
        if !frame.keyup {
            return match state {
                PttState::Tx(tx) => close(&self.config, tx, encoded, TerminationReason::Normal),
                other => {
                    self.state = other;
                    Vec::new()
                },
            };
        }
        let audio = match frame.samples {
            Some(audio) => audio,
            None => {
                self.state = state;
                return Vec::new();
            },
        };
        match state {
            PttState::Idle => self.start_tx(audio, now, fresh_id),
            PttState::Tx(tx) => {
                let mut tx = tx;
                let ghost before = tx;
                if tx.pcm_buf.len() < 2 {
                    tx.pcm_buf.push(audio);
                    self.state = PttState::Tx(tx);
                    return Vec::new();
                }
                tx.pcm_buf.clear();
                let ghost emptied = tx;
                let out = send_burst(&self.config, &mut tx, encoded);
                assert(burst_sent(self.config, before, encoded, out@)) by {
                    lemma_burst_ignores_buffer(self.config, emptied, before, encoded, out@);
                }
                self.state = PttState::Tx(tx);
                out
            },
            other => {
                self.state = other;
                Vec::new()
            },
        }
    }

    /// Begins a transmission.
    fn start_tx(&mut self, audio: PcmFrame, now: u64, fresh_id: u32) -> (out: Vec<Action>)
        requires
            time_fits(old(self).config, now),
        ensures
            final(self).config == old(self).config,
            final(self).wf(),
            final(self).state is Tx,
            final(self).state->Tx_0.stream_id == fresh_id,
            final(self).state->Tx_0.dmrd_seq == 1,
            final(self).state->Tx_0.vseq == 0,
            final(self).state->Tx_0.superframe_idx == 0,
            final(self).state->Tx_0.started == now,
            final(self).state->Tx_0.pcm_buf@ == seq![audio],
            is_rotation(final(self).config, final(self).state->Tx_0.lc_rotation@),
            out@.len() == 4,
            out@[0] is ResetVocoder,
            out@[1] == Action::TxCallStart(fresh_id),
            out@[2] == Action::Stats(
                StatsEvent::CallStart {
                    dir: CallDirection::FmToDmr,
                    src_id: final(self).config.src_id.id(),
                    dst_id: final(self).config.talkgroup.id(),
                    slot: final(self).config.slot,
                },
            ),
            out@[3] is Control,
            is_boundary_packet(
                final(self).config,
                0,
                fresh_id,
                DATA_TYPE_VOICE_HEADER,
                out@[3]->Control_0@,
            ),
    {
        let lc_rotation = build_rotation(&self.config);
        let mut out: Vec<Action> = Vec::new();
        out.push(Action::ResetVocoder);
        out.push(Action::TxCallStart(fresh_id));
        out.push(
            Action::Stats(
                StatsEvent::CallStart {
                    dir: CallDirection::FmToDmr,
                    src_id: self.config.src_id.as_u32(),
                    dst_id: self.config.talkgroup.as_u32(),
                    slot: self.config.slot,
                },
            ),
        );
        let header = build_boundary_packet(&self.config, 0, fresh_id, DATA_TYPE_VOICE_HEADER);
        out.push(Action::Control(header));
        let mut pcm_buf: Vec<PcmFrame> = Vec::new();
        pcm_buf.push(audio);
        assert(pcm_buf@ =~= seq![audio]);
        self.state = PttState::Tx(
            TxCall {
                stream_id: fresh_id,
                dmrd_seq: 1,
                vseq: 0,
                pcm_buf,
                started: now,
                lc_rotation,
                superframe_idx: 0,
            },
        );
        out
    }
}

/// The packet of a burst does not depend on the audio that waits behind it.
proof fn lemma_burst_ignores_buffer(
    config: VoiceConfig,
    a: TxCall,
    b: TxCall,
    encoded: Option<[AmbeFrame; FRAMES_PER_BURST]>,
    out: Seq<Action>,
)
    requires
        unadvanced(a, b),
        burst_sent(config, a, encoded, out),
    ensures
        burst_sent(config, b, encoded, out),
{
    match encoded {
        Some(ambe) => {
            reveal(is_voice_packet);
            let w = out[0]->Voice_0@;
            let (sync, burst) = choose|sync: [u8; 6], burst: [u8; DMR_DATA_SIZE]|
                {
                    &&& #[trigger] is_middle_section(config, a, sync@)
                    &&& dibits_of(burst@) == burst_dibits(ambe@[0]@, ambe@[1]@, ambe@[2]@, sync@)
                    &&& #[trigger] is_packet_of(voice_dmrd(config, a, burst), w)
                };
            assert(is_middle_section(config, b, sync@));
            assert(is_packet_of(voice_dmrd(config, b, burst), w));
        },
        None => {},
    }
}

// ---------------------------------------------------------------------------
// Time, shutdown, network
// ---------------------------------------------------------------------------

/// A transmission has exceeded its limit.
pub open spec fn tx_expired(config: VoiceConfig, state: PttState, now: u64) -> bool {
    state is Tx && now >= state->Tx_0.started + config.tx_timeout
}

/// What is done when a received call is cut short.
pub open spec fn rx_cut_actions(rx: RxCall, reason: TerminationReason) -> Seq<Action> {
    seq![
        Action::Meta(MetaEvent::Clear),
        call_end(CallDirection::DmrToFm, reason),
        Action::RxCallEnd(rx.stream_id),
        Action::Audio(unkey_frame(Some(rx.stream_id))),
    ]
}

/// What is done when the deadline passes, and the state after it.
pub open spec fn timeout_step(
    config: VoiceConfig,
    before: PttState,
    now: u64,
    encoded: Option<[AmbeFrame; FRAMES_PER_BURST]>,
    after: PttState,
    out: Seq<Action>,
) -> bool {
    match before {
        PttState::Rx(rx) => {
            &&& after == PttState::RxHang((now + config.hang_time) as u64)
            &&& out == rx_cut_actions(rx, TerminationReason::StreamTimeout)
        },
        PttState::RxHang(_) => after is Idle && out.len() == 0,
        PttState::Tx(tx) => if tx_expired(config, before, now) {
            after is Idle && closing(config, tx, encoded, TerminationReason::TxTimeout, out)
        } else {
            after == before && out.len() == 0
        },
        PttState::Idle => after is Idle && out.len() == 0,
    }
}

/// What is done when the bridge stops, and the state after it.
pub open spec fn shutdown_step(
    config: VoiceConfig,
    before: PttState,
    encoded: Option<[AmbeFrame; FRAMES_PER_BURST]>,
    after: PttState,
    out: Seq<Action>,
) -> bool {
    &&& after is Idle
    &&& match before {
        PttState::Rx(rx) => out == rx_cut_actions(rx, TerminationReason::Shutdown),
        PttState::RxHang(_) => out == seq![Action::Audio(unkey_frame(None))],
        PttState::Tx(tx) => closing(config, tx, encoded, TerminationReason::Shutdown, out),
        PttState::Idle => out.len() == 0,
    }
}

/// What is done when the network session is renewed: a transmission is
/// dropped without a terminator, to start over with the next audio.
pub open spec fn reset_actions(before: PttState) -> Seq<Action> {
    match before {
        PttState::Tx(tx) => seq![
            call_end(CallDirection::FmToDmr, TerminationReason::NetworkReset),
            Action::TxCallEnd(tx.stream_id),
        ],
        _ => seq![],
    }
}

/// Cuts a received call short.
fn cut_rx(rx: &RxCall, reason: TerminationReason) -> (out: Vec<Action>)
    ensures
        out@ == rx_cut_actions(*rx, reason),
{
    let mut out: Vec<Action> = Vec::new();
    out.push(Action::Meta(MetaEvent::Clear));
    out.push(Action::Stats(StatsEvent::CallEnd { dir: CallDirection::DmrToFm, reason }));
    out.push(Action::RxCallEnd(rx.stream_id));
    out.push(Action::Audio(make_unkey_frame(Some(rx.stream_id))));
    assert(out@ =~= rx_cut_actions(*rx, reason));
    out
}

impl PttMachine {
    /// The frames to encode before `on_timeout`, if any.
    pub fn timeout_burst(&self, now: u64) -> (r: Option<[PcmFrame; FRAMES_PER_BURST]>)
        requires
            self.wf(),
        ensures
            r is Some <==> tx_expired(self.config, self.state, now)
                && self.state->Tx_0.pcm_buf@.len() > 0,
            r matches Some(pcm) ==> is_padded(self.state->Tx_0.pcm_buf@, pcm),
    {
        match &self.state {
            PttState::Tx(tx) => {
                if now >= tx.started + self.config.tx_timeout && tx.pcm_buf.len() > 0 {
                    Some(padded(&tx.pcm_buf))
                } else {
                    None
                }
            },
            _ => None,
        }
    }

    /// The deadline passed.
    pub fn on_timeout(
        &mut self,
        now: u64,
        encoded: Option<[AmbeFrame; FRAMES_PER_BURST]>,
    ) -> (out: Vec<Action>)
        requires
            old(self).wf(),
            time_fits(old(self).config, now),
        ensures
            final(self).wf(),
            final(self).config == old(self).config,
            timeout_step(
                old(self).config,
                old(self).state,
                now,
                encoded,
                final(self).state,
                out@,
            ),
    {
        let mut state = PttState::Idle;
        std::mem::swap(&mut state, &mut self.state);
        match state {
            PttState::Rx(rx) => {
                self.state = PttState::RxHang(now + self.config.hang_time);
                cut_rx(&rx, TerminationReason::StreamTimeout)
            },
            PttState::Tx(tx) => {
                if now >= tx.started + self.config.tx_timeout {
                    close(&self.config, tx, encoded, TerminationReason::TxTimeout)
                } else {
                    self.state = PttState::Tx(tx);
                    Vec::new()
                }
            },
            _ => Vec::new(),
        }
    }

    /// The frames to encode before `on_shutdown`, if any.
    pub fn shutdown_burst(&self) -> (r: Option<[PcmFrame; FRAMES_PER_BURST]>)
        ensures
            r is Some <==> self.state is Tx && self.state->Tx_0.pcm_buf@.len() > 0,
            r matches Some(pcm) ==> is_padded(self.state->Tx_0.pcm_buf@, pcm),
    {
        match &self.state {
            PttState::Tx(tx) => {
                if tx.pcm_buf.len() > 0 {
                    Some(padded(&tx.pcm_buf))
                } else {
                    None
                }
            },
            _ => None,
        }
    }

    /// The bridge stops.
    pub fn on_shutdown(
        &mut self,
        encoded: Option<[AmbeFrame; FRAMES_PER_BURST]>,
    ) -> (out: Vec<Action>)
        requires
            old(self).wf(),
        ensures
            final(self).wf(),
            final(self).config == old(self).config,
            shutdown_step(old(self).config, old(self).state, encoded, final(self).state, out@),
    {
        let mut state = PttState::Idle;
        std::mem::swap(&mut state, &mut self.state);
        match state {
            PttState::Rx(rx) => cut_rx(&rx, TerminationReason::Shutdown),
            PttState::RxHang(_) => {
                let mut out: Vec<Action> = Vec::new();
                out.push(Action::Audio(make_unkey_frame(None)));
                assert(out@ =~= seq![Action::Audio(unkey_frame(None))]);
                out
            },
            PttState::Tx(tx) => close(&self.config, tx, encoded, TerminationReason::Shutdown),
            PttState::Idle => Vec::new(),
        }
    }

    /// The network side has news.  A transmission is dropped, and the machine is
    /// idle after it; what is being received goes on.
    pub fn on_control(&mut self, event: ControlEvent) -> (out: Vec<Action>)
        requires
            old(self).wf(),
        ensures
            final(self).wf(),
            final(self).config == old(self).config,
            old(self).state is Tx ==> final(self).state is Idle,
            !(old(self).state is Tx) ==> final(self).state == old(self).state,
            out@ == reset_actions(old(self).state),
    {
        let mut out: Vec<Action> = Vec::new();
        match event {
            ControlEvent::NetworkReset => {
                let mut state = PttState::Idle;
                std::mem::swap(&mut state, &mut self.state);
                match state {
                    PttState::Tx(tx) => {
                        out.push(
                            Action::Stats(
                                StatsEvent::CallEnd {
                                    dir: CallDirection::FmToDmr,
                                    reason: TerminationReason::NetworkReset,
                                },
                            ),
                        );
                        out.push(Action::TxCallEnd(tx.stream_id));
                    },
                    other => {
                        self.state = other;
                    },
                }
            },
        }
        assert(out@ =~= reset_actions(old(self).state));
        out
    }
}

/// The statistics of a voice packet that was queued, or found the queue full.
pub fn voice_packet_stats(sent: bool, transcode: [u64; FRAMES_PER_BURST]) -> (out: Vec<Action>)
    ensures
        out@ == if sent {
            Seq::new(
                3,
                |i: int|
                    Action::Stats(
                        StatsEvent::VoiceFrame {
                            dir: CallDirection::FmToDmr,
                            transcode: transcode@[i],
                        },
                    ),
            )
        } else {
            drops(CallDirection::FmToDmr, 3)
        },
{
    let mut out: Vec<Action> = Vec::new();
    if sent {
        out.push(
            Action::Stats(
                StatsEvent::VoiceFrame { dir: CallDirection::FmToDmr, transcode: transcode[0] },
            ),
        );
        out.push(
            Action::Stats(
                StatsEvent::VoiceFrame { dir: CallDirection::FmToDmr, transcode: transcode[1] },
            ),
        );
        out.push(
            Action::Stats(
                StatsEvent::VoiceFrame { dir: CallDirection::FmToDmr, transcode: transcode[2] },
            ),
        );
        assert(out@ =~= Seq::new(
            3,
            |i: int|
                Action::Stats(
                    StatsEvent::VoiceFrame {
                        dir: CallDirection::FmToDmr,
                        transcode: transcode@[i],
                    },
                ),
        ));
    } else {
        push_drops(&mut out, CallDirection::FmToDmr, 3);
        assert(out@ =~= drops(CallDirection::FmToDmr, 3));
    }
    out
}

/// Whether a frame took the vocoder too long.
pub fn over_budget(elapsed: u64) -> (r: bool)
    ensures
        r == (elapsed > TRANSCODE_BUDGET),
{
    elapsed > TRANSCODE_BUDGET
}

// ---------------------------------------------------------------------------
// Laws
// ---------------------------------------------------------------------------

/// Law: a transmission blocks receiving: no packet changes anything.
pub proof fn law_tx_blocks_rx(
    config: VoiceConfig,
    state: PttState,
    pkt: Dmrd,
    now: u64,
    who: Option<(String, String)>,
)
    requires
        state is Tx,
    ensures
        rx_state(config, state, pkt, now) == state,
        rx_actions(config, state, pkt, who) == Seq::<Action>::empty(),
{
}

/// Law: a received call, and the hang time after it, block transmitting: no
/// audio changes anything.
pub proof fn law_rx_blocks_tx(
    config: VoiceConfig,
    before: PttState,
    frame: AudioFrame,
    now: u64,
    fresh_id: u32,
    encoded: Option<[AmbeFrame; FRAMES_PER_BURST]>,
    after: PttState,
    out: Seq<Action>,
)
    requires
        before is Rx || before is RxHang,
        audio_step(config, before, frame, now, fresh_id, encoded, after, out),
    ensures
        after == before,
        out.len() == 0,
{
}

/// Law: letting go of the key outside a transmission changes nothing.
pub proof fn law_stray_unkey_ignored(
    config: VoiceConfig,
    before: PttState,
    frame: AudioFrame,
    now: u64,
    fresh_id: u32,
    encoded: Option<[AmbeFrame; FRAMES_PER_BURST]>,
    after: PttState,
    out: Seq<Action>,
)
    requires
        !frame.keyup,
        !(before is Tx),
        audio_step(config, before, frame, now, fresh_id, encoded, after, out),
    ensures
        after == before,
        out.len() == 0,
{
}

/// Law: a repeated header of the call being received changes nothing.
pub proof fn law_repeated_header_ignored(
    config: VoiceConfig,
    state: PttState,
    pkt: Dmrd,
    now: u64,
    who: Option<(String, String)>,
)
    requires
        is_header(pkt),
        in_stream(state, pkt.stream_id),
    ensures
        rx_state(config, state, pkt, now) == state,
        rx_actions(config, state, pkt, who) == Seq::<Action>::empty(),
{
}

/// Law: a terminator of another stream changes nothing.
pub proof fn law_foreign_terminator_ignored(
    config: VoiceConfig,
    state: PttState,
    pkt: Dmrd,
    now: u64,
    who: Option<(String, String)>,
)
    requires
        is_terminator(pkt),
        !in_stream(state, pkt.stream_id),
    ensures
        rx_state(config, state, pkt, now) == state,
        rx_actions(config, state, pkt, who) == Seq::<Action>::empty(),
{
}

/// Law: when another stream takes over, by a header or by voice, the FM side
/// hears of the end of the call before it: that is done first, and no other
/// audio comes with it.
pub proof fn law_stream_change_unkeys(
    config: VoiceConfig,
    state: PttState,
    pkt: Dmrd,
    who: Option<(String, String)>,
)
    requires
        state is Rx,
        listens(config, state, pkt),
        is_header(pkt) || is_voice(pkt),
        !in_stream(state, pkt.stream_id),
    ensures
        ({
            let out = rx_actions(config, state, pkt, who);
            &&& out.len() >= 3
            &&& out.subrange(0, 3) == takeover_actions(state, pkt)
            &&& out[2] == Action::Audio(unkey_frame(Some(state->Rx_0.stream_id)))
            &&& forall|j: int| 3 <= j < out.len() ==> !(#[trigger] out[j] is Audio)
        }),
{
    let out = rx_actions(config, state, pkt, who);
    let a = takeover_actions(state, pkt);
    let meta = meta_actions(config, pkt, who);
    let c = drops(CallDirection::DmrToFm, seq_gap(state, pkt));
    assert(out.subrange(0, 3) =~= a);
    assert(out[2] == a[2]);
    assert(c.len() == 0);
}

/// `out` ends a transmission: of its control packets the one and only is the
/// terminator, and no voice comes after it.
pub open spec fn ended_by_terminator(config: VoiceConfig, tx: TxCall, out: Seq<Action>) -> bool {
    exists|i: int, seq: u8|
        {
            &&& 0 <= i < out.len()
            &&& #[trigger] out[i] is Control
            &&& #[trigger] is_boundary_packet(
                config,
                seq,
                tx.stream_id,
                DATA_TYPE_VOICE_TERMINATOR,
                out[i]->Control_0@,
            )
            &&& forall|j: int| 0 <= j < out.len() && j != i ==> !(#[trigger] out[j] is Control)
            &&& forall|j: int| i < j < out.len() ==> !(#[trigger] out[j] is Voice)
        }
}

/// Law: audio, the passing of time and the stop of the bridge end a
/// transmission only with its terminator, which is the last packet of the
/// call.  (When the network session is renewed there is nobody left to send
/// one to.)
pub proof fn law_terminator_ends_tx(
    config: VoiceConfig,
    before: PttState,
    frame: AudioFrame,
    now: u64,
    fresh_id: u32,
    encoded: Option<[AmbeFrame; FRAMES_PER_BURST]>,
    after: PttState,
    out: Seq<Action>,
)
    requires
        before is Tx,
        !(after is Tx),
        audio_step(config, before, frame, now, fresh_id, encoded, after, out) || timeout_step(
            config,
            before,
            now,
            encoded,
            after,
            out,
        ) || shutdown_step(config, before, encoded, after, out),
    ensures
        ended_by_terminator(config, before->Tx_0, out),
{
    let tx = before->Tx_0;
    if closing(config, tx, encoded, TerminationReason::Normal, out) {
        lemma_closing_terminates(config, tx, encoded, TerminationReason::Normal, out);
    } else if closing(config, tx, encoded, TerminationReason::TxTimeout, out) {
        lemma_closing_terminates(config, tx, encoded, TerminationReason::TxTimeout, out);
    } else {
        lemma_closing_terminates(config, tx, encoded, TerminationReason::Shutdown, out);
    }
}

proof fn lemma_closing_terminates(
    config: VoiceConfig,
    tx: TxCall,
    encoded: Option<[AmbeFrame; FRAMES_PER_BURST]>,
    reason: TerminationReason,
    out: Seq<Action>,
)
    requires
        closing(config, tx, encoded, reason, out),
    ensures
        ended_by_terminator(config, tx, out),
{
    let n = out.len() - 3;
    let first = out.subrange(0, n);
    let seq = if tx.pcm_buf@.len() > 0 && encoded is Some {
        next_seq(tx.dmrd_seq)
    } else {
        tx.dmrd_seq
    };
    assert forall|j: int| 0 <= j < out.len() && j != n implies !(#[trigger] out[j] is Control) by {
        if j < n {
            assert(out[j] == first[j]);
            assert(burst_sent(config, tx, encoded, first));
            if encoded is None {
                let lost = drops(CallDirection::FmToDmr, 3);
                assert(first == lost && lost.len() == 3);
                assert(lost[j] == Action::Stats(StatsEvent::Drop { dir: CallDirection::FmToDmr }));
            }
        }
    }
    assert(out[n] is Control && is_boundary_packet(
        config,
        seq,
        tx.stream_id,
        DATA_TYPE_VOICE_TERMINATOR,
        out[n]->Control_0@,
    ));
}

/// The packets among some actions.
pub open spec fn sent(out: Seq<Action>) -> Seq<Action>
    decreases out.len(),
{
    if out.len() == 0 {
        out
    } else if out.last() is Control || out.last() is Voice {
        sent(out.drop_last()).push(out.last())
    } else {
        sent(out.drop_last())
    }
}

/// The packets that were sent over some steps, in order.
pub open spec fn all_sent(outs: Seq<Seq<Action>>) -> Seq<Action>
    decreases outs.len(),
{
    if outs.len() == 0 {
        seq![]
    } else {
        all_sent(outs.drop_last()) + sent(outs.last())
    }
}

/// A step on audio whose frames to encode, if any, were encoded.
pub open spec fn encoded_step(
    config: VoiceConfig,
    before: PttState,
    frame: AudioFrame,
    now: u64,
    fresh_id: u32,
    pcm: Option<[PcmFrame; FRAMES_PER_BURST]>,
    encoded: Option<[AmbeFrame; FRAMES_PER_BURST]>,
    after: PttState,
    out: Seq<Action>,
) -> bool {
    &&& is_audio_burst(config, before, frame, pcm)
    &&& encoded is Some <==> pcm is Some
    &&& audio_step(config, before, frame, now, fresh_id, encoded, after, out)
}

/// A whole transmission: from idle, the machine is handed frames of keyed audio
/// and then the end of keying.  Step `i` goes from `states[i]` to
/// `states[i + 1]`; it asks for `pcm[i]` to be encoded, which always succeeds.
pub open spec fn is_transmission(
    config: VoiceConfig,
    frames: Seq<AudioFrame>,
    now: Seq<u64>,
    fresh_id: Seq<u32>,
    pcm: Seq<Option<[PcmFrame; FRAMES_PER_BURST]>>,
    encoded: Seq<Option<[AmbeFrame; FRAMES_PER_BURST]>>,
    states: Seq<PttState>,
    outs: Seq<Seq<Action>>,
) -> bool {
    let n = frames.len() - 1;
    &&& config.gateway != Direction::DmrToFm
    &&& n >= 1
    &&& forall|i: int|
        0 <= i < n ==> (#[trigger] frames[i]).keyup && frames[i].samples is Some
    &&& !frames[n].keyup
    &&& states.len() == n + 2
    &&& outs.len() == n + 1
    &&& states[0] is Idle
    &&& forall|i: int|
        0 <= i <= n ==> encoded_step(
            config,
            states[i],
            frames[i],
            now[i],
            fresh_id[i],
            pcm[i],
            encoded[i],
            states[i + 1],
            #[trigger] outs[i],
        )
}

/// The step of a transmission of `n` frames that sends its `k`-th burst: that of
/// the third frame, or the end of keying.
pub open spec fn burst_step(n: int, k: int) -> int {
    if 3 * k + 2 < n {
        3 * k + 2
    } else {
        n
    }
}

/// The call `tx` is about to send its `k`-th burst.
pub open spec fn at_burst(config: VoiceConfig, id: u32, k: int, tx: TxCall) -> bool {
    &&& tx.stream_id == id
    &&& tx.dmrd_seq == (k + 1) % 256
    &&& tx.vseq == k % 6
    &&& tx.superframe_idx == k / 6 % 0x1_0000_0000
    &&& is_rotation(config, tx.lc_rotation@)
}

/// The frames to encode for the `k`-th burst: three of the transmission's, or
/// what is left of them, filled with silence.
pub open spec fn is_kth_audio(
    frames: Seq<AudioFrame>,
    k: int,
    pcm: Option<[PcmFrame; FRAMES_PER_BURST]>,
) -> bool {
    &&& pcm is Some
    &&& forall|j: int|
        0 <= j < 3 ==> if 3 * k + j < frames.len() - 1 {
            #[trigger] pcm->0@[j] == frames[3 * k + j].samples->0
        } else {
            forall|x: int| 0 <= x < 160 ==> pcm->0@[j]@[x] == 0
        }
}

/// `packet` is that of the `k`-th burst of a transmission, which step `i` sends.
pub open spec fn is_kth_sent(
    config: VoiceConfig,
    frames: Seq<AudioFrame>,
    id: u32,
    k: int,
    i: int,
    pcm: Seq<Option<[PcmFrame; FRAMES_PER_BURST]>>,
    encoded: Seq<Option<[AmbeFrame; FRAMES_PER_BURST]>>,
    states: Seq<PttState>,
    packet: Action,
) -> bool {
    &&& packet is Voice
    &&& states[i] is Tx
    &&& at_burst(config, id, k, states[i]->Tx_0)
    &&& is_kth_audio(frames, k, pcm[i])
    &&& encoded[i] is Some
    &&& is_voice_packet(config, states[i]->Tx_0, encoded[i]->0, packet->Voice_0@)
}

/// Where a transmission stands after `i` frames of audio.
spec fn keyed(
    config: VoiceConfig,
    frames: Seq<AudioFrame>,
    id: u32,
    i: int,
    state: PttState,
) -> bool {
    let tx = state->Tx_0;
    &&& state is Tx
    &&& at_burst(config, id, i / 3, tx)
    &&& tx.pcm_buf@.len() == i % 3
    &&& forall|j: int|
        0 <= j < i % 3 ==> #[trigger] tx.pcm_buf@[j] == frames[3 * (i / 3) + j].samples->0
}

/// The first frame of audio begins a call.
proof fn lemma_first_keyed(
    config: VoiceConfig,
    frames: Seq<AudioFrame>,
    now: u64,
    fresh_id: u32,
    pcm: Option<[PcmFrame; FRAMES_PER_BURST]>,
    encoded: Option<[AmbeFrame; FRAMES_PER_BURST]>,
    before: PttState,
    after: PttState,
    out: Seq<Action>,
)
    requires
        config.gateway != Direction::DmrToFm,
        frames.len() > 1,
        frames[0].keyup,
        frames[0].samples is Some,
        before is Idle,
        encoded_step(config, before, frames[0], now, fresh_id, pcm, encoded, after, out),
    ensures
        keyed(config, frames, fresh_id, 1, after),
        sent(out) == seq![out[3]],
        out[3] is Control,
        is_boundary_packet(config, 0, fresh_id, DATA_TYPE_VOICE_HEADER, out[3]->Control_0@),
{
    lemma_sent_start(out);
}

/// Another frame of audio is kept, or completes a burst.
proof fn lemma_next_keyed(
    config: VoiceConfig,
    frames: Seq<AudioFrame>,
    id: u32,
    i: int,
    now: u64,
    fresh_id: u32,
    pcm: Option<[PcmFrame; FRAMES_PER_BURST]>,
    encoded: Option<[AmbeFrame; FRAMES_PER_BURST]>,
    before: PttState,
    after: PttState,
    out: Seq<Action>,
)
    requires
        config.gateway != Direction::DmrToFm,
        1 <= i < frames.len() - 1,
        frames[i].keyup,
        frames[i].samples is Some,
        keyed(config, frames, id, i, before),
        encoded_step(config, before, frames[i], now, fresh_id, pcm, encoded, after, out),
    ensures
        keyed(config, frames, id, i + 1, after),
        i % 3 < 2 ==> sent(out).len() == 0,
        i % 3 == 2 ==> {
            &&& out.len() == 1
            &&& sent(out) == seq![out[0]]
            &&& out[0] is Voice
            &&& encoded is Some
            &&& is_voice_packet(config, before->Tx_0, encoded->0, out[0]->Voice_0@)
            &&& is_kth_audio(frames, i / 3, pcm)
        },
{
    let (x, y) = (before->Tx_0, after->Tx_0);
    let k = i / 3;
    if i % 3 < 2 {
        assert((i + 1) / 3 == k && (i + 1) % 3 == i % 3 + 1);
        assert forall|j: int| 0 <= j < (i + 1) % 3 implies #[trigger] y.pcm_buf@[j] == frames[3 * ((i
            + 1) / 3) + j].samples->0 by {
            if j < i % 3 {
                assert(y.pcm_buf@[j] == x.pcm_buf@[j]);
            }
        }
    } else {
        assert((i + 1) / 3 == k + 1 && (i + 1) % 3 == 0);
        assert(advanced(x, y));
        lemma_advanced_at(config, id, k, x, y);
        lemma_sent_one(out);
        assert forall|j: int| 0 <= j < 3 implies #[trigger] pcm->0@[j] == frames[3 * k + j].samples->0
        by {
            if j < 2 {
                assert(pcm->0@[j] == x.pcm_buf@[j]);
            }
        }
    }
}

proof fn lemma_advanced_at(config: VoiceConfig, id: u32, k: int, x: TxCall, y: TxCall)
    requires
        k >= 0,
        at_burst(config, id, k, x),
        advanced(x, y),
    ensures
        at_burst(config, id, k + 1, y),
{
    lemma_place_after(k, x.dmrd_seq as int, x.superframe_idx as int);
    assert(is_rotation(config, y.lc_rotation@));
}

proof fn lemma_place_after(k: int, dmrd_seq: int, superframe_idx: int)
    requires
        k >= 0,
        dmrd_seq == (k + 1) % 256,
        superframe_idx == k / 6 % 0x1_0000_0000,
    ensures
        (dmrd_seq + 1) % 256 == (k + 2) % 256,
        (k % 6 + 1) % 6 == (k + 1) % 6,
        k % 6 == 5 ==> (superframe_idx + 1) % 0x1_0000_0000 == (k + 1) / 6 % 0x1_0000_0000,
        k % 6 != 5 ==> superframe_idx == (k + 1) / 6 % 0x1_0000_0000,
{
    if k % 6 == 5 {
        assert((k + 1) / 6 == k / 6 + 1);
    } else {
        assert((k + 1) / 6 == k / 6);
    }
}

/// The end of keying sends what is left, and the terminator.
#[verifier::rlimit(50)]
#[verifier::spinoff_prover]
proof fn lemma_unkeyed(
    config: VoiceConfig,
    frames: Seq<AudioFrame>,
    id: u32,
    now: u64,
    fresh_id: u32,
    pcm: Option<[PcmFrame; FRAMES_PER_BURST]>,
    encoded: Option<[AmbeFrame; FRAMES_PER_BURST]>,
    before: PttState,
    after: PttState,
    out: Seq<Action>,
)
    requires
        config.gateway != Direction::DmrToFm,
        frames.len() > 1,
        !frames[frames.len() - 1].keyup,
        keyed(config, frames, id, frames.len() - 1, before),
        encoded_step(
            config,
            before,
            frames[frames.len() - 1],
            now,
            fresh_id,
            pcm,
            encoded,
            after,
            out,
        ),
    ensures
        ({
            let n = frames.len() - 1;
            let m = (n + 2) / 3;
            let last = sent(out);
            &&& after is Idle
            &&& last.len() == if n % 3 == 0 {
                1int
            } else {
                2
            }
            &&& last.last() is Control
            &&& is_boundary_packet(
                config,
                ((m + 1) % 256) as u8,
                id,
                DATA_TYPE_VOICE_TERMINATOR,
                last.last()->Control_0@,
            )
            &&& n % 3 != 0 ==> {
                &&& last[0] is Voice
                &&& encoded is Some
                &&& is_voice_packet(config, before->Tx_0, encoded->0, last[0]->Voice_0@)
                &&& is_kth_audio(frames, n / 3, pcm)
            }
        }),
{
    let n = frames.len() - 1;
    let tx = before->Tx_0;
    lemma_closing_sent(config, tx, encoded, TerminationReason::Normal, out);
    if n % 3 == 0 {
        assert((n + 2) / 3 == n / 3);
    } else {
        assert((n + 2) / 3 == n / 3 + 1);
        lemma_rest_of_audio(frames, tx.pcm_buf@, pcm);
    }
}

/// The packets that close a transmission.
proof fn lemma_closing_sent(
    config: VoiceConfig,
    tx: TxCall,
    encoded: Option<[AmbeFrame; FRAMES_PER_BURST]>,
    reason: TerminationReason,
    out: Seq<Action>,
)
    requires
        closing(config, tx, encoded, reason, out),
        encoded is Some <==> tx.pcm_buf@.len() > 0,
    ensures
        ({
            let last = sent(out);
            &&& last.len() == if tx.pcm_buf@.len() == 0 {
                1int
            } else {
                2
            }
            &&& last.last() is Control
            &&& is_boundary_packet(
                config,
                if tx.pcm_buf@.len() == 0 {
                    tx.dmrd_seq
                } else {
                    next_seq(tx.dmrd_seq)
                },
                tx.stream_id,
                DATA_TYPE_VOICE_TERMINATOR,
                last.last()->Control_0@,
            )
            &&& tx.pcm_buf@.len() > 0 ==> {
                &&& last[0] is Voice
                &&& is_voice_packet(config, tx, encoded->0, last[0]->Voice_0@)
            }
        }),
{
    if tx.pcm_buf@.len() > 0 {
        let first = out.subrange(0, out.len() - 3);
        assert(burst_sent(config, tx, encoded, first));
        assert(first[0] == out[0]);
    }
    lemma_sent_ends(out);
}

/// The last frames of a transmission wait, and are filled with silence.
proof fn lemma_rest_of_audio(
    frames: Seq<AudioFrame>,
    buf: Seq<PcmFrame>,
    pcm: Option<[PcmFrame; FRAMES_PER_BURST]>,
)
    requires
        frames.len() > 1,
        pcm is Some,
        is_padded(buf, pcm->0),
        buf.len() == (frames.len() - 1) % 3,
        forall|j: int|
            0 <= j < buf.len() ==> #[trigger] buf[j] == frames[3 * ((frames.len() - 1) / 3)
                + j].samples->0,
    ensures
        is_kth_audio(frames, (frames.len() - 1) / 3, pcm),
{
    let n = frames.len() - 1;
    let k = n / 3;
    assert forall|j: int| 0 <= j < 3 implies if 3 * k + j < n {
        #[trigger] pcm->0@[j] == frames[3 * k + j].samples->0
    } else {
        forall|x: int| 0 <= x < 160 ==> pcm->0@[j]@[x] == 0
    } by {
        if j < buf.len() {
            assert(pcm->0@[j] == buf[j]);
        }
    }
}

proof fn lemma_sent_start(out: Seq<Action>)
    requires
        out.len() == 4,
        out[0] is ResetVocoder,
        out[1] is TxCallStart,
        out[2] is Stats,
        out[3] is Control,
    ensures
        sent(out) == seq![out[3]],
{
    reveal_with_fuel(sent, 5);
    assert(sent(out) =~= seq![out[3]]);
}

proof fn lemma_sent_one(out: Seq<Action>)
    requires
        out.len() == 1,
        out[0] is Voice,
    ensures
        sent(out) == seq![out[0]],
{
    reveal_with_fuel(sent, 2);
    assert(sent(out) =~= seq![out[0]]);
}

proof fn lemma_sent_ends(out: Seq<Action>)
    requires
        out.len() == 3 || (out.len() == 4 && out[0] is Voice),
        out[out.len() - 3] is Control,
        out[out.len() - 2] is Stats,
        out[out.len() - 1] is TxCallEnd,
    ensures
        out.len() == 3 ==> sent(out) == seq![out[0]],
        out.len() == 4 ==> sent(out) == seq![out[0], out[1]],
{
    reveal_with_fuel(sent, 5);
    if out.len() == 3 {
        assert(sent(out) =~= seq![out[0]]);
    } else {
        assert(sent(out) =~= seq![out[0], out[1]]);
    }
}

/// The steps of a transmission up to its `i`-th frame.
proof fn lemma_keyed(
    config: VoiceConfig,
    frames: Seq<AudioFrame>,
    now: Seq<u64>,
    fresh_id: Seq<u32>,
    pcm: Seq<Option<[PcmFrame; FRAMES_PER_BURST]>>,
    encoded: Seq<Option<[AmbeFrame; FRAMES_PER_BURST]>>,
    states: Seq<PttState>,
    outs: Seq<Seq<Action>>,
    i: int,
)
    requires
        is_transmission(config, frames, now, fresh_id, pcm, encoded, states, outs),
        1 <= i < frames.len(),
    ensures
        keyed(config, frames, fresh_id[0], i, states[i]),
        ({
            let packets = all_sent(outs.take(i));
            &&& packets.len() == 1 + i / 3
            &&& packets[0] is Control
            &&& is_boundary_packet(
                config,
                0,
                fresh_id[0],
                DATA_TYPE_VOICE_HEADER,
                packets[0]->Control_0@,
            )
            &&& forall|k: int|
                0 <= k < i / 3 ==> is_kth_sent(
                    config,
                    frames,
                    fresh_id[0],
                    k,
                    3 * k + 2,
                    pcm,
                    encoded,
                    states,
                    #[trigger] packets[1 + k],
                )
        }),
    decreases i,
{
    let (so_far, out) = (outs.take(i), outs[i - 1]);
    let packets = all_sent(so_far);
    assert(so_far.drop_last() =~= outs.take(i - 1) && so_far.last() == out);
    assert(frames[i - 1].keyup);
    if i == 1 {
        assert(outs.take(0) =~= seq![]);
        assert(all_sent(outs.take(0)) =~= seq![]);
        lemma_first_keyed(
            config,
            frames,
            now[0],
            fresh_id[0],
            pcm[0],
            encoded[0],
            states[0],
            states[1],
            out,
        );
        assert(packets =~= seq![out[3]]);
    } else {
        lemma_keyed(config, frames, now, fresh_id, pcm, encoded, states, outs, i - 1);
        let earlier = all_sent(outs.take(i - 1));
        lemma_next_keyed(
            config,
            frames,
            fresh_id[0],
            i - 1,
            now[i - 1],
            fresh_id[i - 1],
            pcm[i - 1],
            encoded[i - 1],
            states[i - 1],
            states[i],
            out,
        );
        assert(packets == earlier + sent(out));
        assert(packets[0] == earlier[0]);
        assert forall|k: int| 0 <= k < i / 3 implies is_kth_sent(
            config,
            frames,
            fresh_id[0],
            k,
            3 * k + 2,
            pcm,
            encoded,
            states,
            #[trigger] packets[1 + k],
        ) by {
            if k < (i - 1) / 3 {
                assert(packets[1 + k] == earlier[1 + k]);
            } else {
                assert(3 * k + 2 == i - 1);
            }
        }
    }
}

/// Law: a transmission of `n` frames of audio is a header, a voice packet for
/// every three frames begun, and a terminator, all of one stream, numbered in
/// turn from 0 modulo 256, after which the machine is idle.  Every sixth voice
/// packet begins a superframe, with the voice sync; a last burst that is short
/// of audio is filled with silence.
pub proof fn law_transmission(
    config: VoiceConfig,
    frames: Seq<AudioFrame>,
    now: Seq<u64>,
    fresh_id: Seq<u32>,
    pcm: Seq<Option<[PcmFrame; FRAMES_PER_BURST]>>,
    encoded: Seq<Option<[AmbeFrame; FRAMES_PER_BURST]>>,
    states: Seq<PttState>,
    outs: Seq<Seq<Action>>,
)
    requires
        is_transmission(config, frames, now, fresh_id, pcm, encoded, states, outs),
    ensures
        ({
            let n = frames.len() - 1;
            let m = (n + 2) / 3;
            let packets = all_sent(outs);
            &&& states[n + 1] is Idle
            &&& packets.len() == m + 2
            &&& packets[0] is Control
            &&& is_boundary_packet(
                config,
                0,
                fresh_id[0],
                DATA_TYPE_VOICE_HEADER,
                packets[0]->Control_0@,
            )
            &&& forall|k: int|
                0 <= k < m ==> is_kth_sent(
                    config,
                    frames,
                    fresh_id[0],
                    k,
                    burst_step(n, k),
                    pcm,
                    encoded,
                    states,
                    #[trigger] packets[1 + k],
                )
            &&& packets[m + 1] is Control
            &&& is_boundary_packet(
                config,
                ((m + 1) % 256) as u8,
                fresh_id[0],
                DATA_TYPE_VOICE_TERMINATOR,
                packets[m + 1]->Control_0@,
            )
        }),
{
    let n = frames.len() - 1;
    let m = (n + 2) / 3;
    let packets = all_sent(outs);
    let earlier = all_sent(outs.take(n));
    let last = sent(outs[n]);
    lemma_keyed(config, frames, now, fresh_id, pcm, encoded, states, outs, n);
    assert(outs.drop_last() =~= outs.take(n));
    lemma_unkeyed(
        config,
        frames,
        fresh_id[0],
        now[n],
        fresh_id[n],
        pcm[n],
        encoded[n],
        states[n],
        states[n + 1],
        outs[n],
    );
    assert(packets == earlier + last);
    assert(packets[0] == earlier[0]);
    assert(packets.last() == last.last());
    assert forall|k: int| 0 <= k < m implies is_kth_sent(
        config,
        frames,
        fresh_id[0],
        k,
        burst_step(n, k),
        pcm,
        encoded,
        states,
        #[trigger] packets[1 + k],
    ) by {
        if k < n / 3 {
            assert(packets[1 + k] == earlier[1 + k]);
            assert(burst_step(n, k) == 3 * k + 2);
        } else {
            assert(k == n / 3 && n % 3 != 0);
            assert(burst_step(n, k) == n);
            assert(packets[1 + k] == last[0]);
        }
    }
}

/// Actions that report the end of a call's metadata.
pub open spec fn is_clear(a: Action) -> bool {
    a matches Action::Meta(e) && e is Clear
}

/// Exactly one action is a `Clear`.
pub open spec fn one_clear(out: Seq<Action>) -> bool {
    exists|i: int|
        {
            &&& 0 <= i < out.len()
            &&& #[trigger] is_clear(out[i])
            &&& forall|j: int| 0 <= j < out.len() && j != i ==> !#[trigger] is_clear(out[j])
        }
}

/// No action is a `Clear`.
pub open spec fn no_clear(out: Seq<Action>) -> bool {
    forall|j: int| 0 <= j < out.len() ==> !#[trigger] is_clear(out[j])
}

/// Law: metadata is cleared exactly once for a received call: by the packet
/// that ends it, and by no other packet.
pub proof fn law_packet_clears_once(
    config: VoiceConfig,
    state: PttState,
    pkt: Dmrd,
    now: u64,
    who: Option<(String, String)>,
)
    ensures
        ({
            let out = rx_actions(config, state, pkt, who);
            let after = rx_state(config, state, pkt, now);
            if state is Rx && !(after is Rx) {
                one_clear(out)
            } else {
                no_clear(out)
            }
        }),
{
    let out = rx_actions(config, state, pkt, who);
    let after = rx_state(config, state, pkt, now);
    if state is Rx && !(after is Rx) {
        assert(is_clear(out[1]));
        assert forall|j: int| 0 <= j < out.len() && j != 1 implies !#[trigger] is_clear(out[j]) by {}
    } else if listens(config, state, pkt) && is_header(pkt) && !in_stream(state, pkt.stream_id) {
        let a = takeover_actions(state, pkt);
        let b = seq![Action::CheckLc] + meta_actions(config, pkt, who);
        let c = seq![rx_call_start(pkt), Action::ResetVocoder, Action::RxCallStart(pkt.stream_id)];
        assert(out =~= a + b + c);
        assert forall|j: int| 0 <= j < out.len() implies !#[trigger] is_clear(out[j]) by {
            if j < a.len() {
                assert(out[j] == a[j]);
            } else if j < a.len() + b.len() {
                assert(out[j] == b[j - a.len()]);
            } else {
                assert(out[j] == c[j - a.len() - b.len()]);
            }
        }
    } else if listens(config, state, pkt) && is_voice(pkt) {
        let a = takeover_actions(state, pkt);
        let b = if in_stream(state, pkt.stream_id) {
            seq![]
        } else {
            seq![Action::ResetVocoder, Action::RxCallStart(pkt.stream_id), rx_call_start(pkt)]
                + meta_actions(config, pkt, who)
        };
        let c = drops(CallDirection::DmrToFm, seq_gap(state, pkt));
        assert(no_clear(a));
        assert(no_clear(b));
        assert(no_clear(c));
        assert forall|j: int| 0 <= j < out.len() implies !#[trigger] is_clear(out[j]) by {
            if j < a.len() {
                assert(out[j] == a[j]);
            } else if j < a.len() + b.len() {
                assert(out[j] == b[j - a.len()]);
            } else if j < a.len() + b.len() + c.len() {
                assert(out[j] == c[j - a.len() - b.len()]);
            }
        }
    }
}

/// Law: metadata is cleared exactly once for a received call that times out,
/// and not at all otherwise.
pub proof fn law_timeout_clears_once(
    config: VoiceConfig,
    before: PttState,
    now: u64,
    encoded: Option<[AmbeFrame; FRAMES_PER_BURST]>,
    after: PttState,
    out: Seq<Action>,
)
    requires
        timeout_step(config, before, now, encoded, after, out),
    ensures
        before is Rx ==> one_clear(out) && !(after is Rx),
        !(before is Rx) ==> no_clear(out),
{
    if before is Rx {
        assert(is_clear(out[0]));
    } else {
        lemma_closing_no_clear(config, before, encoded, TerminationReason::TxTimeout, out);
    }
}

/// Law: stopping during a received call clears its metadata once; stopping in
/// the hang time after it does not clear it again.
pub proof fn law_shutdown_clears_once(
    config: VoiceConfig,
    before: PttState,
    encoded: Option<[AmbeFrame; FRAMES_PER_BURST]>,
    after: PttState,
    out: Seq<Action>,
)
    requires
        shutdown_step(config, before, encoded, after, out),
    ensures
        before is Rx ==> one_clear(out),
        !(before is Rx) ==> no_clear(out),
{
    if before is Rx {
        assert(is_clear(out[0]));
    } else {
        lemma_closing_no_clear(config, before, encoded, TerminationReason::Shutdown, out);
    }
}

proof fn lemma_closing_no_clear(
    config: VoiceConfig,
    before: PttState,
    encoded: Option<[AmbeFrame; FRAMES_PER_BURST]>,
    reason: TerminationReason,
    out: Seq<Action>,
)
    ensures
        before is Tx && closing(config, before->Tx_0, encoded, reason, out) ==> no_clear(out),
{
    if before is Tx && closing(config, before->Tx_0, encoded, reason, out) {
        let tx = before->Tx_0;
        let n = out.len() - 3;
        let first = out.subrange(0, n);
        assert forall|j: int| 0 <= j < out.len() implies !#[trigger] is_clear(out[j]) by {
            if j < n {
                assert(out[j] == first[j]);
                assert(burst_sent(config, tx, encoded, first));
                if encoded is Some {
                    assert(first[0] is Voice);
                } else {
                    let lost = drops(CallDirection::FmToDmr, 3);
                    assert(first == lost && lost.len() == 3);
                    assert(lost[j] == Action::Stats(
                        StatsEvent::Drop { dir: CallDirection::FmToDmr },
                    ));
                }
            } else if j == n {
                assert(out[j] is Control);
            } else if j == n + 1 {
                assert(out[j] == call_end(CallDirection::FmToDmr, reason));
            } else {
                assert(out[j] == Action::TxCallEnd(tx.stream_id));
            }
        }
    }
}

/// Law: six bursts make a superframe: the place in the superframe comes round,
/// the next LC of the rotation is due, and the packets are numbered on.
#[verifier::spinoff_prover]
pub proof fn law_superframe(t: Seq<TxCall>)
    requires
        t.len() == 7,
        t[0].vseq < 6,
        forall|i: int| 0 <= i < 6 ==> advanced(#[trigger] t[i], t[i + 1]),
    ensures
        t[6].vseq == t[0].vseq,
        t[6].superframe_idx == (t[0].superframe_idx + 1) % 0x1_0000_0000,
        t[6].dmrd_seq == (t[0].dmrd_seq + 6) % 256,
        t[6].lc_rotation@ == t[0].lc_rotation@,
        t[6].stream_id == t[0].stream_id,
{
    assert(advanced(t[0], t[1]));
    lemma_superframe_step(t[0], t[0], t[1], 0);
    assert(advanced(t[1], t[2]));
    lemma_superframe_step(t[0], t[1], t[2], 1);
    assert(advanced(t[2], t[3]));
    lemma_superframe_step(t[0], t[2], t[3], 2);
    assert(advanced(t[3], t[4]));
    lemma_superframe_step(t[0], t[3], t[4], 3);
    assert(advanced(t[4], t[5]));
    lemma_superframe_step(t[0], t[4], t[5], 4);
    assert(advanced(t[5], t[6]));
    lemma_superframe_step(t[0], t[5], t[6], 5);
}

/// Burst `i` after `start`.
proof fn lemma_superframe_step(start: TxCall, a: TxCall, b: TxCall, i: int)
    requires
        start.vseq < 6,
        0 <= i < 6,
        advanced(a, b),
        a.dmrd_seq == (start.dmrd_seq + i) % 256,
        a.vseq == (start.vseq + i) % 6,
        a.superframe_idx == (start.superframe_idx + (if start.vseq + i >= 6 {
            1int
        } else {
            0
        })) % 0x1_0000_0000,
        a.lc_rotation@ == start.lc_rotation@,
        a.stream_id == start.stream_id,
    ensures
        b.dmrd_seq == (start.dmrd_seq + i + 1) % 256,
        b.vseq == (start.vseq + i + 1) % 6,
        b.superframe_idx == (start.superframe_idx + (if start.vseq + i + 1 >= 6 {
            1int
        } else {
            0
        })) % 0x1_0000_0000,
        b.lc_rotation@ == start.lc_rotation@,
        b.stream_id == start.stream_id,
{
}

/// Law: a receiver that collects the four fragments of an LC reads the LC.
pub proof fn law_fragments_readable(lc: Seq<u8>, f: [[u8; 4]; 4], received: Seq<u8>)
    requires
        lc.len() == 72,
        all_bits(lc),
        is_fragments_of(lc, f),
        received.len() == 128,
        forall|n: int, k: int|
            0 <= n < 4 && 0 <= k < 32 ==> received[32 * n + k] == #[trigger] bit_of(
                f@[n]@[k / 8],
                k % 8,
            ),
    ensures
        decoded_raw(received) == Ok::<Seq<u8>, DecodeError>(bytes_of(lc)),
{
    let raw = choose|raw: Seq<u8>| #[trigger]
        is_raw_of(lc, raw) && forall|n: int, i: int|
            0 <= n < 4 && 0 <= i < 4 ==> #[trigger] f@[n]@[i] == byte_at(raw, 32 * n + 8 * i);
    law_raw_is_bits(lc, raw);
    assert forall|j: int| 0 <= j < 128 implies received[j] == raw[j] by {
        let n = j / 32;
        let k = j % 32;
        assert(received[32 * n + k] == bit_of(f@[n]@[k / 8], k % 8));
        assert(f@[n]@[k / 8] == byte_at(raw, 32 * n + 8 * (k / 8)));
        lemma_byte_has_bits(raw, 32 * n + 8 * (k / 8), k % 8);
        assert(32 * n + 8 * (k / 8) + k % 8 == j);
    }
    assert(received =~= raw);
    law_embedded_round_trip(lc, raw);
}

/// Law: a header or terminator that is sent is received as such, from the
/// configured subscriber; in a group call, by every bridge of the same
/// configuration.
pub proof fn law_boundary_received(
    config: VoiceConfig,
    seq: u8,
    stream_id: u32,
    data_type: u8,
    w: Seq<u8>,
    r: Result<Dmrd, DmrdError>,
)
    requires
        data_type == DATA_TYPE_VOICE_HEADER || data_type == DATA_TYPE_VOICE_TERMINATOR,
        is_boundary_packet(config, seq, stream_id, data_type, w),
        parses_to(w, r),
    ensures
        r matches Ok(pkt) && {
            &&& is_header(pkt) <==> data_type == DATA_TYPE_VOICE_HEADER
            &&& is_terminator(pkt) <==> data_type == DATA_TYPE_VOICE_TERMINATOR
            &&& pkt.seq == seq
            &&& pkt.stream_id == stream_id
            &&& pkt.src_id == config.src_id.id()
            &&& config.call_type is Group ==> is_for_us(pkt, config)
        },
{
    reveal(is_boundary_packet);
    let (bits, code, burst) = choose|bits: Seq<u8>, code: Seq<u8>, burst: [u8; DMR_DATA_SIZE]|
     #[trigger]
        is_lc_burst_of(config, data_type, bits, code, burst@) && is_packet_of(
            outgoing(config, seq, stream_id, FrameType::DataSync, data_type, burst),
            w,
        );
    law_parse_inverts_serialize(
        outgoing(config, seq, stream_id, FrameType::DataSync, data_type, burst),
        w,
        r,
    );
}

/// Law: voice that is sent is received: the packet of a burst reads back as
/// voice of the call, and the frames to decode are the frames that were
/// encoded.
pub proof fn law_voice_received(
    config: VoiceConfig,
    tx: TxCall,
    ambe: [AmbeFrame; FRAMES_PER_BURST],
    w: Seq<u8>,
    r: Result<Dmrd, DmrdError>,
    state: PttState,
    received: RxBurst,
)
    requires
        tx.vseq < 6,
        is_voice_packet(config, tx, ambe, w),
        parses_to(w, r),
        r matches Ok(pkt) ==> is_rx_burst(state, pkt, received),
    ensures
        r matches Ok(pkt) && {
            &&& is_voice(pkt)
            &&& pkt.seq == tx.dmrd_seq
            &&& pkt.stream_id == tx.stream_id
            &&& pkt.src_id == config.src_id.id()
            &&& config.call_type is Group ==> is_for_us(pkt, config)
        },
        forall|n: int| 0 <= n < 3 ==> (#[trigger] received.frames@[n])@ == ambe@[n]@,
{
    reveal(is_voice_packet);
    let (sync, burst) = choose|sync: [u8; 6], burst: [u8; DMR_DATA_SIZE]|
        {
            &&& #[trigger] is_middle_section(config, tx, sync@)
            &&& dibits_of(burst@) == burst_dibits(ambe@[0]@, ambe@[1]@, ambe@[2]@, sync@)
            &&& #[trigger] is_packet_of(voice_dmrd(config, tx, burst), w)
        };
    law_parse_inverts_serialize(voice_dmrd(config, tx, burst), w, r);
    law_codewords_extracted(ambe, sync, burst, received.frames);
}

/// Law: voice of the configured call keeps the call alive: after it the machine
/// receives the packet's stream and waits for the stream timeout from then on,
/// whatever it did before, unless it transmits.
pub proof fn law_voice_renews_deadline(config: VoiceConfig, state: PttState, pkt: Dmrd, now: u64, t: u64)
    requires
        config.gateway is Both || config.gateway is DmrToFm,
        is_for_us(pkt, config),
        pkt.frame_type is Voice || pkt.frame_type is VoiceSync,
        !(state is Tx),
    ensures
        ({
            let after = rx_state(config, state, pkt, now);
            &&& after is Rx
            &&& after->Rx_0.stream_id == pkt.stream_id
            &&& after->Rx_0.last_seq == Some(pkt.seq)
            &&& after->Rx_0.last_voice == now
            &&& deadline_of(config, after, t) == now + config.stream_timeout
            &&& state is Rx && state->Rx_0.stream_id == pkt.stream_id ==> after->Rx_0.started
                == state->Rx_0.started && after->Rx_0.src_id == state->Rx_0.src_id
                && after->Rx_0.dst_id == state->Rx_0.dst_id && after->Rx_0.slot == state->Rx_0.slot
            &&& !(state is Rx && state->Rx_0.stream_id == pkt.stream_id) ==> after->Rx_0.started == now
                && after->Rx_0.src_id == pkt.src_id && after->Rx_0.dst_id == pkt.dst_id
                && after->Rx_0.slot == pkt.slot
        }),
{
}

/// Law: a call that is received without a break, with never more than the stream
/// timeout between two voice packets, is never cut: whenever the next packet comes
/// the deadline has not passed.
pub proof fn law_call_goes_on(
    config: VoiceConfig,
    state: PttState,
    pkts: Seq<Dmrd>,
    times: Seq<u64>,
    states: Seq<PttState>,
    k: int,
)
    requires
        config.gateway is Both || config.gateway is DmrToFm,
        pkts.len() == times.len(),
        states.len() == pkts.len() + 1,
        states[0] == state,
        !(state is Tx),
        forall|i: int|
            0 <= i < pkts.len() ==> {
                &&& is_for_us(#[trigger] pkts[i], config)
                &&& pkts[i].frame_type is Voice || pkts[i].frame_type is VoiceSync
                &&& states[i + 1] == rx_state(config, states[i], pkts[i], times[i])
            },
        forall|i: int, j: int|
            0 <= i && j == i + 1 && j < times.len() ==> #[trigger] times[i] <= #[trigger] times[j]
                <= times[i] + config.stream_timeout,
        1 <= k < pkts.len(),
    ensures
        states[k] is Rx,
        times[k] <= deadline_of(config, states[k], times[k]),
    decreases k,
{
    let i = k - 1;
    assert(is_for_us(pkts[i], config));
    if i > 0 {
        law_call_goes_on(config, state, pkts, times, states, i);
    }
    assert(states[i + 1] == rx_state(config, states[i], pkts[i], times[i]));
    law_voice_renews_deadline(config, states[i], pkts[i], times[i], times[k]);
    assert(times[i] <= times[k] <= times[i] + config.stream_timeout);
}

/// Law: a voice header begins a call: the machine receives the packet's stream, of
/// its source and destination, from then on.
pub proof fn law_header_begins_call(
    config: VoiceConfig,
    state: PttState,
    pkt: Dmrd,
    now: u64,
    t: u64,
    who: Option<(String, String)>,
)
    requires
        config.gateway is Both || config.gateway is DmrToFm,
        is_for_us(pkt, config),
        pkt.frame_type is DataSync,
        pkt.dtype_vseq == 1,
        !(state is Tx),
        !(state is Rx && state->Rx_0.stream_id == pkt.stream_id),
    ensures
        ({
            let after = rx_state(config, state, pkt, now);
            let out = rx_actions(config, state, pkt, who);
            &&& after is Rx
            &&& after->Rx_0.stream_id == pkt.stream_id
            &&& after->Rx_0.src_id == pkt.src_id
            &&& after->Rx_0.dst_id == pkt.dst_id
            &&& after->Rx_0.slot == pkt.slot
            &&& after->Rx_0.started == now
            &&& after->Rx_0.last_voice == now
            &&& after->Rx_0.last_seq is None
            &&& deadline_of(config, after, t) == now + config.stream_timeout
            &&& out.len() >= 4
            &&& out.last() == Action::RxCallStart(pkt.stream_id)
            &&& out[out.len() - 2] is ResetVocoder
            &&& out[out.len() - 3] == Action::Stats(
                StatsEvent::CallStart {
                    dir: CallDirection::DmrToFm,
                    src_id: pkt.src_id,
                    dst_id: pkt.dst_id,
                    slot: pkt.slot,
                },
            )
            &&& out.contains(Action::CheckLc)
        }),
{
    let out = rx_actions(config, state, pkt, who);
    let n = takeover_actions(state, pkt).len() as int;
    assert(out[n] == Action::CheckLc);
}

/// Law: who is talking is reported with the first packet of a call, header or
/// voice, where source and destination are proper addresses: with the packet's
/// addresses and slot, the configured color code, and the callsign and name that are
/// known and not empty.  Nothing else reports a call.
pub proof fn law_metadata_reported(
    config: VoiceConfig,
    state: PttState,
    pkt: Dmrd,
    who: Option<(String, String)>,
    i: int,
)
    requires
        0 <= i < rx_actions(config, state, pkt, who).len(),
    ensures
        rx_actions(config, state, pkt, who)[i] matches Action::Meta(MetaEvent::Call(m)) ==> {
            &&& !(state is Rx && state->Rx_0.stream_id == pkt.stream_id)
            &&& m.dmr_id.id() == pkt.src_id
            &&& m.tg.id() == pkt.dst_id
            &&& m.slot == pkt.slot
            &&& m.cc == config.color_code
            &&& m.call == (match who {
                Some(w) if w.0@.len() > 0 => Some(w.0),
                _ => None,
            })
            &&& m.name == (match who {
                Some(w) if w.1@.len() > 0 => Some(w.1),
                _ => None,
            })
        },
{
    law_identities(pkt.src_id, 0);
    law_identities(pkt.dst_id, 0);
    let out = rx_actions(config, state, pkt, who);
    if listens(config, state, pkt) && (is_header(pkt) || is_voice(pkt)) && !in_stream(
        state,
        pkt.stream_id,
    ) {
        let a = takeover_actions(state, pkt);
        if i < a.len() {
            assert(out[i] == a[i]);
        }
    } else if listens(config, state, pkt) && is_voice(pkt) {
        let c = drops(CallDirection::DmrToFm, seq_gap(state, pkt));
        if i < c.len() {
            assert(out[i] == c[i]);
        }
    }
}

/// Law: a call with proper addresses is reported once, with its first packet.
pub proof fn law_metadata_once(
    config: VoiceConfig,
    state: PttState,
    pkt: Dmrd,
    now: u64,
    who: Option<(String, String)>,
)
    requires
        config.gateway is Both || config.gateway is DmrToFm,
        is_for_us(pkt, config),
        (pkt.frame_type is DataSync && pkt.dtype_vseq == 1) || pkt.frame_type is Voice
            || pkt.frame_type is VoiceSync,
        !(state is Tx),
        !(state is Rx && state->Rx_0.stream_id == pkt.stream_id),
        0 < pkt.src_id <= 0xFF_FFFF,
        0 < pkt.dst_id <= 0xFF_FFFF,
    ensures
        exists|i: int|
            {
                &&& 0 <= i < rx_actions(config, state, pkt, who).len()
                &&& #[trigger] rx_actions(config, state, pkt, who)[i] matches Action::Meta(e) && e is Call
                &&& forall|j: int|
                    0 <= j < rx_actions(config, state, pkt, who).len() && j != i
                        ==> !(#[trigger] rx_actions(config, state, pkt, who)[j] is Meta)
            },
{
    law_identities(pkt.src_id, 0);
    law_identities(pkt.dst_id, 0);
    let out = rx_actions(config, state, pkt, who);
    let a = takeover_actions(state, pkt);
    let meta = meta_actions(config, pkt, who);
    assert(meta.len() == 1);
    assert(seq_gap(state, pkt) == 0);
    assert(drops(CallDirection::DmrToFm, 0) =~= seq![]);
    let i = a.len() + if is_header(pkt) {
        1int
    } else {
        3
    };
    assert(out[i] == meta[0]);
    assert forall|j: int| 0 <= j < out.len() && j != i implies !(#[trigger] out[j] is Meta) by {
        if j < a.len() {
            assert(out[j] == a[j]);
        }
    }
}

/// Law: a terminator of the call that is received ends it: the FM side hears of it,
/// its metadata is cleared, and the channel is held for the hang time.
pub proof fn law_terminator_ends_call(
    config: VoiceConfig,
    state: PttState,
    pkt: Dmrd,
    now: u64,
    t: u64,
    who: Option<(String, String)>,
)
    requires
        config.gateway is Both || config.gateway is DmrToFm,
        is_for_us(pkt, config),
        pkt.frame_type is DataSync,
        pkt.dtype_vseq == 2,
        state is Rx && state->Rx_0.stream_id == pkt.stream_id,
        now + config.hang_time <= u64::MAX,
    ensures
        rx_state(config, state, pkt, now) is RxHang,
        deadline_of(config, rx_state(config, state, pkt, now), t) == now + config.hang_time,
        rx_actions(config, state, pkt, who) == seq![
            Action::CheckLc,
            Action::Meta(MetaEvent::Clear),
            Action::Stats(
                StatsEvent::CallEnd {
                    dir: CallDirection::DmrToFm,
                    reason: TerminationReason::Normal,
                },
            ),
            Action::RxCallEnd(pkt.stream_id),
            Action::Audio(
                AudioFrame { keyup: false, samples: None, dmr_stream_id: Some(pkt.stream_id) },
            ),
        ],
{
    assert(rx_actions(config, state, pkt, who) =~= seq![
        Action::CheckLc,
        Action::Meta(MetaEvent::Clear),
        Action::Stats(
            StatsEvent::CallEnd {
                dir: CallDirection::DmrToFm,
                reason: TerminationReason::Normal,
            },
        ),
        Action::RxCallEnd(pkt.stream_id),
        Action::Audio(
            AudioFrame { keyup: false, samples: None, dmr_stream_id: Some(pkt.stream_id) },
        ),
    ]);
}

/// Law: packets that are not of the configured call, or of no use in it, and all
/// packets where nothing is forwarded from DMR, change nothing.
pub proof fn law_other_packets_ignored(
    config: VoiceConfig,
    state: PttState,
    pkt: Dmrd,
    now: u64,
    who: Option<(String, String)>,
)
    requires
        config.gateway is FmToDmr || !is_for_us(pkt, config) || (pkt.frame_type is DataSync
            && pkt.dtype_vseq != 1 && pkt.dtype_vseq != 2),
    ensures
        rx_state(config, state, pkt, now) == state,
        rx_actions(config, state, pkt, who) == Seq::<Action>::empty(),
{
}

/// Law: of `missing` voice packets that were lost in a call each counts as a drop;
/// up to three of them are filled in, with three frames each, and more start the
/// vocoder afresh.  A packet that comes late or twice fills nothing in.
pub proof fn law_gap(
    config: VoiceConfig,
    state: PttState,
    pkt: Dmrd,
    who: Option<(String, String)>,
    burst: RxBurst,
    last: u8,
    missing: int,
)
    requires
        config.gateway is Both || config.gateway is DmrToFm,
        is_for_us(pkt, config),
        pkt.frame_type is Voice || pkt.frame_type is VoiceSync,
        state is Rx && state->Rx_0.stream_id == pkt.stream_id,
        state->Rx_0.last_seq == Some(last),
        0 <= missing < 256,
        pkt.seq == (last + 1 + missing) % 256,
        is_rx_burst(state, pkt, burst),
    ensures
        ({
            let out = rx_actions(config, state, pkt, who);
            let lost = if missing < 128 {
                missing
            } else {
                0
            };
            &&& burst.gap_frames == (if lost <= 3 {
                3 * lost
            } else {
                0
            })
            &&& out.len() == (if lost <= 3 {
                lost
            } else {
                lost + 1
            })
            &&& forall|i: int|
                0 <= i < lost ==> #[trigger] out[i] == Action::Stats(
                    StatsEvent::Drop { dir: CallDirection::DmrToFm },
                )
            &&& lost > 3 ==> out.last() is ResetVocoder
        }),
{
    let out = rx_actions(config, state, pkt, who);
    let g = seq_gap(state, pkt);
    assert(g == if missing < 128 {
        missing
    } else {
        0
    });
    let c = drops(CallDirection::DmrToFm, g);
    assert forall|i: int| 0 <= i < g implies #[trigger] out[i] == Action::Stats(
        StatsEvent::Drop { dir: CallDirection::DmrToFm },
    ) by {
        assert(out[i] == c[i]);
    }
}

/// Law: voice that opens a call has no gap before it, and the vocoder starts
/// afresh.
pub proof fn law_first_voice(
    config: VoiceConfig,
    state: PttState,
    pkt: Dmrd,
    who: Option<(String, String)>,
    burst: RxBurst,
)
    requires
        config.gateway is Both || config.gateway is DmrToFm,
        is_for_us(pkt, config),
        pkt.frame_type is Voice || pkt.frame_type is VoiceSync,
        !(state is Tx),
        is_rx_burst(state, pkt, burst),
        state is Rx && state->Rx_0.stream_id == pkt.stream_id ==> state->Rx_0.last_seq is None,
    ensures
        burst.gap_frames == 0,
        ({
            let out = rx_actions(config, state, pkt, who);
            if state is Rx && state->Rx_0.stream_id == pkt.stream_id {
                out.len() == 0
            } else {
                let n: int = if state is Rx {
                    3
                } else {
                    0
                };
                &&& out.len() >= n + 3
                &&& out[n] is ResetVocoder
                &&& out[n + 1] == Action::RxCallStart(pkt.stream_id)
                &&& out[n + 2] == Action::Stats(
                    StatsEvent::CallStart {
                        dir: CallDirection::DmrToFm,
                        src_id: pkt.src_id,
                        dst_id: pkt.dst_id,
                        slot: pkt.slot,
                    },
                )
            }
        }),
{
    assert(drops(CallDirection::DmrToFm, 0) =~= seq![]);
}

/// Law: the frames to decode are those of the packet's burst: its first nine bytes,
/// the four bytes and a half on either side of the sync section, and its last nine
/// bytes; they belong to the packet's stream.
pub proof fn law_burst_to_decode(state: PttState, pkt: Dmrd, burst: RxBurst)
    requires
        is_rx_burst(state, pkt, burst),
    ensures
        burst.stream_id == pkt.stream_id,
        forall|i: int| 0 <= i < 9 ==> #[trigger] burst.frames@[0]@[i] == pkt.dmr_data@[i],
        forall|i: int| 0 <= i < 4 ==> #[trigger] burst.frames@[1]@[i] == pkt.dmr_data@[9 + i],
        burst.frames@[1]@[4] == pkt.dmr_data@[13] / 16 * 16 + pkt.dmr_data@[19] % 16,
        forall|i: int| 5 <= i < 9 ==> #[trigger] burst.frames@[1]@[i] == pkt.dmr_data@[15 + i],
        forall|i: int| 0 <= i < 9 ==> #[trigger] burst.frames@[2]@[i] == pkt.dmr_data@[24 + i],
{
    law_codeword_places(pkt.dmr_data, burst.frames);
}

/// Law: decoded audio goes to the FM side keyed, as it is, under its stream.
pub proof fn law_audio_to_fm(audio: [i16; VOICE_SAMPLES], stream_id: u32)
    ensures
        voice_frame(audio, stream_id).keyup,
        voice_frame(audio, stream_id).samples == Some(audio),
        voice_frame(audio, stream_id).dmr_stream_id == Some(stream_id),
{
}

/// Law: what the passing of a deadline does: a received call is cut, with its
/// metadata cleared and the FM side unkeyed, and the channel held for the hang time;
/// the hang time ends; a transmission ends if it has lasted as long as it may, and
/// not before.
pub proof fn law_deadlines(
    config: VoiceConfig,
    before: PttState,
    now: u64,
    t: u64,
    encoded: Option<[AmbeFrame; FRAMES_PER_BURST]>,
    after: PttState,
    out: Seq<Action>,
)
    requires
        timeout_step(config, before, now, encoded, after, out),
        now + config.hang_time <= u64::MAX,
    ensures
        before is Idle || before is RxHang ==> after is Idle && out.len() == 0,
        before is Rx ==> {
            &&& after is RxHang
            &&& deadline_of(config, after, t) == now + config.hang_time
            &&& out == seq![
                Action::Meta(MetaEvent::Clear),
                Action::Stats(
                    StatsEvent::CallEnd {
                        dir: CallDirection::DmrToFm,
                        reason: TerminationReason::StreamTimeout,
                    },
                ),
                Action::RxCallEnd(before->Rx_0.stream_id),
                Action::Audio(
                    AudioFrame {
                        keyup: false,
                        samples: None,
                        dmr_stream_id: Some(before->Rx_0.stream_id),
                    },
                ),
            ]
        },
        before is Tx && now < before->Tx_0.started + config.tx_timeout ==> after == before && out.len()
            == 0,
        before is Tx && now >= before->Tx_0.started + config.tx_timeout ==> {
            &&& after is Idle
            &&& out.len() >= 3
            &&& out[out.len() - 3] is Control
            &&& out[out.len() - 2] == Action::Stats(
                StatsEvent::CallEnd {
                    dir: CallDirection::FmToDmr,
                    reason: TerminationReason::TxTimeout,
                },
            )
            &&& out[out.len() - 1] == Action::TxCallEnd(before->Tx_0.stream_id)
        },
{
    if before is Rx {
        assert(out =~= seq![
            Action::Meta(MetaEvent::Clear),
            Action::Stats(
                StatsEvent::CallEnd {
                    dir: CallDirection::DmrToFm,
                    reason: TerminationReason::StreamTimeout,
                },
            ),
            Action::RxCallEnd(before->Rx_0.stream_id),
            Action::Audio(
                AudioFrame {
                    keyup: false,
                    samples: None,
                    dmr_stream_id: Some(before->Rx_0.stream_id),
                },
            ),
        ]);
    }
}

/// Law: when the bridge stops the machine is idle, the FM side is unkeyed after a
/// received call and in its hang time, and a transmission ends with its
/// terminator.
pub proof fn law_shutdown(
    config: VoiceConfig,
    before: PttState,
    encoded: Option<[AmbeFrame; FRAMES_PER_BURST]>,
    after: PttState,
    out: Seq<Action>,
)
    requires
        shutdown_step(config, before, encoded, after, out),
    ensures
        after is Idle,
        before is Idle ==> out.len() == 0,
        before is RxHang ==> out == seq![
            Action::Audio(AudioFrame { keyup: false, samples: None, dmr_stream_id: None }),
        ],
        before is Rx ==> out == seq![
            Action::Meta(MetaEvent::Clear),
            Action::Stats(
                StatsEvent::CallEnd {
                    dir: CallDirection::DmrToFm,
                    reason: TerminationReason::Shutdown,
                },
            ),
            Action::RxCallEnd(before->Rx_0.stream_id),
            Action::Audio(
                AudioFrame {
                    keyup: false,
                    samples: None,
                    dmr_stream_id: Some(before->Rx_0.stream_id),
                },
            ),
        ],
        before is Tx ==> {
            &&& out.len() >= 3
            &&& out[out.len() - 3] is Control
            &&& out[out.len() - 2] == Action::Stats(
                StatsEvent::CallEnd {
                    dir: CallDirection::FmToDmr,
                    reason: TerminationReason::Shutdown,
                },
            )
            &&& out[out.len() - 1] == Action::TxCallEnd(before->Tx_0.stream_id)
        },
{
    if before is Rx {
        assert(out =~= seq![
            Action::Meta(MetaEvent::Clear),
            Action::Stats(
                StatsEvent::CallEnd {
                    dir: CallDirection::DmrToFm,
                    reason: TerminationReason::Shutdown,
                },
            ),
            Action::RxCallEnd(before->Rx_0.stream_id),
            Action::Audio(
                AudioFrame {
                    keyup: false,
                    samples: None,
                    dmr_stream_id: Some(before->Rx_0.stream_id),
                },
            ),
        ]);
    }
}

/// Law: a renewed network session is reported as the end of a transmission, which
/// is not followed by a packet, and of nothing else.
pub proof fn law_network_reset(before: PttState)
    ensures
        before is Tx ==> reset_actions(before) == seq![
            Action::Stats(
                StatsEvent::CallEnd {
                    dir: CallDirection::FmToDmr,
                    reason: TerminationReason::NetworkReset,
                },
            ),
            Action::TxCallEnd(before->Tx_0.stream_id),
        ],
        !(before is Tx) ==> reset_actions(before).len() == 0,
{
    if before is Tx {
        assert(reset_actions(before) =~= seq![
            Action::Stats(
                StatsEvent::CallEnd {
                    dir: CallDirection::FmToDmr,
                    reason: TerminationReason::NetworkReset,
                },
            ),
            Action::TxCallEnd(before->Tx_0.stream_id),
        ]);
    }
}

/// Law: the first keyed audio begins a transmission: a header goes out, numbered 0
/// and of the new stream, and the frame waits for two more.  It may last as long as
/// the transmit timeout from then on.
pub proof fn law_key_begins_transmission(
    config: VoiceConfig,
    before: PttState,
    frame: AudioFrame,
    now: u64,
    t: u64,
    fresh_id: u32,
    encoded: Option<[AmbeFrame; FRAMES_PER_BURST]>,
    after: PttState,
    out: Seq<Action>,
)
    requires
        config.gateway is Both || config.gateway is FmToDmr,
        before is Idle,
        frame.keyup,
        frame.samples is Some,
        audio_step(config, before, frame, now, fresh_id, encoded, after, out),
    ensures
        after is Tx,
        after->Tx_0.stream_id == fresh_id,
        after->Tx_0.started == now,
        after->Tx_0.dmrd_seq == 1,
        after->Tx_0.vseq == 0,
        after->Tx_0.superframe_idx == 0,
        after->Tx_0.pcm_buf@ == seq![frame.samples->0],
        deadline_of(config, after, t) == now + config.tx_timeout,
        out.len() == 4,
        out[0] is ResetVocoder,
        out[1] == Action::TxCallStart(fresh_id),
        out[2] == Action::Stats(
            StatsEvent::CallStart {
                dir: CallDirection::FmToDmr,
                src_id: config.src_id.id(),
                dst_id: config.talkgroup.id(),
                slot: config.slot,
            },
        ),
        out[3] is Control,
        is_boundary_packet(config, 0, fresh_id, 1, out[3]->Control_0@),
{
}

/// Law: keyed audio in a transmission is collected, three frames to a burst, in the
/// order in which it comes; the third sends the burst, which takes the next number
/// and the next place in the superframe, or is lost where it could not be encoded.
pub proof fn law_audio_collected(
    config: VoiceConfig,
    before: PttState,
    frame: AudioFrame,
    now: u64,
    fresh_id: u32,
    pcm: Option<[PcmFrame; FRAMES_PER_BURST]>,
    encoded: Option<[AmbeFrame; FRAMES_PER_BURST]>,
    after: PttState,
    out: Seq<Action>,
)
    requires
        config.gateway is Both || config.gateway is FmToDmr,
        before is Tx,
        before->Tx_0.pcm_buf@.len() < 3,
        before->Tx_0.vseq < 6,
        frame.keyup,
        frame.samples is Some,
        is_audio_burst(config, before, frame, pcm),
        audio_step(config, before, frame, now, fresh_id, encoded, after, out),
    ensures
        after is Tx,
        after->Tx_0.stream_id == before->Tx_0.stream_id,
        after->Tx_0.started == before->Tx_0.started,
        after->Tx_0.lc_rotation@ == before->Tx_0.lc_rotation@,
        before->Tx_0.pcm_buf@.len() < 2 ==> {
            &&& pcm is None
            &&& out.len() == 0
            &&& after->Tx_0.pcm_buf@ == before->Tx_0.pcm_buf@.push(frame.samples->0)
            &&& after->Tx_0.dmrd_seq == before->Tx_0.dmrd_seq
            &&& after->Tx_0.vseq == before->Tx_0.vseq
            &&& after->Tx_0.superframe_idx == before->Tx_0.superframe_idx
        },
        before->Tx_0.pcm_buf@.len() == 2 ==> {
            &&& pcm is Some
            &&& pcm->0@[0] == before->Tx_0.pcm_buf@[0]
            &&& pcm->0@[1] == before->Tx_0.pcm_buf@[1]
            &&& pcm->0@[2] == frame.samples->0
            &&& after->Tx_0.pcm_buf@.len() == 0
        },
        before->Tx_0.pcm_buf@.len() == 2 && encoded is Some ==> {
            &&& out.len() == 1
            &&& out[0] is Voice
            &&& is_voice_packet(config, before->Tx_0, encoded->0, out[0]->Voice_0@)
            &&& after->Tx_0.dmrd_seq == (before->Tx_0.dmrd_seq + 1) % 256
            &&& after->Tx_0.vseq == (if before->Tx_0.vseq == 5 {
                0
            } else {
                before->Tx_0.vseq + 1
            })
            &&& after->Tx_0.superframe_idx == (if before->Tx_0.vseq == 5 {
                (before->Tx_0.superframe_idx + 1) % 0x1_0000_0000
            } else {
                before->Tx_0.superframe_idx as int
            })
        },
        before->Tx_0.pcm_buf@.len() == 2 && encoded is None ==> {
            &&& out.len() == 3
            &&& forall|i: int|
                0 <= i < 3 ==> #[trigger] out[i] == Action::Stats(
                    StatsEvent::Drop { dir: CallDirection::FmToDmr },
                )
            &&& after->Tx_0.dmrd_seq == before->Tx_0.dmrd_seq
            &&& after->Tx_0.vseq == before->Tx_0.vseq
        },
{
    let tx = before->Tx_0;
    if tx.pcm_buf@.len() == 2 {
        assert(pcm->0@ == tx.pcm_buf@.push(frame.samples->0));
        if encoded is None {
            let lost = drops(CallDirection::FmToDmr, 3);
            assert(out == lost && lost.len() == 3);
            assert forall|i: int| 0 <= i < 3 implies #[trigger] out[i] == Action::Stats(
                StatsEvent::Drop { dir: CallDirection::FmToDmr },
            ) by {
                assert(lost[i] == out[i]);
            }
        }
    }
}

/// Law: letting go of the key ends a transmission: what audio waits goes out, filled
/// up with silence, and then the terminator, which takes the next number; the end
/// is accounted for and the machine is idle.
pub proof fn law_unkey_ends_transmission(
    config: VoiceConfig,
    before: PttState,
    frame: AudioFrame,
    now: u64,
    fresh_id: u32,
    pcm: Option<[PcmFrame; FRAMES_PER_BURST]>,
    encoded: Option<[AmbeFrame; FRAMES_PER_BURST]>,
    after: PttState,
    out: Seq<Action>,
)
    requires
        config.gateway is Both || config.gateway is FmToDmr,
        before is Tx,
        before->Tx_0.pcm_buf@.len() < 3,
        !frame.keyup,
        is_audio_burst(config, before, frame, pcm),
        audio_step(config, before, frame, now, fresh_id, encoded, after, out),
    ensures
        after is Idle,
        before->Tx_0.pcm_buf@.len() == 0 ==> pcm is None && out.len() == 3,
        before->Tx_0.pcm_buf@.len() > 0 ==> pcm is Some && forall|i: int, k: int|
            0 <= i < 3 && 0 <= k < 160 ==> #[trigger] pcm->0@[i]@[k] == (if i
                < before->Tx_0.pcm_buf@.len() {
                before->Tx_0.pcm_buf@[i]@[k]
            } else {
                0
            }),
        before->Tx_0.pcm_buf@.len() > 0 && encoded is Some ==> {
            &&& out.len() == 4
            &&& out[0] is Voice
            &&& is_voice_packet(config, before->Tx_0, encoded->0, out[0]->Voice_0@)
        },
        before->Tx_0.pcm_buf@.len() > 0 && encoded is None ==> {
            &&& out.len() == 6
            &&& forall|i: int|
                0 <= i < 3 ==> #[trigger] out[i] == Action::Stats(
                    StatsEvent::Drop { dir: CallDirection::FmToDmr },
                )
        },
        out[out.len() - 3] is Control,
        is_boundary_packet(
            config,
            (if before->Tx_0.pcm_buf@.len() > 0 && encoded is Some {
                (before->Tx_0.dmrd_seq + 1) % 256
            } else {
                before->Tx_0.dmrd_seq as int
            }) as u8,
            before->Tx_0.stream_id,
            2,
            out[out.len() - 3]->Control_0@,
        ),
        out[out.len() - 2] == Action::Stats(
            StatsEvent::CallEnd { dir: CallDirection::FmToDmr, reason: TerminationReason::Normal },
        ),
        out[out.len() - 1] == Action::TxCallEnd(before->Tx_0.stream_id),
{
    let tx = before->Tx_0;
    let n = out.len() - 3;
    assert(closing(config, tx, encoded, TerminationReason::Normal, out));
    if tx.pcm_buf@.len() > 0 {
        let first = out.subrange(0, n);
        assert(burst_sent(config, tx, encoded, first));
        assert(is_padded(tx.pcm_buf@, pcm->0));
        assert forall|i: int, k: int| 0 <= i < 3 && 0 <= k < 160 implies #[trigger] pcm->0@[i]@[k] == (
        if i < tx.pcm_buf@.len() {
            tx.pcm_buf@[i]@[k]
        } else {
            0
        }) by {
            let frame_i = pcm->0@[i];
        }
        if encoded is Some {
            assert(first[0] == out[0]);
        } else {
            let lost = drops(CallDirection::FmToDmr, 3);
            assert(first == lost && lost.len() == 3);
            assert forall|i: int| 0 <= i < 3 implies #[trigger] out[i] == Action::Stats(
                StatsEvent::Drop { dir: CallDirection::FmToDmr },
            ) by {
                assert(first[i] == out[i]);
                assert(lost[i] == first[i]);
            }
        }
    }
}

/// Law: audio changes nothing where nothing is forwarded from FM, and keyed frames
/// without audio never do.
pub proof fn law_audio_ignored(
    config: VoiceConfig,
    before: PttState,
    frame: AudioFrame,
    now: u64,
    fresh_id: u32,
    pcm: Option<[PcmFrame; FRAMES_PER_BURST]>,
    encoded: Option<[AmbeFrame; FRAMES_PER_BURST]>,
    after: PttState,
    out: Seq<Action>,
)
    requires
        config.gateway is DmrToFm || (frame.keyup && frame.samples is None),
        is_audio_burst(config, before, frame, pcm),
        audio_step(config, before, frame, now, fresh_id, encoded, after, out),
    ensures
        pcm is None,
        after == before,
        out.len() == 0,
{
}

/// Law: the bytes of a header or terminator: "DMRD", the number, the configured
/// addresses, flags that say data of the given kind, and the stream.
pub proof fn law_boundary_bytes(
    config: VoiceConfig,
    seq: u8,
    stream_id: u32,
    data_type: u8,
    w: Seq<u8>,
)
    requires
        data_type == 1 || data_type == 2,
        is_boundary_packet(config, seq, stream_id, data_type, w),
    ensures
        w.len() == 53,
        w[0] == 0x44 && w[1] == 0x4D && w[2] == 0x52 && w[3] == 0x44,
        w[4] == seq,
        0x1_0000 * w[5] + 0x100 * w[6] + w[7] == config.src_id.id(),
        0x1_0000 * w[8] + 0x100 * w[9] + w[10] == config.talkgroup.id(),
        0x100_0000 * w[11] + 0x1_0000 * w[12] + 0x100 * w[13] + w[14] == config.repeater_id.id(),
        w[15] == (if config.slot is Two {
            0x80int
        } else {
            0
        }) + (if config.call_type is Unit {
            0x40int
        } else {
            0
        }) + 0x20 + data_type,
        0x100_0000 * w[16] + 0x1_0000 * w[17] + 0x100 * w[18] + w[19] == stream_id,
{
    reveal(is_boundary_packet);
    let (bits, code, burst) = choose|bits: Seq<u8>, code: Seq<u8>, burst: [u8; DMR_DATA_SIZE]|
     #[trigger]
        is_lc_burst_of(config, data_type, bits, code, burst@) && is_packet_of(
            outgoing(config, seq, stream_id, FrameType::DataSync, data_type, burst),
            w,
        );
    let d = outgoing(config, seq, stream_id, FrameType::DataSync, data_type, burst);
    law_packet_bytes(d, w);
}

/// Law: the header bytes of a voice packet: "DMRD", the number, the configured
/// addresses, flags that say voice at its place in the superframe, with sync in the
/// first place, and the stream.
#[verifier::spinoff_prover]
pub proof fn law_voice_header_bytes(
    config: VoiceConfig,
    tx: TxCall,
    ambe: [AmbeFrame; FRAMES_PER_BURST],
    w: Seq<u8>,
)
    requires
        tx.vseq < 6,
        is_voice_packet(config, tx, ambe, w),
    ensures
        w.len() == 53,
        w[0] == 0x44 && w[1] == 0x4D && w[2] == 0x52 && w[3] == 0x44,
        w[4] == tx.dmrd_seq,
        0x1_0000 * w[5] + 0x100 * w[6] + w[7] == config.src_id.id(),
        0x1_0000 * w[8] + 0x100 * w[9] + w[10] == config.talkgroup.id(),
        0x100_0000 * w[11] + 0x1_0000 * w[12] + 0x100 * w[13] + w[14] == config.repeater_id.id(),
        w[15] == (if config.slot is Two {
            0x80int
        } else {
            0
        }) + (if config.call_type is Unit {
            0x40int
        } else {
            0
        }) + (if tx.vseq == 0 {
            0x10int
        } else {
            0
        }) + tx.vseq,
        0x100_0000 * w[16] + 0x1_0000 * w[17] + 0x100 * w[18] + w[19] == tx.stream_id,
{
    reveal(is_voice_packet);
    let (sync, burst) = choose|sync: [u8; 6], burst: [u8; DMR_DATA_SIZE]|
        {
            &&& #[trigger] is_middle_section(config, tx, sync@)
            &&& dibits_of(burst@) == burst_dibits(ambe@[0]@, ambe@[1]@, ambe@[2]@, sync@)
            &&& #[trigger] is_packet_of(voice_dmrd(config, tx, burst), w)
        };
    law_packet_bytes(voice_dmrd(config, tx, burst), w);
}

/// The burst of a voice packet and its middle section.
proof fn lemma_voice_burst(
    config: VoiceConfig,
    tx: TxCall,
    ambe: [AmbeFrame; FRAMES_PER_BURST],
    w: Seq<u8>,
) -> (r: ([u8; 6], [u8; DMR_DATA_SIZE]))
    requires
        is_voice_packet(config, tx, ambe, w),
    ensures
        is_middle_section(config, tx, r.0@),
        dibits_of(r.1@) == burst_dibits(ambe@[0]@, ambe@[1]@, ambe@[2]@, r.0@),
        w.len() == 53,
        forall|i: int| 0 <= i < 33 ==> #[trigger] r.1@[i] == w[20 + i],
{
    reveal(is_voice_packet);
    let (sync, burst) = choose|sync: [u8; 6], burst: [u8; DMR_DATA_SIZE]|
        {
            &&& #[trigger] is_middle_section(config, tx, sync@)
            &&& dibits_of(burst@) == burst_dibits(ambe@[0]@, ambe@[1]@, ambe@[2]@, sync@)
            &&& #[trigger] is_packet_of(voice_dmrd(config, tx, burst), w)
        };
    law_packet_bytes(voice_dmrd(config, tx, burst), w);
    assert forall|i: int| 0 <= i < 33 implies #[trigger] burst@[i] == w[20 + i] by {
        assert(w[20 + i] == burst@[20 + i - 20]);
    }
    (sync, burst)
}

/// Law: the burst of a voice packet carries the three encoded frames: the first in
/// its first nine bytes, the second on either side of the middle section, the third
/// in its last nine bytes.
#[verifier::spinoff_prover]
pub proof fn law_voice_burst_bytes(
    config: VoiceConfig,
    tx: TxCall,
    ambe: [AmbeFrame; FRAMES_PER_BURST],
    w: Seq<u8>,
)
    requires
        is_voice_packet(config, tx, ambe, w),
    ensures
        forall|i: int| 0 <= i < 9 ==> #[trigger] w[20 + i] == ambe@[0]@[i],
        forall|i: int| 0 <= i < 4 ==> #[trigger] w[29 + i] == ambe@[1]@[i],
        w[33] / 16 == ambe@[1]@[4] / 16,
        w[39] % 16 == ambe@[1]@[4] % 16,
        forall|i: int| 0 <= i < 4 ==> #[trigger] w[40 + i] == ambe@[1]@[5 + i],
        forall|i: int| 0 <= i < 9 ==> #[trigger] w[44 + i] == ambe@[2]@[i],
{
    let (sync, burst) = lemma_voice_burst(config, tx, ambe, w);
    law_burst_layout(ambe, sync, burst);
    assert forall|i: int| 0 <= i < 9 implies #[trigger] w[20 + i] == ambe@[0]@[i] by {
        assert(burst@[i] == w[20 + i]);
    }
    assert forall|i: int| 0 <= i < 4 implies #[trigger] w[29 + i] == ambe@[1]@[i] by {
        assert(burst@[9 + i] == w[20 + (9 + i)]);
    }
    assert(burst@[13] == w[33] && burst@[19] == w[39]);
    lemma_nibbles(w[33], ambe@[1]@[4] / 16, sync@[0] / 16);
    lemma_nibbles(w[39], sync@[5] % 16, ambe@[1]@[4] % 16);
    assert forall|i: int| 0 <= i < 4 implies #[trigger] w[40 + i] == ambe@[1]@[5 + i] by {
        assert(burst@[20 + i] == w[20 + (20 + i)]);
    }
    assert forall|i: int| 0 <= i < 9 implies #[trigger] w[44 + i] == ambe@[2]@[i] by {
        assert(burst@[24 + i] == w[20 + (24 + i)]);
    }
}

proof fn lemma_nibbles(x: u8, a: u8, b: u8)
    requires
        a < 16,
        b < 16,
        x == a * 16 + b,
    ensures
        x / 16 == a,
        x % 16 == b,
{
}

/// Law: the middle section of a voice packet, the 48 bits from half a byte into byte
/// 33: the voice sync in the first burst of a superframe; in the others the color
/// code, a zero and which fragment it is, with a fragment of the LC that is due in
/// bursts two to five and zeros in the last.
#[verifier::spinoff_prover]
pub proof fn law_voice_middle_bytes(
    config: VoiceConfig,
    tx: TxCall,
    ambe: [AmbeFrame; FRAMES_PER_BURST],
    w: Seq<u8>,
    middle: Seq<u8>,
)
    requires
        tx.vseq < 6,
        is_voice_packet(config, tx, ambe, w),
        middle.len() == 6,
        forall|i: int| 0 <= i < 6 ==> #[trigger] middle[i] == w[33 + i] % 16 * 16 + w[34 + i] / 16,
    ensures
        tx.vseq == 0 ==> middle == seq![0x75u8, 0x5F, 0xD7, 0xDF, 0x75, 0xF7],
        tx.vseq > 0 ==> middle[0] / 16 == config.color_code.id() % 16,
        tx.vseq == 1 ==> middle[0] / 2 % 8 == 1,
        tx.vseq == 2 || tx.vseq == 3 ==> middle[0] / 2 % 8 == 3,
        tx.vseq == 4 ==> middle[0] / 2 % 8 == 2,
        tx.vseq == 5 ==> middle[0] / 2 % 8 == 0,
        1 <= tx.vseq <= 4 ==> forall|i: int|
            0 <= i < 4 ==> #[trigger] middle[1 + i] == tx.lc_rotation@[tx.superframe_idx as int
                % tx.lc_rotation@.len() as int]@[tx.vseq - 1]@[i],
        tx.vseq == 5 ==> forall|i: int| 1 <= i < 5 ==> #[trigger] middle[i] == 0,
{
    let (sync, burst) = lemma_voice_burst(config, tx, ambe, w);
    law_burst_layout(ambe, sync, burst);
    let s = sync@;
    assert forall|i: int| 0 <= i < 6 implies #[trigger] middle[i] == s[i] by {
        let (x, y) = (burst@[13 + i], burst@[14 + i]);
        assert(x == w[20 + (13 + i)] && y == w[20 + (14 + i)]);
        if i == 0 {
            lemma_nibbles(x, ambe@[1]@[4] / 16, s[0] / 16);
        } else {
            lemma_nibbles(x, s[13 + i - 14] % 16, s[13 + i - 13] / 16);
        }
        if i == 5 {
            lemma_nibbles(y, s[5] % 16, ambe@[1]@[4] % 16);
        } else {
            lemma_nibbles(y, s[14 + i - 14] % 16, s[14 + i - 13] / 16);
        }
    }
    assert(middle =~= s);
    if tx.vseq == 0 {
        assert(middle =~= seq![0x75u8, 0x5F, 0xD7, 0xDF, 0x75, 0xF7]);
    } else {
        lemma_emb_head(s[0], s[5], 0x100 * s[0] + s[5]);
        let lc = s.subrange(1, 5);
        assert forall|i: int| 0 <= i < 4 implies #[trigger] middle[1 + i] == lc[i] by {}
        assert forall|i: int| 1 <= i < 5 implies #[trigger] middle[i] == lc[i - 1] by {}
    }
}

/// The first byte of an EMB section holds the first seven bits of its codeword.
proof fn lemma_emb_head(hi: u8, lo: u8, word: int)
    requires
        word == 0x100 * hi + lo,
    ensures
        hi / 16 == word / 0x1000,
        hi / 2 % 4 == word / 0x200 % 4,
        hi / 8 % 2 == word / 0x800 % 2,
        hi / 2 % 8 == 4 * (hi / 8 % 2) + hi / 2 % 4,
{
    let h = hi as int;
    let (c, p, l, r) = (h / 16, h / 8 % 2, h / 2 % 4, h % 2);
    assert(h == 16 * c + 8 * p + 2 * l + r) by {
        assert(h == 2 * (h / 2) + r);
        assert(h / 2 == 4 * (h / 8) + l);
        assert(h / 8 == 2 * c + p);
    }
    let rest = 0x100 * r + lo;
    assert(word == 0x1000 * c + 0x800 * p + 0x200 * l + rest && 0 <= rest < 0x200);
    assert(word / 0x200 == 8 * c + 4 * p + l);
    assert(word / 0x800 == 2 * c + p);
    assert(word / 0x1000 == c);
    assert(h / 2 == 8 * c + 4 * p + l);
}

/// Law: byte `c` of the sixteen that the four fragments of an LC hold, in turn, is made
/// of the LC bits that are eleven and then ten apart, the first the most significant,
/// above a bit of parity.
pub proof fn law_fragment_bytes(lc: Seq<u8>, f: [[u8; 4]; 4], n: int, i: int)
    requires
        lc.len() == 72,
        all_bits(lc),
        is_fragments_of(lc, f),
        0 <= n < 4,
        0 <= i < 4,
        4 * n + i < 10,
    ensures
        ({
            let c = 4 * n + i;
            f@[n]@[i] / 2 == 64 * lc[c] + 32 * lc[11 + c] + 16 * lc[22 + c] + 8 * lc[32 + c] + 4 * lc[42
                + c] + 2 * lc[52 + c] + lc[62 + c]
        }),
{
    let raw = choose|raw: Seq<u8>| #[trigger]
        is_raw_of(lc, raw) && forall|n: int, i: int|
            0 <= n < 4 && 0 <= i < 4 ==> #[trigger] f@[n]@[i] == byte_at(raw, 32 * n + 8 * i);
    let c = 4 * n + i;
    law_raw_is_bits(lc, raw);
    law_embedded_places(lc, raw);
    law_spelled_byte(raw, c);
    assert(f@[n]@[i] == byte_at(raw, 32 * n + 8 * i));
    assert(bytes_of(raw)[c] == byte_at(raw, 8 * c));
    assert(raw[8 * c] == lc[c]);
    assert(raw[8 * c + 1] == lc[11 + c]);
    assert(raw[8 * c + 2] == lc[22 + 10 * (2int - 2) + c]);
    assert(raw[8 * c + 3] == lc[22 + 10 * (3int - 2) + c]);
    assert(raw[8 * c + 4] == lc[22 + 10 * (4int - 2) + c]);
    assert(raw[8 * c + 5] == lc[22 + 10 * (5int - 2) + c]);
    assert(raw[8 * c + 6] == lc[22 + 10 * (6int - 2) + c]);
    lemma_low_bit(f@[n]@[i], raw, 8 * c);
}

proof fn lemma_low_bit(x: u8, b: Seq<u8>, at: int)
    requires
        x == 128 * b[at] + 64 * b[at + 1] + 32 * b[at + 2] + 16 * b[at + 3] + 8 * b[at + 4] + 4 * b[at
            + 5] + 2 * b[at + 6] + b[at + 7],
        b[at + 7] <= 1,
    ensures
        x / 2 == 64 * b[at] + 32 * b[at + 1] + 16 * b[at + 2] + 8 * b[at + 3] + 4 * b[at + 4] + 2 * b[at
            + 5] + b[at + 6],
{
}

/// Law: what outgoing superframes carry in turn: first the voice LC of the call, with
/// its opcode, destination and source, and then the LCs of the configured callsign.
pub proof fn law_rotation(config: VoiceConfig, rotation: Seq<[[u8; 4]; 4]>)
    requires
        is_rotation(config, rotation),
    ensures
        rotation.len() == 1 + alias_lcs(config.callsign@).len(),
        forall|i: int|
            1 <= i < rotation.len() ==> is_fragments_of(
                alias_lcs(config.callsign@)[i - 1],
                #[trigger] rotation[i],
            ),
        exists|lc: Seq<u8>|
            {
                &&& #[trigger] is_fragments_of(lc, rotation[0])
                &&& lc.len() == 72
                &&& all_bits(lc)
                &&& bytes_of(lc)[0] == (if config.call_type is Group {
                    0u8
                } else {
                    3u8
                })
                &&& bytes_of(lc)[1] == 0
                &&& bytes_of(lc)[2] == 0
                &&& 0x1_0000 * bytes_of(lc)[3] + 0x100 * bytes_of(lc)[4] + bytes_of(lc)[5]
                    == config.talkgroup.id()
                &&& 0x1_0000 * bytes_of(lc)[6] + 0x100 * bytes_of(lc)[7] + bytes_of(lc)[8]
                    == config.src_id.id()
            },
{
    let lc = choose|lc: Seq<u8>| #[trigger]
        is_voice_lc_bits(config, lc) && is_fragments_of(lc, rotation[0]);
    law_lc_body_bytes(
        bytes_of(lc),
        config.call_type is Group,
        config.talkgroup.id(),
        config.src_id.id(),
    );
    assert(is_fragments_of(lc, rotation[0]));
    assert forall|i: int| 1 <= i < rotation.len() implies is_fragments_of(
        alias_lcs(config.callsign@)[i - 1],
        #[trigger] rotation[i],
    ) by {
        assert(rotation[1 + (i - 1)] == rotation[i]);
    }
}

} // verus!
