//! The push-to-talk machine, driven with a stand-in for the vocoder.

use asl_dmr_bridge::audio::{AudioFrame, VOICE_SAMPLES};
use asl_dmr_bridge::dmrd::{CallType, Dmrd, FrameType, DMR_DATA_SIZE, PACKET_SIZE};
use asl_dmr_bridge::events::{
    CallDirection, CallMetadata, MetaEvent, StatsEvent, TerminationReason,
};
use asl_dmr_bridge::frame::{assemble_burst, extract_ambe, extract_sync_section};
use asl_dmr_bridge::ptt::{
    burst_refused, frames_needed, gap_frame_decoded, over_budget, voice_frame_decoded,
    voice_packet_stats, Action, PttMachine, PttState, RxBurst, IDLE_WAIT,
};
use asl_dmr_bridge::types::{
    AmbeFrame, ColorCode, DmrId, Slot, SubscriberId, Talkgroup, AMBE_FRAME_SIZE, PCM_SAMPLES,
};
use asl_dmr_bridge::voice::{
    check_voice_lc, matches_config, new_stream_id, stream_id_from, stream_id_of, ControlEvent,
    Direction, LcFinding, VoiceConfig, DATA_TYPE_VOICE_HEADER, DATA_TYPE_VOICE_TERMINATOR,
    FRAMES_PER_BURST,
};

const MS: u64 = 1_000_000;
const SEC: u64 = 1_000_000_000;

fn test_voice_config() -> VoiceConfig {
    VoiceConfig {
        gateway: Direction::Both,
        slot: Slot::One,
        talkgroup: Talkgroup::try_from(91).unwrap(),
        call_type: CallType::Group,
        hang_time: 500 * MS,
        stream_timeout: 10 * SEC,
        tx_timeout: 180 * SEC,
        repeater_id: DmrId::try_from(12345).unwrap(),
        src_id: SubscriberId::try_from(12345).unwrap(),
        color_code: ColorCode::try_from(1).unwrap(),
        callsign: String::new(),
    }
}

/// A machine and everything that it has asked for.
struct Rig {
    m: PttMachine,
    now: u64,
    who: Option<(String, String)>,
    audio: Vec<AudioFrame>,
    voice: Vec<[u8; PACKET_SIZE]>,
    control: Vec<[u8; PACKET_SIZE]>,
    meta: Vec<MetaEvent>,
    stats: Vec<StatsEvent>,
}

impl Rig {
    fn with_config(config: VoiceConfig) -> Self {
        Rig {
            m: PttMachine::new(config),
            now: 1000 * SEC,
            who: None,
            audio: Vec::new(),
            voice: Vec::new(),
            control: Vec::new(),
            meta: Vec::new(),
            stats: Vec::new(),
        }
    }

    fn start() -> Self {
        Rig::with_config(test_voice_config())
    }

    fn with_callsign(callsign: &str) -> Self {
        let mut config = test_voice_config();
        config.callsign = callsign.to_string();
        Rig::with_config(config)
    }

    fn apply(&mut self, actions: Vec<Action>) {
        for action in actions {
            match action {
                Action::Audio(frame) => self.audio.push(frame),
                Action::Meta(event) => self.meta.push(event),
                Action::Stats(event) => self.stats.push(event),
                Action::Control(pkt) => self.control.push(pkt),
                Action::Voice(pkt) => self.voice.push(pkt),
                _ => {}
            }
        }
    }

    fn on_dmrd(&mut self, pkt: &Dmrd) {
        let step = self.m.on_dmrd(pkt, self.now, self.who.clone());
        self.apply(step.actions);
        if let Some(burst) = step.burst {
            for _ in 0..burst.gap_frames {
                self.apply(gap_frame_decoded(burst.stream_id, Some(decode())));
            }
            for _ in 0..FRAMES_PER_BURST {
                self.apply(voice_frame_decoded(burst.stream_id, Some(decode()), 1000));
            }
        }
    }

    fn on_audio(&mut self, frame: &AudioFrame) {
        let encoded = self.m.audio_burst(frame).map(|_| encode());
        let id = new_stream_id().expect("random source");
        let actions = self.m.on_audio(frame, self.now, id, encoded);
        self.apply(actions);
    }

    fn on_timeout(&mut self) {
        let encoded = self.m.timeout_burst(self.now).map(|_| encode());
        let actions = self.m.on_timeout(self.now, encoded);
        self.apply(actions);
    }

    fn on_shutdown(&mut self) {
        let encoded = self.m.shutdown_burst().map(|_| encode());
        let actions = self.m.on_shutdown(encoded);
        self.apply(actions);
    }

    fn on_control(&mut self, event: ControlEvent) {
        let actions = self.m.on_control(event);
        self.apply(actions);
    }

    /// The oldest metadata, which has to be a call.
    fn expect_call(&mut self) -> CallMetadata {
        assert!(!self.meta.is_empty(), "expected metadata");
        match self.meta.remove(0) {
            MetaEvent::Call(meta) => meta,
            other => panic!("expected Call, got {other:?}"),
        }
    }
}

fn encode() -> [AmbeFrame; FRAMES_PER_BURST] {
    [[0xAA; AMBE_FRAME_SIZE]; FRAMES_PER_BURST]
}

fn decode() -> [i16; VOICE_SAMPLES] {
    [1000i16; VOICE_SAMPLES]
}

fn packet(frame_type: FrameType, dtype_vseq: u8, stream_id: u32) -> Dmrd {
    Dmrd {
        seq: 0,
        src_id: 12345,
        dst_id: 91,
        repeater_id: 12345,
        slot: Slot::One,
        call_type: CallType::Group,
        frame_type,
        dtype_vseq,
        stream_id,
        dmr_data: [0u8; DMR_DATA_SIZE],
    }
}

fn voice_dmrd(stream_id: u32) -> Dmrd {
    packet(FrameType::Voice, 0, stream_id)
}

fn header_dmrd(stream_id: u32) -> Dmrd {
    packet(FrameType::DataSync, DATA_TYPE_VOICE_HEADER, stream_id)
}

fn terminator_dmrd(stream_id: u32) -> Dmrd {
    packet(FrameType::DataSync, DATA_TYPE_VOICE_TERMINATOR, stream_id)
}

fn voice_audio() -> AudioFrame {
    AudioFrame {
        keyup: true,
        samples: Some([1000i16; PCM_SAMPLES]),
        dmr_stream_id: None,
    }
}

fn unkey_audio() -> AudioFrame {
    AudioFrame {
        keyup: false,
        samples: None,
        dmr_stream_id: None,
    }
}

fn rx_stream(m: &PttMachine) -> Option<u32> {
    match &m.state {
        PttState::Rx(rx) => Some(rx.stream_id),
        _ => None,
    }
}

fn parse(pkt: &[u8; PACKET_SIZE]) -> Dmrd {
    Dmrd::parse(pkt).unwrap()
}

// --- which packets are ours ---

#[test]
fn matches_config_group_dst_eq_talkgroup() {
    let mut cfg = test_voice_config();
    cfg.call_type = CallType::Group;
    cfg.talkgroup = Talkgroup::try_from(91).unwrap();
    let mut pkt = voice_dmrd(1);
    pkt.call_type = CallType::Group;
    pkt.dst_id = 91;
    assert!(matches_config(&pkt, &cfg));
}

#[test]
fn matches_config_private_dst_eq_our_src_id() {
    let mut cfg = test_voice_config();
    cfg.call_type = CallType::Unit;
    cfg.talkgroup = Talkgroup::try_from(9990).unwrap();
    cfg.src_id = SubscriberId::try_from(1234567).unwrap();
    let mut pkt = voice_dmrd(1);
    pkt.call_type = CallType::Unit;
    pkt.dst_id = 1234567;
    pkt.src_id = 9990;
    assert!(matches_config(&pkt, &cfg));
}

#[test]
fn matches_config_private_dst_eq_talkgroup_rejects() {
    let mut cfg = test_voice_config();
    cfg.call_type = CallType::Unit;
    cfg.talkgroup = Talkgroup::try_from(9990).unwrap();
    cfg.src_id = SubscriberId::try_from(1234567).unwrap();
    let mut pkt = voice_dmrd(1);
    pkt.call_type = CallType::Unit;
    pkt.dst_id = 9990;
    assert!(!matches_config(&pkt, &cfg));
}

#[test]
fn matches_config_call_type_mismatch_rejects() {
    let mut cfg = test_voice_config();
    cfg.call_type = CallType::Group;
    cfg.talkgroup = Talkgroup::try_from(91).unwrap();
    let mut pkt = voice_dmrd(1);
    pkt.call_type = CallType::Unit;
    pkt.dst_id = 91;
    assert!(!matches_config(&pkt, &cfg));
}

#[test]
fn matches_config_other_slot_rejects() {
    let cfg = test_voice_config();
    let mut pkt = voice_dmrd(1);
    pkt.slot = Slot::Two;
    assert!(!matches_config(&pkt, &cfg));
}

// --- receiving ---

#[test]
fn rx_header_starts_rx() {
    let mut rig = Rig::start();
    rig.on_dmrd(&header_dmrd(0xAA));
    assert_eq!(rx_stream(&rig.m), Some(0xAA));
}

#[test]
fn rx_voice_produces_usrp() {
    let mut rig = Rig::start();
    rig.on_dmrd(&header_dmrd(0xBB));
    rig.on_dmrd(&voice_dmrd(0xBB));
    assert_eq!(rig.audio.len(), 3);
    for frame in &rig.audio {
        let samples = frame.samples.expect("voice frame must carry PCM samples");
        assert!(samples.iter().all(|&s| s == 1000));
    }
}

#[test]
fn rx_terminator_enters_hang() {
    let mut rig = Rig::start();
    rig.on_dmrd(&header_dmrd(0xCC));
    rig.on_dmrd(&terminator_dmrd(0xCC));
    assert!(matches!(rig.m.state, PttState::RxHang(_)));
}

#[test]
fn rx_header_uses_callsign_lookup_when_provided() {
    let mut rig = Rig::start();
    rig.who = Some(("N0CALL".to_string(), "Test".to_string()));
    rig.on_dmrd(&header_dmrd(0xAA));
    let meta = rig.expect_call();
    assert_eq!(meta.call.as_deref(), Some("N0CALL"));
    assert_eq!(meta.name.as_deref(), Some("Test"));
}

#[test]
fn rx_header_omits_call_name_on_lookup_miss() {
    let mut rig = Rig::start();
    rig.on_dmrd(&header_dmrd(0xAA));
    let meta = rig.expect_call();
    assert!(meta.call.is_none());
    assert!(meta.name.is_none());
}

#[test]
fn rx_header_emits_call_metadata() {
    let mut rig = Rig::start();
    rig.on_dmrd(&header_dmrd(0xAA));
    let meta = rig.expect_call();
    assert_eq!(meta.dmr_id.as_u32(), 12345);
    assert_eq!(meta.tg.as_u32(), 91);
    assert_eq!(meta.slot, Slot::One);
    assert_eq!(meta.cc.value(), 1);
}

#[test]
fn rx_terminator_clears_metadata() {
    let mut rig = Rig::start();
    rig.on_dmrd(&header_dmrd(0xBE));
    let _ = rig.expect_call();
    rig.on_dmrd(&terminator_dmrd(0xBE));
    assert!(matches!(rig.meta.remove(0), MetaEvent::Clear));
}

#[test]
fn shutdown_during_rxhang_does_not_double_clear() {
    let mut rig = Rig::start();
    rig.on_dmrd(&header_dmrd(0xCC));
    let _ = rig.expect_call();
    rig.on_dmrd(&terminator_dmrd(0xCC));
    assert!(matches!(rig.meta.remove(0), MetaEvent::Clear));
    assert!(matches!(rig.m.state, PttState::RxHang(_)));
    rig.on_shutdown();
    assert!(rig.meta.is_empty(), "unexpected metadata: {:?}", rig.meta);
}

#[test]
fn rx_stream_change_emits_new_metadata() {
    let mut rig = Rig::start();
    rig.on_dmrd(&header_dmrd(0x111));
    let _ = rig.expect_call();
    let mut second = voice_dmrd(0x222);
    second.src_id = 67890;
    rig.on_dmrd(&second);
    let meta = rig.expect_call();
    assert_eq!(meta.dmr_id.as_u32(), 67890);
}

#[test]
fn rx_stream_change_emits_unkey_for_prior_stream() {
    let mut rig = Rig::start();
    rig.on_dmrd(&voice_dmrd(0x111));
    for f in rig.audio.drain(..) {
        assert_eq!(f.dmr_stream_id, Some(0x111));
        assert!(f.keyup);
    }
    rig.on_dmrd(&voice_dmrd(0x222));
    let unkey = rig.audio.remove(0);
    assert!(!unkey.keyup, "first frame after stream change must be unkey");
    assert_eq!(unkey.dmr_stream_id, Some(0x111));
    let next = rig.audio.remove(0);
    assert!(next.keyup);
    assert_eq!(next.dmr_stream_id, Some(0x222));
}

#[test]
fn rx_header_of_another_stream_unkeys_the_prior_one_first() {
    let mut rig = Rig::start();
    rig.on_dmrd(&voice_dmrd(0x111));
    rig.audio.clear();
    let step = rig.m.on_dmrd(&header_dmrd(0x222), rig.now, None);
    assert_eq!(rx_stream(&rig.m), Some(0x222));
    assert!(step.burst.is_none());
    assert!(matches!(
        step.actions[0],
        Action::Stats(StatsEvent::CallEnd {
            dir: CallDirection::DmrToFm,
            reason: TerminationReason::Normal,
        })
    ));
    assert!(matches!(step.actions[1], Action::RxCallEnd(0x111)));
    match &step.actions[2] {
        Action::Audio(f) => {
            assert!(!f.keyup);
            assert_eq!(f.dmr_stream_id, Some(0x111));
        }
        other => panic!("expected unkey, got {other:?}"),
    }
    assert!(matches!(step.actions[3], Action::CheckLc));
    assert!(matches!(step.actions[4], Action::Meta(MetaEvent::Call(_))));
    assert!(matches!(step.actions[5], Action::Stats(StatsEvent::CallStart { .. })));
    assert!(matches!(step.actions[6], Action::ResetVocoder));
    assert!(matches!(step.actions[7], Action::RxCallStart(0x222)));
    assert_eq!(step.actions.len(), 8);
    rig.on_dmrd(&voice_dmrd(0x222));
    assert!(rig.audio.iter().all(|f| f.keyup && f.dmr_stream_id == Some(0x222)));
}

#[test]
fn network_reset_leaves_a_received_call_alone() {
    let mut rig = Rig::start();
    rig.on_control(ControlEvent::NetworkReset);
    assert!(matches!(rig.m.state, PttState::Idle));
    rig.on_dmrd(&header_dmrd(0x111));
    rig.on_control(ControlEvent::NetworkReset);
    assert_eq!(rx_stream(&rig.m), Some(0x111));
    rig.on_dmrd(&terminator_dmrd(0x111));
    assert!(matches!(rig.meta.last(), Some(MetaEvent::Clear)));
    let until = rig.now + 500 * MS;
    rig.on_control(ControlEvent::NetworkReset);
    assert!(matches!(rig.m.state, PttState::RxHang(t) if t == until));
}

#[test]
fn rx_hang_blocks_tx() {
    let mut rig = Rig::start();
    rig.m.state = PttState::RxHang(rig.now + 10 * SEC);
    rig.on_audio(&voice_audio());
    assert!(matches!(rig.m.state, PttState::RxHang(_)));
    assert!(rig.voice.is_empty());
}

#[test]
fn rx_during_hang_restarts_rx() {
    let mut rig = Rig::start();
    rig.m.state = PttState::RxHang(rig.now + 10 * SEC);
    rig.on_dmrd(&header_dmrd(0xFF));
    assert_eq!(rx_stream(&rig.m), Some(0xFF));
}

#[test]
fn rx_timeout_emits_unkey_and_enters_hang() {
    let mut rig = Rig::start();
    rig.on_dmrd(&header_dmrd(0x11));
    rig.audio.clear();
    rig.on_timeout();
    assert!(!rig.audio.remove(0).keyup);
    assert!(matches!(rig.m.state, PttState::RxHang(_)));
}

#[test]
fn rx_hang_timeout_returns_to_idle() {
    let mut rig = Rig::start();
    rig.m.state = PttState::RxHang(rig.now);
    rig.on_timeout();
    assert!(matches!(rig.m.state, PttState::Idle));
}

#[test]
fn idle_timeout_is_noop() {
    let mut rig = Rig::start();
    rig.on_timeout();
    assert!(matches!(rig.m.state, PttState::Idle));
    assert!(rig.audio.is_empty());
    assert!(rig.voice.is_empty());
}

#[test]
fn rx_voice_for_different_stream_switches_stream_id() {
    let mut rig = Rig::start();
    rig.on_dmrd(&header_dmrd(0xAAA1));
    rig.on_dmrd(&voice_dmrd(0xAAA2));
    assert_eq!(rx_stream(&rig.m), Some(0xAAA2));
}

#[test]
fn unkey_usrp_during_rx_does_not_drop_state() {
    let mut rig = Rig::start();
    rig.on_dmrd(&header_dmrd(0xBEEF));
    assert!(matches!(rig.m.state, PttState::Rx(_)));
    rig.on_audio(&unkey_audio());
    assert_eq!(rx_stream(&rig.m), Some(0xBEEF));
}

#[test]
fn unkey_usrp_during_rxhang_does_not_drop_state() {
    let mut rig = Rig::start();
    rig.m.state = PttState::RxHang(rig.now + 10 * SEC);
    rig.on_audio(&unkey_audio());
    assert!(matches!(rig.m.state, PttState::RxHang(_)));
}

#[test]
fn terminator_for_other_stream_keeps_rx() {
    let mut rig = Rig::start();
    rig.on_dmrd(&header_dmrd(0xAAA1));
    rig.on_dmrd(&terminator_dmrd(0xAAA2));
    assert_eq!(rx_stream(&rig.m), Some(0xAAA1));
}

#[test]
fn rx_gap_is_filled() {
    let mut rig = Rig::start();
    rig.on_dmrd(&header_dmrd(0x7));
    let mut first = voice_dmrd(0x7);
    first.seq = 10;
    rig.on_dmrd(&first);
    rig.audio.clear();
    let mut later = voice_dmrd(0x7);
    later.seq = 13;
    rig.on_dmrd(&later);
    // Two packets of three frames each are missing.
    assert_eq!(rig.audio.len(), 9);
}

#[test]
fn rx_only_ignores_audio() {
    let mut config = test_voice_config();
    config.gateway = Direction::DmrToFm;
    let mut rig = Rig::with_config(config);
    rig.on_audio(&voice_audio());
    assert!(matches!(rig.m.state, PttState::Idle));
    assert!(rig.control.is_empty());
}

#[test]
fn tx_only_ignores_packets() {
    let mut config = test_voice_config();
    config.gateway = Direction::FmToDmr;
    let mut rig = Rig::with_config(config);
    rig.on_dmrd(&header_dmrd(1));
    assert!(matches!(rig.m.state, PttState::Idle));
    assert!(rig.meta.is_empty());
}

// --- transmitting ---

#[test]
fn tx_keyup_sends_header() {
    let mut rig = Rig::start();
    rig.on_audio(&voice_audio());
    assert!(matches!(rig.m.state, PttState::Tx(_)));
    let dmrd = parse(&rig.control[0]);
    assert_eq!(dmrd.frame_type, FrameType::DataSync);
    assert_eq!(dmrd.dtype_vseq, DATA_TYPE_VOICE_HEADER);
}

fn rotation_len(rig: &Rig) -> usize {
    match &rig.m.state {
        PttState::Tx(tx) => tx.lc_rotation.len(),
        _ => unreachable!(),
    }
}

#[test]
fn tx_with_short_callsign_includes_ta_in_rotation() {
    let mut rig = Rig::with_callsign("N0CALL");
    rig.on_audio(&voice_audio());
    assert_eq!(rotation_len(&rig), 2, "voice + TA expected");
}

#[test]
fn tx_with_empty_callsign_omits_ta() {
    let mut rig = Rig::with_callsign("");
    rig.on_audio(&voice_audio());
    assert_eq!(rotation_len(&rig), 1);
}

#[test]
fn tx_with_long_callsign_includes_ta_blocks() {
    let mut rig = Rig::with_callsign("N0CALL Operator");
    rig.on_audio(&voice_audio());
    assert_eq!(rotation_len(&rig), 3, "voice + header + 1 block expected");
}

#[test]
fn tx_with_oversized_callsign_omits_ta() {
    let mut rig = Rig::with_callsign("THIRTYTWOCHARTHIRTYTWOCHARTHIRTY2");
    rig.on_audio(&voice_audio());
    assert_eq!(rotation_len(&rig), 1);
}

#[test]
fn tx_superframe_idx_advances_on_vseq_wrap() {
    let mut rig = Rig::with_callsign("N0CALL");
    for _ in 0..18 {
        rig.on_audio(&voice_audio());
    }
    match &rig.m.state {
        PttState::Tx(tx) => assert!(tx.superframe_idx >= 1, "got {}", tx.superframe_idx),
        _ => unreachable!(),
    }
}

#[test]
fn tx_lc_rotation_alternates_across_superframes() {
    let mut rig = Rig::with_callsign("N0CALL");
    for _ in 0..36 {
        rig.on_audio(&voice_audio());
    }
    let mut frag0: Vec<[u8; 4]> = Vec::new();
    for pkt in &rig.voice {
        let dmrd = parse(pkt);
        if dmrd.frame_type == FrameType::Voice && dmrd.dtype_vseq == 1 {
            let emb = extract_sync_section(&dmrd.dmr_data);
            frag0.push([emb[1], emb[2], emb[3], emb[4]]);
        }
    }
    assert!(frag0.len() >= 2, "expected >= 2 superframes; got {}", frag0.len());
    assert_ne!(frag0[0], frag0[1], "LC rotation did not advance");
    assert_eq!(parse(&rig.control[0]).dtype_vseq, DATA_TYPE_VOICE_HEADER);
}

#[test]
fn tx_unkey_sends_terminator() {
    let mut rig = Rig::start();
    rig.on_audio(&voice_audio());
    rig.on_audio(&unkey_audio());
    assert!(matches!(rig.m.state, PttState::Idle));
    let dmrd = parse(rig.control.last().unwrap());
    assert_eq!(dmrd.dtype_vseq, DATA_TYPE_VOICE_TERMINATOR);
}

#[test]
fn tx_blocked_during_rx() {
    let mut rig = Rig::start();
    rig.on_dmrd(&header_dmrd(0xDD));
    assert!(matches!(rig.m.state, PttState::Rx(_)));
    rig.on_audio(&voice_audio());
    assert!(matches!(rig.m.state, PttState::Rx(_)));
    assert!(rig.control.is_empty());
}

#[test]
fn rx_blocked_during_tx() {
    let mut rig = Rig::start();
    rig.on_audio(&voice_audio());
    assert!(matches!(rig.m.state, PttState::Tx(_)));
    rig.on_dmrd(&header_dmrd(0xEE));
    assert!(matches!(rig.m.state, PttState::Tx(_)));
    assert!(rig.audio.is_empty());
}

#[test]
fn tx_timeout_emits_terminator() {
    let mut rig = Rig::start();
    rig.on_audio(&voice_audio());
    rig.control.clear();
    if let PttState::Tx(ref mut tx) = rig.m.state {
        tx.started = rig.now - 181 * SEC;
    }
    rig.on_timeout();
    let saw_term = rig.control.iter().map(parse).any(|d| {
        d.frame_type == FrameType::DataSync && d.dtype_vseq == DATA_TYPE_VOICE_TERMINATOR
    });
    assert!(saw_term, "expected terminator after TX timeout");
}

#[test]
fn tx_network_reset_drops_active_call() {
    let mut rig = Rig::start();
    rig.on_audio(&voice_audio());
    let hdr = parse(&rig.control.remove(0));
    rig.on_audio(&voice_audio());
    rig.on_control(ControlEvent::NetworkReset);
    assert!(matches!(rig.m.state, PttState::Idle));
    rig.on_audio(&voice_audio());
    let restarted = parse(&rig.control.remove(0));
    assert_eq!(restarted.frame_type, FrameType::DataSync);
    assert_eq!(restarted.dtype_vseq, DATA_TYPE_VOICE_HEADER);
    assert_ne!(restarted.stream_id, hdr.stream_id);
}

#[test]
fn tx_partial_burst_is_padded_and_sent_on_unkey() {
    let mut rig = Rig::start();
    for _ in 0..4 {
        rig.on_audio(&voice_audio());
    }
    assert_eq!(rig.voice.len(), 1);
    let burst = rig.m.audio_burst(&unkey_audio()).expect("rest of the audio");
    assert_eq!(burst[0], [1000i16; PCM_SAMPLES]);
    assert_eq!(burst[1], [0i16; PCM_SAMPLES]);
    assert_eq!(burst[2], [0i16; PCM_SAMPLES]);
    rig.on_audio(&unkey_audio());
    assert_eq!(rig.voice.len(), 2);
}

#[test]
fn tx_voice_packets_carry_the_encoded_frames() {
    let mut rig = Rig::start();
    for _ in 0..3 {
        rig.on_audio(&voice_audio());
    }
    let dmrd = parse(&rig.voice[0]);
    assert_eq!(extract_ambe(&dmrd.dmr_data), encode());
    assert_eq!(dmrd.frame_type, FrameType::VoiceSync);
    assert_eq!(dmrd.src_id, 12345);
    assert_eq!(dmrd.dst_id, 91);
}

// --- whole calls ---

#[test]
fn integration_full_rx_call() {
    let mut rig = Rig::start();
    rig.on_dmrd(&header_dmrd(0x1234));
    rig.on_dmrd(&voice_dmrd(0x1234));
    rig.on_dmrd(&terminator_dmrd(0x1234));
    assert_eq!(rig.audio.len(), 4, "got {} frames", rig.audio.len());
    assert!(rig.audio[..3].iter().all(|f| f.keyup && f.samples.is_some()));
    assert!(!rig.audio[3].keyup, "expected final unkey");
    assert!(rig.voice.is_empty());
    assert!(rig.control.is_empty());
}

#[test]
fn integration_full_tx_call() {
    let mut rig = Rig::start();
    rig.on_audio(&voice_audio());
    rig.on_audio(&voice_audio());
    rig.on_audio(&voice_audio());
    rig.on_audio(&unkey_audio());
    assert!(!rig.voice.is_empty(), "expected at least one voice packet");
    assert!(rig.control.len() >= 2, "got {}", rig.control.len());
    let control: Vec<_> = rig.control.iter().map(parse).collect();
    let voice: Vec<_> = rig.voice.iter().map(parse).collect();
    assert_eq!(control.first().unwrap().frame_type, FrameType::DataSync);
    assert_eq!(control.first().unwrap().dtype_vseq, DATA_TYPE_VOICE_HEADER);
    assert_eq!(control.last().unwrap().frame_type, FrameType::DataSync);
    assert_eq!(control.last().unwrap().dtype_vseq, DATA_TYPE_VOICE_TERMINATOR);
    let sid = control.first().unwrap().stream_id;
    assert!(control.iter().all(|p| p.stream_id == sid));
    assert!(voice.iter().all(|p| p.stream_id == sid));
}

/// Sends so many frames and lets go of the key.
fn transmit(frames: usize) -> Vec<Dmrd> {
    let mut rig = Rig::start();
    let mut packets: Vec<Dmrd> = Vec::new();
    for i in 0..=frames {
        let frame = if i < frames { voice_audio() } else { unkey_audio() };
        let encoded = rig.m.audio_burst(&frame).map(|_| encode());
        for action in rig.m.on_audio(&frame, rig.now, 0x0BAD_CAFE, encoded) {
            match action {
                Action::Control(pkt) => packets.push(parse(&pkt)),
                Action::Voice(pkt) => packets.push(parse(&pkt)),
                _ => {}
            }
        }
    }
    assert!(matches!(rig.m.state, PttState::Idle));
    packets
}

#[test]
fn a_transmission_is_header_voice_and_terminator() {
    for frames in [1, 2, 3, 4, 17, 18, 19, 20, 765, 769] {
        let packets = transmit(frames);
        let bursts = (frames + 2) / 3;
        assert_eq!(packets.len(), bursts + 2, "{frames}");
        for (i, pkt) in packets.iter().enumerate() {
            assert_eq!(pkt.seq as usize, i % 256, "{frames}");
            assert_eq!(pkt.stream_id, 0x0BAD_CAFE);
        }
        assert_eq!(packets[0].frame_type, FrameType::DataSync);
        assert_eq!(packets[0].dtype_vseq, DATA_TYPE_VOICE_HEADER);
        for (k, pkt) in packets[1..=bursts].iter().enumerate() {
            assert_eq!(pkt.dtype_vseq as usize, k % 6);
            let expected = if k % 6 == 0 { FrameType::VoiceSync } else { FrameType::Voice };
            assert_eq!(pkt.frame_type, expected);
        }
        assert_eq!(packets[bursts + 1].frame_type, FrameType::DataSync);
        assert_eq!(packets[bursts + 1].dtype_vseq, DATA_TYPE_VOICE_TERMINATOR);
    }
}

#[test]
fn integration_shutdown_in_rx_emits_unkey() {
    let mut rig = Rig::start();
    rig.on_dmrd(&header_dmrd(0x4242));
    rig.on_dmrd(&voice_dmrd(0x4242));
    rig.audio.clear();
    rig.on_shutdown();
    assert_eq!(rig.audio.len(), 1);
    assert!(!rig.audio[0].keyup);
}

#[test]
fn integration_shutdown_in_tx_emits_terminator() {
    let mut rig = Rig::start();
    rig.on_audio(&voice_audio());
    rig.control.clear();
    rig.on_shutdown();
    assert!(rig.control.iter().map(parse).any(|p| {
        p.frame_type == FrameType::DataSync && p.dtype_vseq == DATA_TYPE_VOICE_TERMINATOR
    }));
}

#[test]
fn integration_network_reset_restarts_tx_with_fresh_header() {
    let mut rig = Rig::start();
    rig.on_audio(&voice_audio());
    let first_hdr = parse(&rig.control[0]);
    assert_eq!(first_hdr.dtype_vseq, DATA_TYPE_VOICE_HEADER);
    rig.control.clear();
    rig.on_audio(&voice_audio());
    rig.on_control(ControlEvent::NetworkReset);
    rig.on_audio(&voice_audio());
    let hdr = rig
        .control
        .iter()
        .map(parse)
        .find(|p| p.frame_type == FrameType::DataSync && p.dtype_vseq == DATA_TYPE_VOICE_HEADER)
        .expect("expected fresh header after network reset");
    assert_ne!(hdr.stream_id, first_hdr.stream_id);
}

// --- pieces ---

#[test]
fn deadlines_follow_the_state() {
    let mut rig = Rig::start();
    assert_eq!(rig.m.deadline(rig.now), rig.now + IDLE_WAIT);
    rig.on_dmrd(&header_dmrd(1));
    assert_eq!(rig.m.deadline(rig.now), rig.now + 10 * SEC);
    rig.on_dmrd(&terminator_dmrd(1));
    assert_eq!(rig.m.deadline(rig.now), rig.now + 500 * MS);
    let mut rig = Rig::start();
    rig.on_audio(&voice_audio());
    assert_eq!(rig.m.deadline(rig.now), rig.now + 180 * SEC);
}

#[test]
fn statistics_of_a_call() {
    let mut rig = Rig::start();
    rig.on_dmrd(&header_dmrd(5));
    rig.on_dmrd(&voice_dmrd(5));
    rig.on_dmrd(&terminator_dmrd(5));
    assert_eq!(
        rig.stats[0],
        StatsEvent::CallStart { dir: CallDirection::DmrToFm, src_id: 12345, dst_id: 91, slot: Slot::One }
    );
    let voice = StatsEvent::VoiceFrame { dir: CallDirection::DmrToFm, transcode: 1000 };
    assert_eq!(rig.stats[1..4], [voice; 3]);
    assert_eq!(
        rig.stats[4],
        StatsEvent::CallEnd { dir: CallDirection::DmrToFm, reason: TerminationReason::Normal }
    );
}

#[test]
fn refused_and_failed_frames_are_drops() {
    assert_eq!(burst_refused().len(), 3);
    assert!(gap_frame_decoded(1, None).is_empty());
    let failed = voice_frame_decoded(1, None, 0);
    assert!(matches!(
        failed[..],
        [Action::Stats(StatsEvent::Drop { dir: CallDirection::DmrToFm })]
    ));
    let full = voice_packet_stats(false, [1, 2, 3]);
    assert!(full.iter().all(|a| matches!(
        a,
        Action::Stats(StatsEvent::Drop { dir: CallDirection::FmToDmr })
    )));
    let sent = voice_packet_stats(true, [1, 2, 3]);
    assert!(matches!(
        sent[1],
        Action::Stats(StatsEvent::VoiceFrame { dir: CallDirection::FmToDmr, transcode: 2 })
    ));
    assert!(over_budget(20 * MS + 1));
    assert!(!over_budget(20 * MS));
    let burst = RxBurst { stream_id: 1, gap_frames: 6, frames: encode() };
    assert_eq!(frames_needed(&burst), 9);
}

#[test]
fn header_and_terminator_can_be_checked() {
    let mut rig = Rig::start();
    rig.on_audio(&voice_audio());
    rig.on_audio(&unkey_audio());
    for pkt in &rig.control {
        assert!(check_voice_lc(&parse(pkt)).is_empty());
    }
    let mut other = parse(&rig.control[0]);
    other.dst_id = 92;
    assert_eq!(
        check_voice_lc(&other),
        vec![LcFinding::AddressMismatch { lc_src: 12345, lc_dst: 91 }]
    );
    let mut flipped = parse(&rig.control[0]);
    flipped.dmr_data[0] ^= 0x40;
    assert!(matches!(check_voice_lc(&flipped)[..], [LcFinding::BitsCorrected(_)]));
    let noise = assemble_burst(&[[0x5A; 9], [0xC3; 9], [0x96; 9]], &[0; 6]);
    let mut broken = parse(&rig.control[0]);
    broken.dmr_data = noise;
    assert!(!check_voice_lc(&broken).is_empty());
}

#[test]
fn stream_ids_are_read_in_native_order() {
    assert_eq!(stream_id_from([1, 2, 3, 4]), u32::from_ne_bytes([1, 2, 3, 4]));
    assert_eq!(stream_id_of(Some([9, 0, 0, 7])), Some(u32::from_ne_bytes([9, 0, 0, 7])));
    assert_eq!(stream_id_of(None), None);
    let ids: Vec<u32> = (0..8).map(|_| new_stream_id().unwrap()).collect();
    assert!(ids.iter().any(|&id| id != ids[0]));
}

#[test]
fn what_one_bridge_sends_another_receives() {
    let mut sender = PttMachine::new(test_voice_config());
    let mut receiver = PttMachine::new(test_voice_config());
    let now = 1000 * SEC;
    let mut sent = Vec::new();
    let mut received = Vec::new();
    let mut frames = vec![voice_audio(); 21];
    frames.push(unkey_audio());
    for frame in &frames {
        let coded = sender.audio_burst(frame).map(|_| {
            let n = sent.len() as u8;
            [[n; AMBE_FRAME_SIZE], [0x5A ^ n; AMBE_FRAME_SIZE], [0xFF - n; AMBE_FRAME_SIZE]]
        });
        sent.extend(coded);
        for action in sender.on_audio(frame, now, 77, coded) {
            let (Action::Control(w) | Action::Voice(w)) = action else {
                continue;
            };
            let step = receiver.on_dmrd(&parse(&w), now, None);
            received.extend(step.burst.map(|b| b.frames));
            if let Some(id) = rx_stream(&receiver) {
                assert_eq!(id, 77);
            }
        }
    }
    assert_eq!(sent.len(), 7);
    assert_eq!(received, sent);
    assert!(matches!(receiver.state, PttState::RxHang(_)));
}
