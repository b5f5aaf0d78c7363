//! The bridge's end of the USRP transport.

use asl_dmr_bridge::audio::AudioFrame;
use asl_dmr_bridge::events::MetaEvent;
use asl_dmr_bridge::usrp::{AgcStep, CallStep, RxStep, UsrpRx, UsrpTx};
use asl_dmr_bridge::usrp_wire::{
    Frame, FrameType, UsrpError, HEADER_SIZE, VOICE_FRAME_INTERVAL, VOICE_SAMPLES,
};

fn voice_frame() -> Frame {
    let mut audio = [0i16; VOICE_SAMPLES];
    for (i, sample) in audio.iter_mut().enumerate() {
        *sample = i as i16 * 100;
    }
    Frame {
        seq: 42,
        keyup: true,
        talkgroup: 2,
        frame_type: FrameType::Voice,
        audio: Some(audio),
        text: None,
    }
}

fn unkey() -> Frame {
    Frame {
        keyup: false,
        audio: None,
        ..voice_frame()
    }
}

fn audio(keyup: bool, voice: bool, stream: Option<u32>) -> AudioFrame {
    AudioFrame {
        keyup,
        samples: if voice { Some([7; VOICE_SAMPLES]) } else { None },
        dmr_stream_id: stream,
    }
}

#[test]
fn only_voice_of_the_peer_gets_through() {
    let mut rx = UsrpRx::new(false);
    let buf = voice_frame().serialize(false);
    assert!(matches!(rx.on_packet(false, &buf, false), RxStep::Foreign));
    match rx.on_packet(true, &buf, false) {
        RxStep::Audio(a, AgcStep::Skip) => {
            assert!(a.keyup);
            assert_eq!(a.samples, voice_frame().audio);
            assert_eq!(a.dmr_stream_id, None);
        }
        other => panic!("got {other:?}"),
    }
    assert!(matches!(
        rx.on_packet(true, &buf[..20], false),
        RxStep::Malformed(UsrpError::TooShort(20))
    ));
    let text = Frame::serialize_text(1, "hello");
    assert!(matches!(rx.on_packet(true, &text, false), RxStep::NotVoice));
}

#[test]
fn gain_control_follows_the_key() {
    let mut rx = UsrpRx::new(true);
    let voice = voice_frame().serialize(false);
    let end = unkey().serialize(false);
    assert!(matches!(rx.on_packet(true, &end, false), RxStep::Audio(_, AgcStep::Skip)));
    assert!(matches!(rx.on_packet(true, &voice, false), RxStep::Audio(_, AgcStep::Process)));
    assert!(matches!(rx.on_packet(true, &end, false), RxStep::Audio(_, AgcStep::Finish)));
    assert!(matches!(rx.on_packet(true, &end, false), RxStep::Audio(_, AgcStep::Skip)));
    rx.on_packet(true, &voice, false);
    assert!(rx.finish());
    assert!(!rx.finish());
}

#[test]
fn voice_is_paced() {
    let mut tx = UsrpTx::new(91);
    let voice = audio(true, true, Some(1));
    let t = VOICE_FRAME_INTERVAL;
    let start = 1_000_000_000;
    // Three frames at once leave one interval apart.
    assert_eq!(tx.pace(&voice, start), None);
    assert_eq!(tx.pace(&voice, start), Some(start + t));
    assert_eq!(tx.pace(&voice, start), Some(start + 2 * t));
    // A late frame leaves at once, and the next one waits a whole interval.
    assert_eq!(tx.pace(&voice, start + 10 * t), None);
    assert_eq!(tx.pace(&voice, start + 10 * t + 1), Some(start + 11 * t));
    // Other frames do not wait, nor does the voice after them.
    assert_eq!(tx.pace(&audio(false, false, None), start), None);
    assert_eq!(tx.pace(&voice, start), None);
}

#[test]
fn calls_are_recorded_from_voice_to_unkey() {
    let mut tx = UsrpTx::new(91);
    assert_eq!(tx.call_step(&audio(true, false, Some(5))), CallStep::Skip);
    assert_eq!(tx.call_step(&audio(true, true, Some(5))), CallStep::Open(5));
    assert_eq!(tx.call_step(&audio(true, true, Some(5))), CallStep::Record);
    assert_eq!(tx.call_step(&audio(false, false, None)), CallStep::Close(5));
    assert_eq!(tx.call_step(&audio(false, false, None)), CallStep::Skip);
    assert_eq!(tx.call_step(&audio(true, true, None)), CallStep::Open(0));
    assert_eq!(tx.finish(), Some(0));
    assert_eq!(tx.finish(), None);
    assert_eq!(tx.agc_step(&audio(true, true, None)), AgcStep::Process);
    assert_eq!(tx.agc_step(&audio(true, false, None)), AgcStep::Skip);
    assert_eq!(tx.agc_step(&audio(false, false, None)), AgcStep::Finish);
}

#[test]
fn packets_are_numbered() {
    let mut tx = UsrpTx::new(91);
    tx.seq = u32::MAX;
    let samples = Some([-3i16; VOICE_SAMPLES]);
    let w = tx.packet(true, samples, false);
    let f = Frame::parse(&w, false).unwrap();
    assert_eq!((f.seq, f.keyup, f.talkgroup), (u32::MAX, true, 91));
    assert_eq!(f.audio, samples);
    let w = tx.text_packet(&MetaEvent::Clear);
    assert_eq!(&w[HEADER_SIZE..], b"{}\0");
    let f = Frame::parse(&w, false).unwrap();
    assert_eq!((f.seq, f.frame_type), (0, FrameType::Text));
    let w = tx.packet(false, None, false);
    assert_eq!(Frame::parse(&w, false).unwrap().seq, 1);
    assert_eq!(w.len(), HEADER_SIZE);
}
