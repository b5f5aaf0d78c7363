//! Sending, receiving and playing USRP voice.

use asl_dmr_bridge::usrp_tool::{
    check_wav_format, has_wav_extension, is_stdout_path, pick_output, raw_bytes, raw_frame,
    wav_frame, OutputKind, Playback, RecvStep, VoiceReceiver, VoiceSender, WavFormatError,
    PREBUFFER_SAMPLES,
};
use asl_dmr_bridge::usrp_wire::{Frame, HEADER_SIZE, PACKET_SIZE, VOICE_SAMPLES};

#[test]
fn outputs_are_picked_by_path() {
    assert!(has_wav_extension(Some("WaV")));
    assert!(!has_wav_extension(Some("wave")));
    assert!(!has_wav_extension(None));
    assert!(is_stdout_path("-"));
    assert!(!is_stdout_path("-x"));
    assert_eq!(pick_output(true, None, None), OutputKind::Device);
    assert_eq!(pick_output(false, None, None), OutputKind::Stdout);
    assert_eq!(pick_output(false, Some("-"), None), OutputKind::Stdout);
    assert_eq!(pick_output(false, Some("a.wav"), Some("wav")), OutputKind::Wav);
    assert_eq!(pick_output(false, Some("a.pcm"), Some("pcm")), OutputKind::File);
}

#[test]
fn wav_files_are_checked() {
    assert_eq!(check_wav_format(8000, 1, true, 16), Ok(()));
    assert_eq!(
        check_wav_format(44100, 2, false, 24),
        Err(WavFormatError::SampleRate(44100))
    );
    assert_eq!(check_wav_format(8000, 2, true, 16), Err(WavFormatError::Channels(2)));
    assert_eq!(
        check_wav_format(8000, 1, false, 16),
        Err(WavFormatError::Sample { integer: false, bits: 16 })
    );
    assert_eq!(
        check_wav_format(8000, 1, true, 8),
        Err(WavFormatError::Sample { integer: true, bits: 8 })
    );
}

#[test]
fn last_wav_frame_is_filled_up() {
    assert!(wav_frame(&[]).is_none());
    let frame = wav_frame(&[5, -6]).unwrap();
    assert_eq!(frame[..3], [5, -6, 0]);
    assert!(frame[2..].iter().all(|&s| s == 0));
    let whole: Vec<i16> = (0..200).collect();
    assert_eq!(wav_frame(&whole).unwrap()[..], whole[..160]);
}

#[test]
fn raw_audio_is_native() {
    let mut samples = [0i16; VOICE_SAMPLES];
    for (i, s) in samples.iter_mut().enumerate() {
        *s = (i as i16 - 80) * 400;
    }
    let bytes = raw_bytes(&samples);
    for (i, s) in samples.iter().enumerate() {
        assert_eq!(bytes[2 * i..2 * i + 2], s.to_le_bytes());
    }
    assert_eq!(raw_frame(&bytes), Some(samples));
    assert_eq!(raw_frame(&bytes[..319]), None);
}

#[test]
fn a_transmission_is_keyed_and_unkeyed() {
    let mut sender = VoiceSender::new(31);
    let mut receiver = VoiceReceiver::new();
    for n in 0..4u32 {
        let w = sender.voice([n as i16; VOICE_SAMPLES]);
        assert_eq!(w.len(), PACKET_SIZE);
        let f = Frame::parse(&w, false).unwrap();
        assert_eq!((f.seq, f.keyup, f.talkgroup), (n, true, 31));
        match receiver.on_packet(&w) {
            RecvStep::Samples(s) => assert_eq!(s, [n as i16; VOICE_SAMPLES]),
            other => panic!("got {other:?}"),
        }
        assert_eq!(sender.reports(), n < 3);
    }
    let w = sender.unkey();
    assert_eq!(w.len(), HEADER_SIZE);
    assert_eq!(Frame::parse(&w, false).unwrap().seq, 4);
    assert!(matches!(receiver.on_packet(&w), RecvStep::Unkey(4)));
    assert!(matches!(receiver.on_packet(&w), RecvStep::Unkey(0)));
    assert!(matches!(receiver.on_packet(b"junk"), RecvStep::Ignore));
    let text = Frame::serialize_text(0, "x");
    assert!(matches!(receiver.on_packet(&text), RecvStep::Ignore));
    sender.frames_sent = 50;
    assert!(sender.reports());
}

#[test]
fn playback_begins_with_two_frames() {
    let mut p = Playback::new();
    assert_eq!(PREBUFFER_SAMPLES, 2 * VOICE_SAMPLES);
    p.push(&[1; VOICE_SAMPLES]);
    assert_eq!(p.pull(3), vec![0, 0, 0]);
    p.push(&[2; VOICE_SAMPLES]);
    assert_eq!(p.pull(159), vec![1; 159]);
    assert_eq!(p.pull(3), vec![1, 2, 2]);
    let rest = p.pull(160);
    assert_eq!(rest[..158], [2; 158]);
    assert_eq!(rest[158..], [0, 0]);
    // An empty buffer does not stop playback; an unkey does.
    p.push(&[3; VOICE_SAMPLES]);
    assert_eq!(p.pull(1), vec![3]);
    p.stop();
    p.push(&[4; VOICE_SAMPLES]);
    assert_eq!(p.pull(1), vec![0]);
}
