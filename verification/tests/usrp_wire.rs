//! USRP frames.

use asl_dmr_bridge::usrp_wire::{Frame, FrameType, UsrpError, HEADER_SIZE, MAGIC, PACKET_SIZE, VOICE_SAMPLES};

fn make_voice_frame() -> Frame {
    let mut audio = [0i16; VOICE_SAMPLES];
    for (i, sample) in audio.iter_mut().enumerate() {
        *sample = i as i16 * 100;
    }
    Frame {
        seq: 42,
        keyup: true,
        talkgroup: 2,
        frame_type: FrameType::Voice,
        audio: Some(audio),
        text: None,
    }
}

fn make_unkey_frame() -> Frame {
    Frame {
        seq: 43,
        keyup: false,
        talkgroup: 2,
        frame_type: FrameType::Voice,
        audio: None,
        text: None,
    }
}

#[test]
fn round_trip_voice() {
    let frame = make_voice_frame();
    let buf = frame.serialize(false);
    assert_eq!(buf.len(), PACKET_SIZE);
    assert_eq!(&buf[0..4], b"USRP");

    let parsed = Frame::parse(&buf, false).unwrap();
    assert_eq!(parsed.seq, 42);
    assert!(parsed.keyup);
    assert_eq!(parsed.talkgroup, 2);
    assert_eq!(parsed.frame_type, FrameType::Voice);
    assert_eq!(parsed.audio.unwrap(), frame.audio.unwrap());
}

#[test]
fn round_trip_unkey() {
    let frame = make_unkey_frame();
    let buf = frame.serialize(false);
    assert_eq!(buf.len(), HEADER_SIZE);

    let parsed = Frame::parse(&buf, false).unwrap();
    assert_eq!(parsed.seq, 43);
    assert!(!parsed.keyup);
    assert!(parsed.audio.is_none());
}

#[test]
fn lib_parse_bad_magic() {
    let mut buf = [0u8; HEADER_SIZE];
    buf[0..4].copy_from_slice(b"NOPE");
    assert!(Frame::parse(&buf, false).is_err());
}

#[test]
fn lib_parse_too_short() {
    let buf = [0u8; 16];
    assert!(Frame::parse(&buf, false).is_err());
}

#[test]
fn parse_rejects_ambiguous_length() {
    let mut buf = [0u8; HEADER_SIZE + 100];
    buf[0..4].copy_from_slice(&MAGIC);
    buf[12..16].copy_from_slice(&1u32.to_be_bytes());
    assert!(matches!(
        Frame::parse(&buf, false),
        Err(UsrpError::AmbiguousLength(_, _, _))
    ));
}

#[test]
fn header_byte_order() {
    let frame = Frame {
        seq: 0x01020304,
        keyup: true,
        talkgroup: 0x00000002,
        frame_type: FrameType::Voice,
        audio: None,
        text: None,
    };
    let buf = frame.serialize(false);
    assert_eq!(&buf[4..8], &[0x01, 0x02, 0x03, 0x04]);
    assert_eq!(&buf[12..16], &[0x00, 0x00, 0x00, 0x01]);
    assert_eq!(&buf[16..20], &[0x00, 0x00, 0x00, 0x02]);
}

#[test]
fn round_trip_byte_swap() {
    let frame = make_voice_frame();
    let buf = frame.serialize(true);
    let parsed = Frame::parse(&buf, true).unwrap();
    assert_eq!(parsed.audio.unwrap(), frame.audio.unwrap());
}

#[test]
fn byte_swap_flips_samples() {
    let frame = make_voice_frame();
    let native_buf = frame.serialize(false);
    let swapped_buf = frame.serialize(true);
    let offset = HEADER_SIZE + 2;
    assert_ne!(
        native_buf[offset..offset + 2],
        swapped_buf[offset..offset + 2]
    );
}

#[test]
fn serialize_text_layout() {
    let buf = Frame::serialize_text(7, "hello");
    assert_eq!(buf.len(), HEADER_SIZE + 5 + 1);
    assert_eq!(&buf[0..4], b"USRP");
    assert_eq!(&buf[4..8], &[0, 0, 0, 7]);
    assert!(buf[8..20].iter().all(|&b| b == 0));
    assert_eq!(&buf[20..24], &[0, 0, 0, 2]);
    assert!(buf[24..32].iter().all(|&b| b == 0));
    assert_eq!(&buf[HEADER_SIZE..HEADER_SIZE + 5], b"hello");
    assert_eq!(buf[HEADER_SIZE + 5], 0);
}

#[test]
fn serialize_text_empty_payload() {
    let buf = Frame::serialize_text(0, "");
    assert_eq!(buf.len(), HEADER_SIZE + 1);
    assert_eq!(&buf[0..4], b"USRP");
    assert_eq!(buf[HEADER_SIZE], 0);
}

#[test]
fn serialize_text_round_trips_through_parse() {
    let buf = Frame::serialize_text(7, "hello");
    let frame = Frame::parse(&buf, false).expect("text frame parses");
    assert_eq!(frame.seq, 7);
    assert_eq!(frame.frame_type, FrameType::Text);
    assert!(frame.audio.is_none());
    assert_eq!(frame.text.as_deref(), Some(&b"hello"[..]));
}

#[test]
fn parse_empty_text_payload() {
    let buf = Frame::serialize_text(0, "");
    let frame = Frame::parse(&buf, false).expect("empty text parses");
    assert_eq!(frame.frame_type, FrameType::Text);
    assert_eq!(frame.text.as_deref(), Some(&[][..]));
}

#[test]
fn parse_still_rejects_ambiguous_voice_length() {
    let mut buf = [0u8; HEADER_SIZE + 100];
    buf[0..4].copy_from_slice(&MAGIC);
    buf[12..16].copy_from_slice(&1u32.to_be_bytes());
    assert!(matches!(
        Frame::parse(&buf, false),
        Err(UsrpError::AmbiguousLength(_, _, _))
    ));
}

#[test]
fn unknown_frame_type() {
    let mut buf = [0u8; HEADER_SIZE];
    buf[0..4].copy_from_slice(&MAGIC);
    buf[20..24].copy_from_slice(&99u32.to_be_bytes());
    assert!(matches!(
        Frame::parse(&buf, false),
        Err(UsrpError::UnknownFrameType(99))
    ));
}

#[test]
fn samples_have_the_native_order() {
    let frame = make_voice_frame();
    let buf = frame.serialize(false);
    let audio = frame.audio.unwrap();
    for (i, s) in audio.iter().enumerate() {
        let at = HEADER_SIZE + 2 * i;
        assert_eq!(buf[at..at + 2], s.to_ne_bytes());
    }
    assert_eq!(frame.serialize_ordered(true)[HEADER_SIZE + 2..HEADER_SIZE + 4], 100i16.to_le_bytes());
    assert_eq!(frame.serialize_ordered(false)[HEADER_SIZE + 2..HEADER_SIZE + 4], 100i16.to_be_bytes());
}

#[test]
fn usrp_errors_carry_what_was_found() {
    assert!(matches!(Frame::parse(&[0; 31], false), Err(UsrpError::TooShort(31))));
    let mut buf = [0u8; HEADER_SIZE + 1];
    assert!(matches!(Frame::parse(&buf, false), Err(UsrpError::BadMagic([0, 0, 0, 0]))));
    buf[0..4].copy_from_slice(&MAGIC);
    assert!(matches!(
        Frame::parse(&buf, false),
        Err(UsrpError::AmbiguousLength(33, HEADER_SIZE, PACKET_SIZE))
    ));
    buf[23] = 1;
    let frame = Frame::parse(&buf, false).unwrap();
    assert_eq!(frame.frame_type, FrameType::Dtmf);
    assert_eq!(frame.text, Some(vec![]));
}
