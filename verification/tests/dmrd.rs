//! Packets of the Homebrew protocol.

use asl_dmr_bridge::dmrd::{CallType, Dmrd, DmrdError, FrameType, DMR_DATA_SIZE, MAGIC, PACKET_SIZE};
use asl_dmr_bridge::types::Slot;

fn sample_packet(flags: u8) -> Vec<u8> {
    let mut buf = Vec::with_capacity(PACKET_SIZE);
    buf.extend_from_slice(&MAGIC);
    buf.push(0x2A); // seq
    buf.extend_from_slice(&[0x01, 0x23, 0x45]); // src_id = 0x012345
    buf.extend_from_slice(&[0x00, 0x00, 0x09]); // dst_id = TG 9
    buf.extend_from_slice(&[0x00, 0x12, 0xD6, 0x87]); // repeater_id
    buf.push(flags);
    buf.extend_from_slice(&[0xDE, 0xAD, 0xBE, 0xEF]); // stream_id
    buf.extend_from_slice(&[0xAA; DMR_DATA_SIZE]);
    buf
}

#[test]
fn parse_voice_ts1_group() {
    let buf = sample_packet(0b0000_0011);
    let d = Dmrd::parse(&buf).unwrap();
    assert_eq!(d.seq, 0x2A);
    assert_eq!(d.src_id, 0x0001_2345);
    assert_eq!(d.dst_id, 9);
    assert_eq!(d.repeater_id, 1234567);
    assert_eq!(d.slot, Slot::One);
    assert_eq!(d.call_type, CallType::Group);
    assert_eq!(d.frame_type, FrameType::Voice);
    assert_eq!(d.dtype_vseq, 3);
    assert_eq!(d.stream_id, 0xDEAD_BEEF);
    assert_eq!(d.dmr_data, [0xAA; DMR_DATA_SIZE]);
}

#[test]
fn parse_data_sync_ts2_unit() {
    let buf = sample_packet(0b1110_0001);
    let d = Dmrd::parse(&buf).unwrap();
    assert_eq!(d.slot, Slot::Two);
    assert_eq!(d.call_type, CallType::Unit);
    assert_eq!(d.frame_type, FrameType::DataSync);
    assert_eq!(d.dtype_vseq, 1);
}

#[test]
fn parse_voice_sync() {
    let buf = sample_packet(0b0001_0000);
    let d = Dmrd::parse(&buf).unwrap();
    assert_eq!(d.frame_type, FrameType::VoiceSync);
}

#[test]
fn parse_reserved_frame_type() {
    let buf = sample_packet(0b0011_0000);
    assert!(matches!(
        Dmrd::parse(&buf),
        Err(DmrdError::ReservedFrameType)
    ));
}

#[test]
fn dmrd_parse_bad_magic() {
    let mut buf = sample_packet(0);
    buf[0..4].copy_from_slice(b"NOPE");
    assert!(matches!(Dmrd::parse(&buf), Err(DmrdError::BadMagic(_))));
}

#[test]
fn dmrd_parse_too_short() {
    let buf = [0u8; 10];
    assert!(matches!(Dmrd::parse(&buf), Err(DmrdError::TooShort(10))));
}

#[test]
fn parse_tolerates_oversized_buffer() {
    let mut buf = sample_packet(0);
    buf.extend_from_slice(&[0xFF; 16]); // trailing junk
    let d = Dmrd::parse(&buf).expect("oversized buffer should parse");
    assert_eq!(d.seq, 0x2A);
}

#[test]
fn serialize_round_trip() {
    let orig = Dmrd {
        seq: 0x2A,
        src_id: 0x0001_2345,
        dst_id: 9,
        repeater_id: 1234567,
        slot: Slot::Two,
        call_type: CallType::Unit,
        frame_type: FrameType::DataSync,
        dtype_vseq: 5,
        stream_id: 0xDEAD_BEEF,
        dmr_data: [0xBB; DMR_DATA_SIZE],
    };
    let buf = orig.serialize();
    assert_eq!(buf.len(), PACKET_SIZE);
    assert_eq!(&buf[0..4], &MAGIC[..]);

    let parsed = Dmrd::parse(&buf).unwrap();
    assert_eq!(parsed.seq, orig.seq);
    assert_eq!(parsed.src_id, orig.src_id);
    assert_eq!(parsed.dst_id, orig.dst_id);
    assert_eq!(parsed.repeater_id, orig.repeater_id);
    assert_eq!(parsed.slot, orig.slot);
    assert_eq!(parsed.call_type, orig.call_type);
    assert_eq!(parsed.frame_type, orig.frame_type);
    assert_eq!(parsed.dtype_vseq, orig.dtype_vseq);
    assert_eq!(parsed.stream_id, orig.stream_id);
    assert_eq!(parsed.dmr_data, orig.dmr_data);
}

#[test]
fn serialize_matches_sample_packet() {
    let buf = sample_packet(0b0000_0011);
    let d = Dmrd::parse(&buf).unwrap();
    let serialized = d.serialize();
    assert_eq!(&serialized[..], &buf[..]);
}

#[test]
fn every_flag_byte_survives() {
    for flags in 0..=255u8 {
        let buf = sample_packet(flags);
        match Dmrd::parse(&buf) {
            Ok(d) => assert_eq!(d.serialize()[..], buf[..]),
            Err(e) => {
                assert_eq!(e, DmrdError::ReservedFrameType);
                assert_eq!(flags >> 4 & 3, 3);
            }
        }
    }
}

#[test]
fn errors_carry_what_was_found() {
    let mut buf = sample_packet(0);
    buf[..4].copy_from_slice(b"RPTL");
    assert_eq!(Dmrd::parse(&buf).unwrap_err(), DmrdError::BadMagic(*b"RPTL"));
    assert_eq!(Dmrd::parse(&buf[..52]).unwrap_err(), DmrdError::TooShort(52));
}
