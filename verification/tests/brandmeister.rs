//! The description of a station, and its fields.

use asl_dmr_bridge::brandmeister::{
    fmt_latlon, or_default, Angle, Brandmeister, NetworkProfile, Station, CALLSIGN_WIDTH,
    COLOR_CODE_WIDTH, CONFIG_STRING_LEN, LATITUDE_WIDTH, LONGITUDE_WIDTH, MAX_LATITUDE,
    MAX_LONGITUDE, RX_FREQ_WIDTH, TAG_RPTC, TX_FREQ_WIDTH, TX_POWER_WIDTH,
};
use asl_dmr_bridge::config::{Callsign, Frequency};
use asl_dmr_bridge::text::{fmt_decimal, fmt_digits, fmt_str, prefix, trim};
use asl_dmr_bridge::types::{ColorCode, DmrId, Slot, REPEATER_ID_WIRE_LEN};

fn test_config() -> Station {
    Station {
        callsign: Callsign::new("N0CALL".to_string()).unwrap(),
        dmr_id: DmrId::try_from(1234567).unwrap(),
        rx_freq: Frequency::new(434000000).unwrap(),
        tx_freq: Frequency::new(439000000).unwrap(),
        tx_power: String::new(),
        color_code: ColorCode::default(),
        latitude: None,
        longitude: None,
        height: None,
        location: String::new(),
        description: String::new(),
        url: String::new(),
        slot: Slot::One,
    }
}

fn full_config() -> Station {
    Station {
        tx_power: "25".to_string(),
        color_code: ColorCode::try_from(7).unwrap(),
        height: Some(50),
        location: "Anywhere".to_string(),
        description: "Test bridge".to_string(),
        url: "http://example.org".to_string(),
        ..test_config()
    }
}

#[test]
fn config_packet_length() {
    let pkt = Brandmeister.config_packet(&test_config());
    assert_eq!(
        pkt.len(),
        TAG_RPTC.len() + REPEATER_ID_WIRE_LEN + CONFIG_STRING_LEN
    );
}

#[test]
fn config_packet_tag() {
    let pkt = Brandmeister.config_packet(&test_config());
    assert_eq!(&pkt[..4], &TAG_RPTC[..]);
}

#[test]
fn config_packet_repeater_id() {
    let pkt = Brandmeister.config_packet(&test_config());
    assert_eq!(&pkt[4..8], &[0x00, 0x12, 0xD6, 0x87]);
}

#[test]
fn config_packet_callsign() {
    let pkt = Brandmeister.config_packet(&test_config());
    let start = TAG_RPTC.len() + REPEATER_ID_WIRE_LEN;
    assert_eq!(&pkt[start..start + CALLSIGN_WIDTH], b"N0CALL  ");
}

#[test]
fn config_packet_full_layout() {
    let pkt = Brandmeister.config_packet(&full_config());
    let mut expected: Vec<u8> = Vec::new();
    expected.extend_from_slice(b"RPTC");
    expected.extend_from_slice(&[0x00, 0x12, 0xD6, 0x87]); // dmr_id 1234567 BE
    expected.extend_from_slice(b"N0CALL  "); // callsign (8)
    expected.extend_from_slice(b"434000000"); // rx_freq (9)
    expected.extend_from_slice(b"439000000"); // tx_freq (9)
    expected.extend_from_slice(b"25"); // tx_power (2)
    expected.extend_from_slice(b"07"); // color_code (2)
    expected.extend_from_slice(b"+00.0000"); // latitude (8)
    expected.extend_from_slice(b"+000.0000"); // longitude (9)
    expected.extend_from_slice(b"050"); // height (3)
    expected.extend_from_slice(b"Anywhere            "); // location (20)
    expected.extend_from_slice(b"Test bridge        "); // description (19)
    expected.extend_from_slice(b"1"); // slots (1)
    let mut url = b"http://example.org".to_vec();
    url.resize(124, b' ');
    expected.extend_from_slice(&url); // url (124)
    let mut sw = b"20260412_asl-dmr-bridge".to_vec();
    sw.resize(40, b' ');
    expected.extend_from_slice(&sw); // software_id (40)
    let mut pkg = b"MMDVM_asl-dmr-bridge".to_vec();
    pkg.resize(40, b' ');
    expected.extend_from_slice(&pkg); // package_id (40)
    assert_eq!(
        pkt,
        expected,
        "RPTC byte layout drift: got {} expected {}",
        String::from_utf8_lossy(&pkt),
        String::from_utf8_lossy(&expected)
    );
}

#[test]
fn config_packet_lat_lon() {
    let pkt = Brandmeister.config_packet(&test_config());
    let lat_start = TAG_RPTC.len()
        + REPEATER_ID_WIRE_LEN
        + CALLSIGN_WIDTH
        + RX_FREQ_WIDTH
        + TX_FREQ_WIDTH
        + TX_POWER_WIDTH
        + COLOR_CODE_WIDTH;
    let lat = std::str::from_utf8(&pkt[lat_start..lat_start + LATITUDE_WIDTH]).unwrap();
    let lon = std::str::from_utf8(
        &pkt[lat_start + LATITUDE_WIDTH..lat_start + LATITUDE_WIDTH + LONGITUDE_WIDTH],
    )
    .unwrap();
    assert_eq!(lat, "+00.0000");
    assert_eq!(lon, "+000.0000");
}

#[test]
fn fmt_str_pads_short_input() {
    assert_eq!(fmt_str("ab", 5), "ab   ");
}

#[test]
fn fmt_str_passes_exact_width() {
    assert_eq!(fmt_str("abcde", 5), "abcde");
}

#[test]
fn fmt_str_truncates_long_input() {
    assert_eq!(fmt_str("abcdefgh", 5), "abcde");
}

#[test]
fn fmt_str_empty_input_pads_full_width() {
    assert_eq!(fmt_str("", 4), "    ");
}

#[test]
fn fmt_str_zero_width_returns_empty() {
    assert_eq!(fmt_str("anything", 0), "");
}

#[test]
fn fmt_str_truncates_at_utf8_boundary() {
    let s = "abéf";
    assert_eq!(fmt_str(s, 3), "ab ");
}

#[test]
fn fmt_str_truncates_inside_multibyte_char_pads_remainder() {
    let s = "\u{1F3B5}xyz";
    let out = fmt_str(s, 2);
    assert_eq!(out, "  ");
    assert!(out.is_ascii(), "must not emit partial UTF-8 bytes");
}

#[test]
fn fmt_str_keeps_full_multibyte_char_when_room_exists() {
    let s = "abéf";
    let out = fmt_str(s, 6);
    assert_eq!(out, "abéf ");
    assert_eq!(out.len(), 6);
}

#[test]
fn config_packet_defaults_and_limits() {
    let station = Station {
        height: Some(12345),
        slot: Slot::Two,
        location: "a place whose name is too long for the field".to_string(),
        ..test_config()
    };
    let pkt = Brandmeister.config_packet(&station);
    let text = String::from_utf8(pkt[8..].to_vec()).unwrap();
    assert_eq!(&text[26..28], "01"); // power
    assert_eq!(&text[28..30], "01"); // colour code
    assert_eq!(&text[47..50], "999"); // height
    assert_eq!(&text[50..70], "a place whose name i");
    assert_eq!(&text[70..89], "asl-dmr-bridge     ");
    assert_eq!(&text[89..90], "2");
}

#[test]
fn default_for_empty_text() {
    assert_eq!(or_default("", "01"), "01");
    assert_eq!(or_default("25", "01"), "25");
}

#[test]
fn numbers_as_digits() {
    assert_eq!(fmt_digits(7, 2), "07");
    assert_eq!(fmt_digits(434_000_000, 9), "434000000");
    assert_eq!(fmt_digits(12345, 3), "345");
    assert_eq!(fmt_digits(5, 0), "");
    assert_eq!(fmt_decimal(0), "0");
    assert_eq!(fmt_decimal(4_294_967_295), "4294967295");
    assert_eq!(fmt_decimal(1203), "1203");
}

#[test]
fn prefixes_end_between_characters() {
    assert_eq!(prefix("ab\u{e9}f", 3), "ab");
    assert_eq!(prefix("ab\u{e9}f", 4), "ab\u{e9}");
    assert_eq!(prefix("abc", 10), "abc");
    assert_eq!(prefix("\u{1F3B5}", 3), "");
}

#[test]
fn trimming_takes_white_space_off() {
    for s in ["", " ", "x", " \t\r\nab c\u{a0}\u{3000}", "\u{2003}\u{1680}a\u{85}", "\u{200b}a "] {
        assert_eq!(trim(s), s.trim());
    }
    for c in (0..0x11_0000u32).filter_map(char::from_u32) {
        let s = c.to_string();
        assert_eq!(trim(&s).is_empty(), c.is_whitespace(), "{c:?}");
    }
}

fn angle(degrees: f64) -> Angle {
    let text = format!("{:.4}", degrees.abs());
    Angle {
        negative: degrees.is_sign_negative(),
        parts: text.replace('.', "").parse().unwrap(),
    }
}

#[test]
fn fmt_latlon_zero_formats_with_sign() {
    assert_eq!(fmt_latlon(angle(0.0), LATITUDE_WIDTH, MAX_LATITUDE), "+00.0000");
}

#[test]
fn fmt_latlon_positive_in_range() {
    assert_eq!(
        fmt_latlon(angle(37.7749), LATITUDE_WIDTH, MAX_LATITUDE),
        "+37.7749"
    );
}

#[test]
fn fmt_latlon_negative_in_range() {
    assert_eq!(
        fmt_latlon(angle(-37.7749), LATITUDE_WIDTH, MAX_LATITUDE),
        "-37.7749"
    );
}

#[test]
fn fmt_latlon_clamps_above_limit() {
    let out = fmt_latlon(angle(95.0), LATITUDE_WIDTH, MAX_LATITUDE);
    assert_eq!(out, "+89.9999");
    assert_eq!(out.len(), LATITUDE_WIDTH);
}

#[test]
fn fmt_latlon_clamps_below_negative_limit() {
    let out = fmt_latlon(angle(-100.0), LATITUDE_WIDTH, MAX_LATITUDE);
    assert_eq!(out, "-89.9999");
    assert_eq!(out.len(), LATITUDE_WIDTH);
}

#[test]
fn fmt_latlon_at_positive_boundary_fits_field() {
    let out = fmt_latlon(angle(89.9999), LATITUDE_WIDTH, MAX_LATITUDE);
    assert_eq!(out.len(), LATITUDE_WIDTH);
    assert_eq!(out, "+89.9999");
}

#[test]
fn fmt_latlon_at_negative_boundary_fits_field() {
    let out = fmt_latlon(angle(-89.9999), LATITUDE_WIDTH, MAX_LATITUDE);
    assert_eq!(out.len(), LATITUDE_WIDTH);
    assert_eq!(out, "-89.9999");
}

#[test]
fn fmt_latlon_longitude_field_is_one_byte_wider() {
    let out = fmt_latlon(angle(179.9999), LONGITUDE_WIDTH, MAX_LONGITUDE);
    assert_eq!(out.len(), LONGITUDE_WIDTH);
    assert_eq!(out, "+179.9999");
    let neg = fmt_latlon(angle(-179.9999), LONGITUDE_WIDTH, MAX_LONGITUDE);
    assert_eq!(neg, "-179.9999");
}

#[test]
fn angles_stand_in_the_packet() {
    let mut station = test_config();
    station.latitude = Some(angle(-7.5));
    station.longitude = Some(angle(122.4194));
    let pkt = Brandmeister.config_packet(&station);
    assert_eq!(&pkt[8 + 30..8 + 38], b"-07.5000");
    assert_eq!(&pkt[8 + 38..8 + 47], b"+122.4194");
}
