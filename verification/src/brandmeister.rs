//! The station's description, as the Brandmeister network expects it at login.

use vstd::prelude::*;
use vstd::utf8::*;

use crate::bytes::be32;
use crate::config::{Callsign, Frequency, FREQ_DIGITS};
use crate::text::{
    digits, fmt_digits, fmt_str, law_digits, law_padded_width, lemma_encode_ascii, number, padded,
    power_of_ten, push_text,
};
use crate::types::{ColorCode, DmrId, Slot, MAX_COLOR_CODE};

verus! {

pub const CALLSIGN_WIDTH: usize = 8;

pub const RX_FREQ_WIDTH: usize = 9;

pub const TX_FREQ_WIDTH: usize = 9;

pub const TX_POWER_WIDTH: usize = 2;

pub const COLOR_CODE_WIDTH: usize = 2;

pub const LATITUDE_WIDTH: usize = 8;

pub const LONGITUDE_WIDTH: usize = 9;

pub const HEIGHT_WIDTH: usize = 3;

pub const LOCATION_WIDTH: usize = 20;

pub const DESCRIPTION_WIDTH: usize = 19;

pub const SLOTS_WIDTH: usize = 1;

pub const URL_WIDTH: usize = 124;

pub const SOFTWARE_ID_WIDTH: usize = 40;

pub const PACKAGE_ID_WIDTH: usize = 40;

/// Length of all fields together.
pub const CONFIG_STRING_LEN: usize = 294;

/// Greatest latitude, in ten-thousandths of a degree, that fits its field.
pub const MAX_LATITUDE: u32 = 899_999;

/// Greatest longitude, in ten-thousandths of a degree, that fits its field.
pub const MAX_LONGITUDE: u32 = 1_799_999;

/// Ten-thousandths in a degree.
pub const PARTS_PER_DEGREE: u32 = 10_000;

/// Greatest height, in metres, that fits its field.
pub const MAX_HEIGHT: u32 = 999;

/// Tag of the packet.
pub const TAG_RPTC: [u8; 4] = [0x52, 0x50, 0x54, 0x43];

/// A latitude or longitude: its sign, negative to the south and west, and its
/// size in ten-thousandths of a degree.
#[derive(Debug, Clone, Copy, PartialEq, Eq, Structural)]
pub struct Angle {
    pub negative: bool,
    pub parts: u32,
}

/// The station, as far as the packet tells of it.
#[derive(Debug, Clone)]
pub struct Station {
    pub callsign: Callsign,
    pub dmr_id: DmrId,
    pub rx_freq: Frequency,
    pub tx_freq: Frequency,
    pub tx_power: String,
    pub color_code: ColorCode,
    pub latitude: Option<Angle>,
    pub longitude: Option<Angle>,
    /// Metres.
    pub height: Option<u32>,
    pub location: String,
    pub description: String,
    pub url: String,
    pub slot: Slot,
}

/// What differs between the networks of DMR repeaters.
pub trait NetworkProfile {
    /// The packet that describes the station.
    fn config_packet(&self, station: &Station) -> Vec<u8>;
}

/// The Brandmeister network.
pub struct Brandmeister;

/// Text, or a default in place of empty text.
pub open spec fn default_for(value: Seq<char>, default: Seq<char>) -> Seq<char> {
    if value.len() == 0 {
        default
    } else {
        value
    }
}

/// The angle that is sent: zero where none is known.
pub open spec fn sent_angle(angle: Option<Angle>) -> Angle {
    match angle {
        None => Angle { negative: false, parts: 0 },
        Some(a) => a,
    }
}

/// An angle as text of the given width, no greater than the limit: sign,
/// degrees with leading zeros, and four decimals.
pub open spec fn angle_text(angle: Angle, width: int, limit: int) -> Seq<char> {
    let parts = if angle.parts < limit {
        angle.parts as int
    } else {
        limit
    };
    seq![
        if angle.negative {
            '-'
        } else {
            '+'
        },
    ] + digits(parts / 10_000, width - 6) + seq!['.'] + digits(parts % 10_000, 4)
}

/// The height that is sent.
pub open spec fn sent_height(height: Option<u32>) -> int {
    match height {
        None => 0,
        Some(h) => if h < MAX_HEIGHT {
            h as int
        } else {
            MAX_HEIGHT as int
        },
    }
}

/// The digit of a slot.
pub open spec fn slot_text(slot: Slot) -> Seq<char> {
    if slot is One {
        "1"@
    } else {
        "2"@
    }
}

/// The first fields: who the station is and how it transmits.
pub open spec fn radio_fields(s: Station) -> Seq<u8> {
    padded(s.callsign.text(), CALLSIGN_WIDTH as int) + padded(
        digits(s.rx_freq.hz(), FREQ_DIGITS as int),
        RX_FREQ_WIDTH as int,
    ) + padded(digits(s.tx_freq.hz(), FREQ_DIGITS as int), TX_FREQ_WIDTH as int) + padded(
        default_for(s.tx_power@, "01"@),
        TX_POWER_WIDTH as int,
    ) + encode_utf8(digits(s.color_code.id() as int, COLOR_CODE_WIDTH as int))
}

/// The fields on where the station is.
pub open spec fn place_fields(s: Station) -> Seq<u8> {
    encode_utf8(angle_text(sent_angle(s.latitude), LATITUDE_WIDTH as int, MAX_LATITUDE as int))
        + encode_utf8(
        angle_text(sent_angle(s.longitude), LONGITUDE_WIDTH as int, MAX_LONGITUDE as int),
    ) + encode_utf8(digits(sent_height(s.height), HEIGHT_WIDTH as int)) + padded(
        s.location@,
        LOCATION_WIDTH as int,
    ) + padded(default_for(s.description@, "asl-dmr-bridge"@), DESCRIPTION_WIDTH as int)
}

/// The last fields: slot, address and software.
pub open spec fn software_fields(s: Station) -> Seq<u8> {
    encode_utf8(slot_text(s.slot)) + padded(s.url@, URL_WIDTH as int) + padded(
        "20260412_asl-dmr-bridge"@,
        SOFTWARE_ID_WIDTH as int,
    ) + padded("MMDVM_asl-dmr-bridge"@, PACKAGE_ID_WIDTH as int)
}

/// The packet that describes a station: tag, big-endian ID, and the fields.
pub open spec fn is_config_packet(pkt: Seq<u8>, s: Station) -> bool {
    &&& pkt.len() == 8 + CONFIG_STRING_LEN
    &&& pkt.subrange(0, 4) == TAG_RPTC@
    &&& be32(pkt[4], pkt[5], pkt[6], pkt[7]) == s.dmr_id.id()
    &&& pkt.subrange(8, pkt.len() as int) == radio_fields(s) + place_fields(s) + software_fields(s)
}

/// Text, or a default in place of empty text.
pub fn or_default<'a>(value: &'a str, default: &'a str) -> (r: &'a str)
    ensures
        r@ == default_for(value@, default@),
{
    if value.is_empty() {
        default
    } else {
        value
    }
}

/// An angle as text of the given width, no greater than the limit.
pub fn fmt_latlon(value: Angle, width: usize, limit: u32) -> (r: String)
    requires
        width >= 6,
    ensures
        r@ == angle_text(value, width as int, limit as int),
{
    let parts: u32 = if value.parts < limit {
        value.parts
    } else {
        limit
    };
    proof {
        reveal_strlit("-");
        reveal_strlit("+");
        reveal_strlit(".");
    }
    let mut s = if value.negative {
        "-".to_owned()
    } else {
        "+".to_owned()
    };
    s.append(fmt_digits(parts / PARTS_PER_DEGREE, width - 6).as_str());
    s.append(".");
    s.append(fmt_digits(parts % PARTS_PER_DEGREE, 4).as_str());
    assert(s@ =~= angle_text(value, width as int, limit as int));
    s
}

/// Appends an angle.
fn push_angle(out: &mut Vec<u8>, angle: Option<Angle>, width: usize, limit: u32)
    requires
        width >= 6,
    ensures
        final(out)@ == old(out)@ + encode_utf8(
            angle_text(sent_angle(angle), width as int, limit as int),
        ),
{
    let value = match angle {
        None => Angle { negative: false, parts: 0 },
        Some(a) => a,
    };
    let field = fmt_latlon(value, width, limit);
    push_text(out, field.as_str());
}

/// Appends text in a field of the given width.
fn push_field(out: &mut Vec<u8>, value: &str, width: usize)
    ensures
        final(out)@ == old(out)@ + padded(value@, width as int),
{
    let field = fmt_str(value, width);
    push_text(out, field.as_str());
}

/// Appends decimal digits.
fn push_digits(out: &mut Vec<u8>, v: u32, width: usize)
    ensures
        final(out)@ == old(out)@ + encode_utf8(digits(v as int, width as int)),
{
    let field = fmt_digits(v, width);
    push_text(out, field.as_str());
}

fn push_radio(out: &mut Vec<u8>, s: &Station)
    ensures
        final(out)@ == old(out)@ + radio_fields(*s),
{
    let ghost before = out@;
    let cc: u8 = s.color_code.value();
    push_field(out, s.callsign.as_str(), CALLSIGN_WIDTH);
    let rx = s.rx_freq.as_rptc_digits();
    push_field(out, rx.as_str(), RX_FREQ_WIDTH);
    let tx = s.tx_freq.as_rptc_digits();
    push_field(out, tx.as_str(), TX_FREQ_WIDTH);
    push_field(out, or_default(s.tx_power.as_str(), "01"), TX_POWER_WIDTH);
    push_digits(out, cc as u32, COLOR_CODE_WIDTH);
    assert(out@ =~= before + radio_fields(*s));
}

fn push_place(out: &mut Vec<u8>, s: &Station)
    ensures
        final(out)@ == old(out)@ + place_fields(*s),
{
    let ghost before = out@;
    let height: u32 = match s.height {
        None => 0,
        Some(h) => if h < MAX_HEIGHT {
            h
        } else {
            MAX_HEIGHT
        },
    };
    push_angle(out, s.latitude, LATITUDE_WIDTH, MAX_LATITUDE);
    push_angle(out, s.longitude, LONGITUDE_WIDTH, MAX_LONGITUDE);
    push_digits(out, height, HEIGHT_WIDTH);
    push_field(out, s.location.as_str(), LOCATION_WIDTH);
    push_field(out, or_default(s.description.as_str(), "asl-dmr-bridge"), DESCRIPTION_WIDTH);
    assert(out@ =~= before + place_fields(*s));
}

fn push_software(out: &mut Vec<u8>, s: &Station)
    ensures
        final(out)@ == old(out)@ + software_fields(*s),
{
    let ghost before = out@;
    let slot: &str = match s.slot {
        Slot::One => "1",
        Slot::Two => "2",
    };
    push_text(out, slot);
    push_field(out, s.url.as_str(), URL_WIDTH);
    push_field(out, "20260412_asl-dmr-bridge", SOFTWARE_ID_WIDTH);
    push_field(out, "MMDVM_asl-dmr-bridge", PACKAGE_ID_WIDTH);
    assert(out@ =~= before + software_fields(*s));
}

proof fn lemma_digits_width(v: int, width: int)
    requires
        0 <= width,
        0 <= v < power_of_ten(width),
    ensures
        encode_utf8(digits(v, width)).len() == width,
{
    law_digits(v, width);
    lemma_encode_ascii(digits(v, width));
}

/// Law: an angle takes up its whole field and no more, however great it is, if
/// the limit has no more digits than the field has room for.
pub proof fn law_angle_width(angle: Angle, width: int, limit: int)
    requires
        width >= 6,
        0 <= limit < 10_000 * power_of_ten(width - 6),
    ensures
        angle_text(angle, width, limit).len() == width,
        encode_utf8(angle_text(angle, width, limit)).len() == width,
{
    let parts = if angle.parts < limit {
        angle.parts as int
    } else {
        limit
    };
    reveal_with_fuel(power_of_ten, 5);
    law_digits(parts / 10_000, width - 6);
    law_digits(parts % 10_000, 4);
    lemma_encode_ascii(angle_text(angle, width, limit));
}

/// Law: the fields take up the same bytes whatever the station is, so every
/// field of the packet stands at a fixed place.
pub proof fn law_field_widths(s: Station)
    requires
        s.color_code.id() <= MAX_COLOR_CODE,
    ensures
        radio_fields(s).len() == CALLSIGN_WIDTH + RX_FREQ_WIDTH + TX_FREQ_WIDTH + TX_POWER_WIDTH
            + COLOR_CODE_WIDTH,
        place_fields(s).len() == LATITUDE_WIDTH + LONGITUDE_WIDTH + HEIGHT_WIDTH + LOCATION_WIDTH
            + DESCRIPTION_WIDTH,
        software_fields(s).len() == SLOTS_WIDTH + URL_WIDTH + SOFTWARE_ID_WIDTH + PACKAGE_ID_WIDTH,
        radio_fields(s).len() + place_fields(s).len() + software_fields(s).len()
            == CONFIG_STRING_LEN,
{
    reveal_with_fuel(power_of_ten, 4);
    law_padded_width(s.callsign.text(), CALLSIGN_WIDTH as int);
    law_padded_width(digits(s.rx_freq.hz(), FREQ_DIGITS as int), RX_FREQ_WIDTH as int);
    law_padded_width(digits(s.tx_freq.hz(), FREQ_DIGITS as int), TX_FREQ_WIDTH as int);
    law_padded_width(default_for(s.tx_power@, "01"@), TX_POWER_WIDTH as int);
    lemma_digits_width(s.color_code.id() as int, COLOR_CODE_WIDTH as int);
    law_angle_width(sent_angle(s.latitude), LATITUDE_WIDTH as int, MAX_LATITUDE as int);
    law_angle_width(sent_angle(s.longitude), LONGITUDE_WIDTH as int, MAX_LONGITUDE as int);
    lemma_digits_width(sent_height(s.height), HEIGHT_WIDTH as int);
    law_padded_width(s.location@, LOCATION_WIDTH as int);
    law_padded_width(default_for(s.description@, "asl-dmr-bridge"@), DESCRIPTION_WIDTH as int);
    reveal_strlit("1");
    reveal_strlit("2");
    lemma_encode_ascii(slot_text(s.slot));
    law_padded_width(s.url@, URL_WIDTH as int);
    law_padded_width("20260412_asl-dmr-bridge"@, SOFTWARE_ID_WIDTH as int);
    law_padded_width("MMDVM_asl-dmr-bridge"@, PACKAGE_ID_WIDTH as int);
}

impl NetworkProfile for Brandmeister {
    fn config_packet(&self, station: &Station) -> (pkt: Vec<u8>)
        ensures
            is_config_packet(pkt@, *station),
    {
        let id = station.dmr_id.to_be_bytes();
        let _in_range: u8 = station.color_code.value();
        let mut pkt: Vec<u8> = Vec::new();
        pkt.extend_from_slice(&TAG_RPTC);
        pkt.extend_from_slice(&id);
        let ghost head = pkt@;
        assert(head.len() == 8);
        push_radio(&mut pkt, station);
        push_place(&mut pkt, station);
        push_software(&mut pkt, station);
        proof {
            law_field_widths(*station);
            let fields = radio_fields(*station) + place_fields(*station) + software_fields(*station);
            assert(pkt@ =~= head + fields);
            assert(pkt@.subrange(8, pkt@.len() as int) =~= fields);
            assert(pkt@.subrange(0, 4) =~= TAG_RPTC@);
            assert(pkt@[4] == id[0] && pkt@[5] == id[1] && pkt@[6] == id[2] && pkt@[7] == id[3]);
        }
        pkt
    }
}

/// Law: where the fields of a packet are, each cut or filled up to its width: "RPTC", the
/// ID in four bytes, and then callsign, frequencies, power, color code, latitude,
/// longitude, height, location, description, slot, address, software and package.
pub proof fn law_config_layout(pkt: Seq<u8>, s: Station)
    requires
        s.color_code.id() <= MAX_COLOR_CODE,
        is_config_packet(pkt, s),
    ensures
        pkt.len() == 302,
        pkt[0] == 0x52 && pkt[1] == 0x50 && pkt[2] == 0x54 && pkt[3] == 0x43,
        0x100_0000 * pkt[4] + 0x1_0000 * pkt[5] + 0x100 * pkt[6] + pkt[7] == s.dmr_id.id(),
        pkt.subrange(8, 16) == padded(s.callsign.text(), 8),
        pkt.subrange(16, 25) == padded(digits(s.rx_freq.hz(), 9), 9),
        pkt.subrange(25, 34) == padded(digits(s.tx_freq.hz(), 9), 9),
        pkt.subrange(34, 36) == padded(
            if s.tx_power@.len() == 0 {
                "01"@
            } else {
                s.tx_power@
            },
            2,
        ),
        pkt.subrange(36, 38) == encode_utf8(digits(s.color_code.id() as int, 2)),
        pkt.subrange(38, 46) == encode_utf8(angle_text(sent_angle(s.latitude), 8, 899_999)),
        pkt.subrange(46, 55) == encode_utf8(angle_text(sent_angle(s.longitude), 9, 1_799_999)),
        pkt.subrange(55, 58) == encode_utf8(
            digits(
                match s.height {
                    None => 0,
                    Some(h) => if h < 999 {
                        h as int
                    } else {
                        999
                    },
                },
                3,
            ),
        ),
        pkt.subrange(58, 78) == padded(s.location@, 20),
        pkt.subrange(78, 97) == padded(
            if s.description@.len() == 0 {
                "asl-dmr-bridge"@
            } else {
                s.description@
            },
            19,
        ),
        pkt[97] == (if s.slot is One {
            0x31u8
        } else {
            0x32u8
        }),
        pkt.subrange(98, 222) == padded(s.url@, 124),
        pkt.subrange(222, 262) == padded("20260412_asl-dmr-bridge"@, 40),
        pkt.subrange(262, 302) == padded("MMDVM_asl-dmr-bridge"@, 40),
{
    law_field_widths(s);
    let o = pkt.subrange(0, 4);
    assert(o[0] == pkt[0] && o[1] == pkt[1] && o[2] == pkt[2] && o[3] == pkt[3]);
    let (a, b, c) = (radio_fields(s), place_fields(s), software_fields(s));
    let rest = pkt.subrange(8, 302);
    assert(rest == a + b + c);
    assert(pkt.subrange(8, 38) =~= rest.subrange(0, 30) && rest.subrange(0, 30) =~= a);
    assert(pkt.subrange(38, 97) =~= rest.subrange(30, 89) && rest.subrange(30, 89) =~= b);
    assert(pkt.subrange(97, 302) =~= rest.subrange(89, 294) && rest.subrange(89, 294) =~= c);
    lemma_radio_parts(s);
    lemma_place_parts(s);
    lemma_software_parts(s);
    assert(pkt.subrange(8, 16) =~= a.subrange(0, 8));
    assert(pkt.subrange(16, 25) =~= a.subrange(8, 17));
    assert(pkt.subrange(25, 34) =~= a.subrange(17, 26));
    assert(pkt.subrange(34, 36) =~= a.subrange(26, 28));
    assert(pkt.subrange(36, 38) =~= a.subrange(28, 30));
    assert(pkt.subrange(38, 46) =~= b.subrange(0, 8));
    assert(pkt.subrange(46, 55) =~= b.subrange(8, 17));
    assert(pkt.subrange(55, 58) =~= b.subrange(17, 20));
    assert(pkt.subrange(58, 78) =~= b.subrange(20, 40));
    assert(pkt.subrange(78, 97) =~= b.subrange(40, 59));
    assert(pkt[97] == c[0]);
    assert(pkt.subrange(98, 222) =~= c.subrange(1, 125));
    assert(pkt.subrange(222, 262) =~= c.subrange(125, 165));
    assert(pkt.subrange(262, 302) =~= c.subrange(165, 205));
}

proof fn lemma_radio_parts(s: Station)
    requires
        s.color_code.id() <= MAX_COLOR_CODE,
    ensures
        radio_fields(s).subrange(0, 8) == padded(s.callsign.text(), 8),
        radio_fields(s).subrange(8, 17) == padded(digits(s.rx_freq.hz(), 9), 9),
        radio_fields(s).subrange(17, 26) == padded(digits(s.tx_freq.hz(), 9), 9),
        radio_fields(s).subrange(26, 28) == padded(default_for(s.tx_power@, "01"@), 2),
        radio_fields(s).subrange(28, 30) == encode_utf8(digits(s.color_code.id() as int, 2)),
{
    reveal_with_fuel(power_of_ten, 4);
    law_padded_width(s.callsign.text(), 8);
    law_padded_width(digits(s.rx_freq.hz(), 9), 9);
    law_padded_width(digits(s.tx_freq.hz(), 9), 9);
    law_padded_width(default_for(s.tx_power@, "01"@), 2);
    lemma_digits_width(s.color_code.id() as int, 2);
    let a = radio_fields(s);
    assert(a.subrange(0, 8) =~= padded(s.callsign.text(), 8));
    assert(a.subrange(8, 17) =~= padded(digits(s.rx_freq.hz(), 9), 9));
    assert(a.subrange(17, 26) =~= padded(digits(s.tx_freq.hz(), 9), 9));
    assert(a.subrange(26, 28) =~= padded(default_for(s.tx_power@, "01"@), 2));
    assert(a.subrange(28, 30) =~= encode_utf8(digits(s.color_code.id() as int, 2)));
}

proof fn lemma_place_parts(s: Station)
    ensures
        place_fields(s).subrange(0, 8) == encode_utf8(angle_text(sent_angle(s.latitude), 8, 899_999)),
        place_fields(s).subrange(8, 17) == encode_utf8(
            angle_text(sent_angle(s.longitude), 9, 1_799_999),
        ),
        place_fields(s).subrange(17, 20) == encode_utf8(digits(sent_height(s.height), 3)),
        place_fields(s).subrange(20, 40) == padded(s.location@, 20),
        place_fields(s).subrange(40, 59) == padded(default_for(s.description@, "asl-dmr-bridge"@), 19),
{
    reveal_with_fuel(power_of_ten, 4);
    law_angle_width(sent_angle(s.latitude), 8, 899_999);
    law_angle_width(sent_angle(s.longitude), 9, 1_799_999);
    lemma_digits_width(sent_height(s.height), 3);
    law_padded_width(s.location@, 20);
    law_padded_width(default_for(s.description@, "asl-dmr-bridge"@), 19);
    let b = place_fields(s);
    assert(b.subrange(0, 8) =~= encode_utf8(angle_text(sent_angle(s.latitude), 8, 899_999)));
    assert(b.subrange(8, 17) =~= encode_utf8(angle_text(sent_angle(s.longitude), 9, 1_799_999)));
    assert(b.subrange(17, 20) =~= encode_utf8(digits(sent_height(s.height), 3)));
    assert(b.subrange(20, 40) =~= padded(s.location@, 20));
    assert(b.subrange(40, 59) =~= padded(default_for(s.description@, "asl-dmr-bridge"@), 19));
}

proof fn lemma_software_parts(s: Station)
    ensures
        software_fields(s)[0] == (if s.slot is One {
            0x31u8
        } else {
            0x32u8
        }),
        software_fields(s).subrange(1, 125) == padded(s.url@, 124),
        software_fields(s).subrange(125, 165) == padded("20260412_asl-dmr-bridge"@, 40),
        software_fields(s).subrange(165, 205) == padded("MMDVM_asl-dmr-bridge"@, 40),
{
    reveal_strlit("1");
    reveal_strlit("2");
    lemma_encode_ascii(slot_text(s.slot));
    law_padded_width(s.url@, 124);
    law_padded_width("20260412_asl-dmr-bridge"@, 40);
    law_padded_width("MMDVM_asl-dmr-bridge"@, 40);
    let c = software_fields(s);
    assert(c[0] == encode_utf8(slot_text(s.slot))[0]);
    assert(c.subrange(1, 125) =~= padded(s.url@, 124));
    assert(c.subrange(125, 165) =~= padded("20260412_asl-dmr-bridge"@, 40));
    assert(c.subrange(165, 205) =~= padded("MMDVM_asl-dmr-bridge"@, 40));
}

/// Law: an angle is written as its sign, its whole degrees and four decimals, each with
/// leading zeros, no greater than the limit; none is written as zero.
pub proof fn law_angle_written(angle: Angle, width: int, limit: int)
    requires
        width >= 6,
        0 <= limit < 10_000 * power_of_ten(width - 6),
    ensures
        ({
            let t = angle_text(angle, width, limit);
            let parts = if angle.parts < limit {
                angle.parts as int
            } else {
                limit
            };
            &&& t.len() == width
            &&& t[0] == (if angle.negative {
                '-'
            } else {
                '+'
            })
            &&& t[width - 5] == '.'
            &&& number(t.subrange(1, width - 5)) * 10_000 + number(t.subrange(width - 4, width)) == parts
        }),
        sent_angle(Some(angle)) == angle,
        sent_angle(None).parts == 0 && !sent_angle(None).negative,
{
    let t = angle_text(angle, width, limit);
    let parts = if angle.parts < limit {
        angle.parts as int
    } else {
        limit
    };
    reveal_with_fuel(power_of_ten, 5);
    law_digits(parts / 10_000, width - 6);
    law_digits(parts % 10_000, 4);
    assert(t.subrange(1, width - 5) =~= digits(parts / 10_000, width - 6));
    assert(t.subrange(width - 4, width) =~= digits(parts % 10_000, 4));
}

} // verus!
