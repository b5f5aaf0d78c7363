//! What the voice path reports: call metadata for the FM side and events for
//! the statistics.

use vstd::prelude::*;
use vstd::string::*;

use crate::text::{decimal, fmt_decimal};
use crate::types::{ColorCode, Slot, SubscriberId, Talkgroup};

verus! {

/// Who is talking, for the FM side.
#[derive(Debug, Clone)]
pub struct CallMetadata {
    /// Subscriber who talks.
    pub dmr_id: SubscriberId,
    /// Talkgroup of the call, or the addressee of a private one.
    pub tg: Talkgroup,
    pub slot: Slot,
    pub cc: ColorCode,
    /// Callsign, where the subscriber is known.
    pub call: Option<String>,
    /// First name, where the subscriber is known.
    pub name: Option<String>,
}

/// Metadata at a call boundary.
#[derive(Debug, Clone)]
pub enum MetaEvent {
    /// A call began, or another talker took over.
    Call(CallMetadata),
    /// The call ended.
    Clear,
}

/// Direction of a call.
#[derive(Debug, Clone, Copy, PartialEq, Eq, Structural)]
pub enum CallDirection {
    FmToDmr,
    DmrToFm,
}

impl CallDirection {
    /// Name for the log.
    pub fn as_str(self) -> (r: &'static str)
        ensures
            r@ == (match self {
                CallDirection::FmToDmr => "fm_to_dmr"@,
                CallDirection::DmrToFm => "dmr_to_fm"@,
            }),
    {
        match self {
            CallDirection::FmToDmr => "fm_to_dmr",
            CallDirection::DmrToFm => "dmr_to_fm",
        }
    }
}

/// Why a call ended.
#[derive(Debug, Clone, Copy, PartialEq, Eq, Structural)]
pub enum TerminationReason {
    /// The talker let go.
    Normal,
    /// No voice came for too long.
    StreamTimeout,
    /// The transmission exceeded its limit.
    TxTimeout,
    /// The bridge is stopping.
    Shutdown,
    /// The network session was renewed.
    NetworkReset,
}

impl TerminationReason {
    /// Name for the log.
    pub fn as_str(self) -> (r: &'static str)
        ensures
            r@ == (match self {
                TerminationReason::Normal => "normal"@,
                TerminationReason::StreamTimeout => "stream_timeout"@,
                TerminationReason::TxTimeout => "tx_timeout"@,
                TerminationReason::Shutdown => "shutdown"@,
                TerminationReason::NetworkReset => "network_reset"@,
            }),
    {
        match self {
            TerminationReason::Normal => "normal",
            TerminationReason::StreamTimeout => "stream_timeout",
            TerminationReason::TxTimeout => "tx_timeout",
            TerminationReason::Shutdown => "shutdown",
            TerminationReason::NetworkReset => "network_reset",
        }
    }
}

/// Event for the statistics.
#[derive(Debug, Clone, Copy, PartialEq, Eq, Structural)]
pub enum StatsEvent {
    CallStart { dir: CallDirection, src_id: u32, dst_id: u32, slot: Slot },
    /// A frame went through; `transcode` is the vocoder's time in nanoseconds.
    VoiceFrame { dir: CallDirection, transcode: u64 },
    /// A frame was lost.
    Drop { dir: CallDirection },
    CallEnd { dir: CallDirection, reason: TerminationReason },
}

// ---------------------------------------------------------------------------
// Metadata as JSON
// ---------------------------------------------------------------------------

/// A hexadecimal digit, in lower case.
pub open spec fn hex_char(d: int) -> char {
    if d < 10 {
        ('0' as int + d) as char
    } else {
        ('a' as int + d - 10) as char
    }
}

/// A character in a JSON string.
pub open spec fn json_char(c: char) -> Seq<char> {
    if c == '"' || c == '\\' {
        seq!['\\', c]
    } else if c as int == 0x08 {
        seq!['\\', 'b']
    } else if c as int == 0x09 {
        seq!['\\', 't']
    } else if c as int == 0x0A {
        seq!['\\', 'n']
    } else if c as int == 0x0C {
        seq!['\\', 'f']
    } else if c as int == 0x0D {
        seq!['\\', 'r']
    } else if (c as int) < 0x20 {
        seq!['\\', 'u', '0', '0', hex_char(c as int / 16), hex_char(c as int % 16)]
    } else {
        seq![c]
    }
}

/// Text in a JSON string.
pub open spec fn json_escaped(s: Seq<char>) -> Seq<char>
    decreases s.len(),
{
    if s.len() == 0 {
        s
    } else {
        json_escaped(s.drop_last()) + json_char(s.last())
    }
}

/// Text as a JSON string, quoted and escaped.
pub open spec fn json_string_of(s: Seq<char>) -> Seq<char> {
    seq!['"'] + json_escaped(s) + seq!['"']
}

/// Quotes and escapes text as a JSON string.
///
/// Calls `serde_json::Value::to_string` on the text.  It writes the text between
/// quotes, with a backslash before quotes and backslashes, the short escapes
/// that JSON has for control characters, `\u00xx` in lower case for the others
/// below 0x20, and every other character as it is.
#[verifier::external_body]
fn json_string(s: &str) -> (r: String)
    ensures
        r@ == json_string_of(s@),
{
    serde_json::Value::from(s).to_string()
}

/// A JSON member with a value that is there.
pub open spec fn optional_member(key: Seq<char>, value: Option<Seq<char>>) -> Seq<char> {
    match value {
        Some(v) => key + v,
        None => seq![],
    }
}

/// The JSON object of a call, whose callsign and name are JSON strings.
pub open spec fn call_object(
    dmr_id: int,
    tg: int,
    slot: int,
    cc: int,
    call: Option<Seq<char>>,
    name: Option<Seq<char>>,
) -> Seq<char> {
    "{\"dmr_id\":"@ + decimal(dmr_id) + ",\"tg\":"@ + decimal(tg) + ",\"slot\":"@ + decimal(slot)
        + ",\"cc\":"@ + decimal(cc) + optional_member(",\"call\":"@, call) + optional_member(
        ",\"name\":"@,
        name,
    ) + "}"@
}

/// The text of a string that is there.
pub open spec fn text_of(s: Option<String>) -> Option<Seq<char>> {
    match s {
        Some(t) => Some(t@),
        None => None,
    }
}

/// The JSON string of a string that is there.
pub open spec fn json_of(s: Option<String>) -> Option<Seq<char>> {
    match s {
        Some(t) => Some(json_string_of(t@)),
        None => None,
    }
}

/// The number of a slot.
pub open spec fn slot_number(slot: Slot) -> int {
    if slot is One {
        1
    } else {
        2
    }
}

/// The JSON object of a call, whose callsign and name are JSON strings.
pub fn build_call_object(
    dmr_id: u32,
    tg: u32,
    slot: u8,
    cc: u8,
    call: &Option<String>,
    name: &Option<String>,
) -> (r: String)
    ensures
        r@ == call_object(
            dmr_id as int,
            tg as int,
            slot as int,
            cc as int,
            text_of(*call),
            text_of(*name),
        ),
{
    let mut s = "{\"dmr_id\":".to_owned();
    s.append(fmt_decimal(dmr_id).as_str());
    s.append(",\"tg\":");
    s.append(fmt_decimal(tg).as_str());
    s.append(",\"slot\":");
    s.append(fmt_decimal(slot as u32).as_str());
    s.append(",\"cc\":");
    s.append(fmt_decimal(cc as u32).as_str());
    let ghost head = s@;
    if let Some(text) = call {
        s.append(",\"call\":");
        s.append(text.as_str());
    }
    assert(s@ =~= head + optional_member(",\"call\":"@, text_of(*call)));
    let ghost middle = s@;
    if let Some(text) = name {
        s.append(",\"name\":");
        s.append(text.as_str());
    }
    assert(s@ =~= middle + optional_member(",\"name\":"@, text_of(*name)));
    s.append("}");
    s
}

impl CallMetadata {
    /// The JSON object of the call.  What is not known is left out.
    pub fn to_json(&self) -> (r: String)
        ensures
            r@ == call_object(
                self.dmr_id.id() as int,
                self.tg.id() as int,
                slot_number(self.slot),
                self.cc.id() as int,
                json_of(self.call),
                json_of(self.name),
            ),
    {
        let call = match &self.call {
            Some(text) => Some(json_string(text.as_str())),
            None => None,
        };
        let name = match &self.name {
            Some(text) => Some(json_string(text.as_str())),
            None => None,
        };
        build_call_object(
            self.dmr_id.as_u32(),
            self.tg.as_u32(),
            self.slot.as_u8(),
            self.cc.value(),
            &call,
            &name,
        )
    }
}

/// The text of an event.
pub open spec fn event_text(event: MetaEvent) -> Seq<char> {
    match event {
        MetaEvent::Call(m) => call_object(
            m.dmr_id.id() as int,
            m.tg.id() as int,
            slot_number(m.slot),
            m.cc.id() as int,
            json_of(m.call),
            json_of(m.name),
        ),
        MetaEvent::Clear => "{}"@,
    }
}

impl MetaEvent {
    /// The text that is sent: the JSON object of the call, or an empty one.
    pub fn text(&self) -> (r: String)
        ensures
            r@ == event_text(*self),
    {
        match self {
            MetaEvent::Call(meta) => meta.to_json(),
            MetaEvent::Clear => "{}".to_owned(),
        }
    }
}

/// Law: the object of a call gives the subscriber, the talkgroup, the slot from
/// one, and the color code, in decimal, then the callsign and the name where
/// they are known; between calls it is empty.
pub proof fn law_call_text(m: CallMetadata)
    ensures
        event_text(MetaEvent::Call(m)) == "{\"dmr_id\":"@ + decimal(m.dmr_id.id() as int)
            + ",\"tg\":"@ + decimal(m.tg.id() as int) + ",\"slot\":"@ + (if m.slot is One {
            seq!['1']
        } else {
            seq!['2']
        }) + ",\"cc\":"@ + decimal(m.cc.id() as int) + (match m.call {
            Some(call) => ",\"call\":"@ + json_string_of(call@),
            None => Seq::<char>::empty(),
        }) + (match m.name {
            Some(name) => ",\"name\":"@ + json_string_of(name@),
            None => Seq::<char>::empty(),
        }) + "}"@,
        event_text(MetaEvent::Clear) == "{}"@,
{
    assert(decimal(1) =~= seq!['1']);
    assert(decimal(2) =~= seq!['2']);
}

/// Law: in a JSON string the characters stand in order between quotes.  A quote
/// and a backslash have a backslash before them; a control character has its
/// short escape, or four hexadecimal digits; any other stands as it is.
pub proof fn law_json_text(s: Seq<char>, c: char)
    ensures
        json_string_of(s).first() == '"',
        json_string_of(s).last() == '"',
        json_escaped(Seq::empty()).len() == 0,
        json_escaped(s.push(c)) == json_escaped(s) + json_char(c),
        c as int >= 0x20 && c as int != 0x22 && c as int != 0x5C ==> json_char(c) == seq![c],
        c as int == 0x22 || c as int == 0x5C ==> json_char(c) == seq!['\\', c],
        c as int == 8 ==> json_char(c) == seq!['\\', 'b'],
        c as int == 9 ==> json_char(c) == seq!['\\', 't'],
        c as int == 10 ==> json_char(c) == seq!['\\', 'n'],
        c as int == 12 ==> json_char(c) == seq!['\\', 'f'],
        c as int == 13 ==> json_char(c) == seq!['\\', 'r'],
        (c as int) < 8 || c as int == 11 || 14 <= c as int <= 15 ==> json_char(c).len() == 6 && json_char(
            c,
        )[4] == '0',
        16 <= c as int <= 31 ==> json_char(c).len() == 6 && json_char(c)[4] == '1',
{
    assert(s.push(c).drop_last() =~= s);
}

} // verus!
