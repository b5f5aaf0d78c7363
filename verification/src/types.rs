//! On-air identifiers shared by every layer.
//!
//! Each type checks its range when it is built with `try_from`, so a value of
//! the type is always in range.

use vstd::prelude::*;
use vstd::std_specs::convert::*;

use crate::bytes::{be24, be32, u32_to_be, MAX_24BIT};

verus! {

/// Width of the Homebrew protocol's repeater_id field.
pub const REPEATER_ID_WIRE_LEN: usize = 4;

/// Bytes of one AMBE+2 codeword.
pub const AMBE_FRAME_SIZE: usize = 9;

/// One channel-coded AMBE+2 frame: 20 ms of speech.
pub type AmbeFrame = [u8; AMBE_FRAME_SIZE];

/// Samples of one 20 ms frame at 8 kHz.
pub const PCM_SAMPLES: usize = 160;

/// One 20 ms frame of 8 kHz mono audio.
pub type PcmFrame = [i16; PCM_SAMPLES];

/// Largest color code.
pub const MAX_COLOR_CODE: u8 = 15;

/// Color code that Brandmeister hotspots use unless told otherwise.
pub const DEFAULT_COLOR_CODE: u8 = 1;

/// Why a raw number is not an identifier.
#[derive(Debug, Clone, Copy, PartialEq, Eq, Structural)]
#[non_exhaustive]
pub enum InvalidValue {
    DmrIdZero,
    SubscriberIdZero,
    SubscriberIdTooLarge(u32),
    TalkgroupZero,
    TalkgroupTooLarge(u32),
    ColorCodeTooLarge(u8),
    SlotInvalid(u8),
}

/// Homebrew repeater identity: any non-zero 32-bit number.
///
/// Brandmeister hotspot identities exceed 24 bits, so this is not the number
/// that goes into the 24-bit on-air source and destination fields: those carry
/// a `SubscriberId` or a `Talkgroup`.
#[derive(Debug, Clone, Copy, PartialEq, Eq, Hash, Structural)]
pub struct DmrId(u32);

impl DmrId {
    /// The number itself.
    pub closed spec fn id(self) -> u32 {
        self.0
    }

    #[verifier::type_invariant]
    spec fn in_range(self) -> bool {
        self.0 != 0
    }

    pub fn as_u32(self) -> (r: u32)
        ensures
            r == self.id(),
            r != 0,
    {
        proof {
            use_type_invariant(self);
        }
        self.0
    }

    pub fn to_be_bytes(self) -> (r: [u8; REPEATER_ID_WIRE_LEN])
        ensures
            be32(r[0], r[1], r[2], r[3]) == self.id(),
    {
        u32_to_be(self.0)
    }

    /// Three big-endian bytes, for identities that fit a 24-bit field.
    pub fn to_be_bytes_3(self) -> (r: [u8; 3])
        requires
            self.id() <= MAX_24BIT,
        ensures
            be24(r[0], r[1], r[2]) == self.id(),
    {
        let b = u32_to_be(self.0);
        [b[1], b[2], b[3]]
    }
}

impl TryFromSpecImpl<u32> for DmrId {
    open spec fn obeys_try_from_spec() -> bool {
        true
    }

    closed spec fn try_from_spec(v: u32) -> Result<Self, InvalidValue> {
        if v == 0 {
            Err(InvalidValue::DmrIdZero)
        } else {
            Ok(DmrId(v))
        }
    }
}

impl TryFrom<u32> for DmrId {
    type Error = InvalidValue;

    fn try_from(v: u32) -> (r: Result<Self, InvalidValue>)
        ensures
            v == 0 ==> r == Err::<DmrId, InvalidValue>(InvalidValue::DmrIdZero),
            v != 0 ==> r is Ok && r->Ok_0.id() == v,
    {
        if v == 0 {
            Err(InvalidValue::DmrIdZero)
        } else {
            Ok(DmrId(v))
        }
    }
}

/// On-air subscriber identity: a non-zero 24-bit number.
#[derive(Debug, Clone, Copy, PartialEq, Eq, Hash, Structural)]
pub struct SubscriberId(u32);

impl SubscriberId {
    /// The number itself.
    pub closed spec fn id(self) -> u32 {
        self.0
    }

    #[verifier::type_invariant]
    spec fn in_range(self) -> bool {
        0 < self.0 <= MAX_24BIT
    }

    pub fn as_u32(self) -> (r: u32)
        ensures
            r == self.id(),
            0 < r <= MAX_24BIT,
    {
        proof {
            use_type_invariant(self);
        }
        self.0
    }
}

impl TryFromSpecImpl<u32> for SubscriberId {
    open spec fn obeys_try_from_spec() -> bool {
        true
    }

    closed spec fn try_from_spec(v: u32) -> Result<Self, InvalidValue> {
        if v == 0 {
            Err(InvalidValue::SubscriberIdZero)
        } else if v > MAX_24BIT {
            Err(InvalidValue::SubscriberIdTooLarge(v))
        } else {
            Ok(SubscriberId(v))
        }
    }
}

impl TryFrom<u32> for SubscriberId {
    type Error = InvalidValue;

    fn try_from(v: u32) -> (r: Result<Self, InvalidValue>)
        ensures
            v == 0 ==> r == Err::<SubscriberId, InvalidValue>(InvalidValue::SubscriberIdZero),
            v > MAX_24BIT ==> r == Err::<SubscriberId, InvalidValue>(InvalidValue::SubscriberIdTooLarge(v)),
            v != 0 && v <= MAX_24BIT ==> r is Ok && r->Ok_0.id() == v,
    {
        if v == 0 {
            Err(InvalidValue::SubscriberIdZero)
        } else if v > MAX_24BIT {
            Err(InvalidValue::SubscriberIdTooLarge(v))
        } else {
            Ok(SubscriberId(v))
        }
    }
}

/// Talkgroup number: non-zero, 24 bits.
#[derive(Debug, Clone, Copy, PartialEq, Eq, Hash, Structural)]
pub struct Talkgroup(u32);

impl Talkgroup {
    /// The number itself.
    pub closed spec fn id(self) -> u32 {
        self.0
    }

    #[verifier::type_invariant]
    spec fn in_range(self) -> bool {
        0 < self.0 <= MAX_24BIT
    }

    pub fn as_u32(self) -> (r: u32)
        ensures
            r == self.id(),
            0 < r <= MAX_24BIT,
    {
        proof {
            use_type_invariant(self);
        }
        self.0
    }

    pub fn to_be_bytes_3(self) -> (r: [u8; 3])
        ensures
            be24(r[0], r[1], r[2]) == self.id(),
    {
        proof {
            use_type_invariant(self);
        }
        let b = u32_to_be(self.0);
        [b[1], b[2], b[3]]
    }
}

impl TryFromSpecImpl<u32> for Talkgroup {
    open spec fn obeys_try_from_spec() -> bool {
        true
    }

    closed spec fn try_from_spec(v: u32) -> Result<Self, InvalidValue> {
        if v == 0 {
            Err(InvalidValue::TalkgroupZero)
        } else if v > MAX_24BIT {
            Err(InvalidValue::TalkgroupTooLarge(v))
        } else {
            Ok(Talkgroup(v))
        }
    }
}

impl TryFrom<u32> for Talkgroup {
    type Error = InvalidValue;

    fn try_from(v: u32) -> (r: Result<Self, InvalidValue>)
        ensures
            v == 0 ==> r == Err::<Talkgroup, InvalidValue>(InvalidValue::TalkgroupZero),
            v > MAX_24BIT ==> r == Err::<Talkgroup, InvalidValue>(InvalidValue::TalkgroupTooLarge(v)),
            v != 0 && v <= MAX_24BIT ==> r is Ok && r->Ok_0.id() == v,
    {
        if v == 0 {
            Err(InvalidValue::TalkgroupZero)
        } else if v > MAX_24BIT {
            Err(InvalidValue::TalkgroupTooLarge(v))
        } else {
            Ok(Talkgroup(v))
        }
    }
}

/// Color code, 0 to 15.
#[derive(Debug, Clone, Copy, PartialEq, Eq, Hash, Structural)]
pub struct ColorCode(u8);

impl ColorCode {
    /// The number itself.
    pub closed spec fn id(self) -> u8 {
        self.0
    }

    #[verifier::type_invariant]
    spec fn in_range(self) -> bool {
        self.0 <= MAX_COLOR_CODE
    }

    pub fn value(self) -> (r: u8)
        ensures
            r == self.id(),
            r <= MAX_COLOR_CODE,
    {
        proof {
            use_type_invariant(self);
        }
        self.0
    }
}

impl Default for ColorCode {
    fn default() -> (r: Self)
        ensures
            r.id() == DEFAULT_COLOR_CODE,
    {
        ColorCode(DEFAULT_COLOR_CODE)
    }
}

impl TryFromSpecImpl<u8> for ColorCode {
    open spec fn obeys_try_from_spec() -> bool {
        true
    }

    closed spec fn try_from_spec(v: u8) -> Result<Self, InvalidValue> {
        if v > MAX_COLOR_CODE {
            Err(InvalidValue::ColorCodeTooLarge(v))
        } else {
            Ok(ColorCode(v))
        }
    }
}

impl TryFrom<u8> for ColorCode {
    type Error = InvalidValue;

    fn try_from(v: u8) -> (r: Result<Self, InvalidValue>)
        ensures
            v > MAX_COLOR_CODE ==> r == Err::<ColorCode, InvalidValue>(InvalidValue::ColorCodeTooLarge(v)),
            v <= MAX_COLOR_CODE ==> r is Ok && r->Ok_0.id() == v,
    {
        if v > MAX_COLOR_CODE {
            Err(InvalidValue::ColorCodeTooLarge(v))
        } else {
            Ok(ColorCode(v))
        }
    }
}

/// Timeslot.
#[derive(Debug, Clone, Copy, PartialEq, Eq, Hash, Structural)]
pub enum Slot {
    One,
    Two,
}

impl Slot {
    /// 1 for the first slot, 2 for the second.
    pub fn as_u8(self) -> (r: u8)
        ensures
            r == (if self is One { 1u8 } else { 2u8 }),
    {
        match self {
            Slot::One => 1,
            Slot::Two => 2,
        }
    }

    /// Slot number counted from zero, as protocol flags carry it.
    pub fn index(self) -> (r: u8)
        ensures
            r == (if self is One { 0u8 } else { 1u8 }),
    {
        match self {
            Slot::One => 0,
            Slot::Two => 1,
        }
    }
}

impl TryFromSpecImpl<u8> for Slot {
    open spec fn obeys_try_from_spec() -> bool {
        true
    }

    closed spec fn try_from_spec(v: u8) -> Result<Self, InvalidValue> {
        match v {
            1 => Ok(Slot::One),
            2 => Ok(Slot::Two),
            _ => Err(InvalidValue::SlotInvalid(v)),
        }
    }
}

impl TryFrom<u8> for Slot {
    type Error = InvalidValue;

    fn try_from(v: u8) -> (r: Result<Self, InvalidValue>)
        ensures
            v == 1 ==> r == Ok::<Slot, InvalidValue>(Slot::One),
            v == 2 ==> r == Ok::<Slot, InvalidValue>(Slot::Two),
            v != 1 && v != 2 ==> r == Err::<Slot, InvalidValue>(InvalidValue::SlotInvalid(v)),
    {
        match v {
            1 => Ok(Slot::One),
            2 => Ok(Slot::Two),
            _ => Err(InvalidValue::SlotInvalid(v)),
        }
    }
}

/// Law: which numbers are identities: repeaters have any number but zero,
/// subscribers and talkgroups one that fits 24 bits too, color codes are 0 to 15
/// and slots 1 and 2; each is the number it was made of.
pub proof fn law_identities(v: u32, c: u8)
    ensures
        <DmrId as TryFromSpec<u32>>::try_from_spec(v) is Ok <==> v != 0,
        <DmrId as TryFromSpec<u32>>::try_from_spec(v) matches Ok(x) ==> x.id() == v,
        <SubscriberId as TryFromSpec<u32>>::try_from_spec(v) is Ok <==> 0 < v <= 0xFF_FFFF,
        <SubscriberId as TryFromSpec<u32>>::try_from_spec(v) matches Ok(x) ==> x.id() == v,
        <Talkgroup as TryFromSpec<u32>>::try_from_spec(v) is Ok <==> 0 < v <= 0xFF_FFFF,
        <Talkgroup as TryFromSpec<u32>>::try_from_spec(v) matches Ok(x) ==> x.id() == v,
        <ColorCode as TryFromSpec<u8>>::try_from_spec(c) is Ok <==> c <= 15,
        <ColorCode as TryFromSpec<u8>>::try_from_spec(c) matches Ok(x) ==> x.id() == c,
        <Slot as TryFromSpec<u8>>::try_from_spec(c) is Ok <==> c == 1 || c == 2,
        <Slot as TryFromSpec<u8>>::try_from_spec(c) matches Ok(x) ==> (x is One <==> c == 1),
{
}

} // verus!
