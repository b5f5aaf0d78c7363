//! Validated identifiers.

use asl_dmr_bridge::bytes::MAX_24BIT;
use asl_dmr_bridge::types::{ColorCode, DmrId, InvalidValue, Slot, SubscriberId, Talkgroup};

/// The ID in a one-line TOML document.
fn parse(text: &str) -> Result<DmrId, String> {
    let table: toml::Value = toml::from_str(text).map_err(|e| e.to_string())?;
    let number = table.get("v").and_then(|v| v.as_integer()).ok_or("no number")?;
    let number = u32::try_from(number).map_err(|e| e.to_string())?;
    DmrId::try_from(number).map_err(|e| format!("{e:?}"))
}

#[test]
fn dmr_id_valid() {
    let id = DmrId::try_from(1234567).unwrap();
    assert_eq!(id.to_be_bytes(), [0x00, 0x12, 0xD6, 0x87]);
}

#[test]
fn dmr_id_zero_rejected() {
    assert_eq!(DmrId::try_from(0), Err(InvalidValue::DmrIdZero));
    assert!(parse("v = 0").is_err());
}

#[test]
fn dmr_id_large_accepted() {
    let id = DmrId::try_from(310770201).unwrap();
    assert_eq!(id.to_be_bytes(), 310770201u32.to_be_bytes());
}

#[test]
fn dmr_id_to_be_bytes_3() {
    let id = DmrId::try_from(1234567).unwrap();
    assert_eq!(id.to_be_bytes_3(), [0x12, 0xD6, 0x87]);
}

#[test]
fn subscriber_id_zero_rejected() {
    assert_eq!(
        SubscriberId::try_from(0),
        Err(InvalidValue::SubscriberIdZero)
    );
}

#[test]
fn subscriber_id_too_large_rejected() {
    assert_eq!(
        SubscriberId::try_from(MAX_24BIT + 1),
        Err(InvalidValue::SubscriberIdTooLarge(MAX_24BIT + 1))
    );
}

#[test]
fn talkgroup_valid() {
    let tg = Talkgroup::try_from(3100).unwrap();
    assert_eq!(tg.to_be_bytes_3(), [0x00, 0x0C, 0x1C]);
}

#[test]
fn talkgroup_zero_rejected() {
    assert_eq!(Talkgroup::try_from(0), Err(InvalidValue::TalkgroupZero));
}

#[test]
fn talkgroup_too_large_rejected() {
    assert!(matches!(
        Talkgroup::try_from(MAX_24BIT + 1),
        Err(InvalidValue::TalkgroupTooLarge(_))
    ));
}

#[test]
fn color_code_valid() {
    let cc = ColorCode::try_from(15).unwrap();
    assert_eq!(cc.value(), 15);
}

#[test]
fn color_code_too_large_rejected() {
    assert_eq!(
        ColorCode::try_from(16),
        Err(InvalidValue::ColorCodeTooLarge(16))
    );
}

#[test]
fn slot_valid() {
    assert_eq!(Slot::try_from(1).unwrap().index(), 0);
    assert_eq!(Slot::try_from(2).unwrap().index(), 1);
}

#[test]
fn slot_invalid_rejected() {
    assert!(matches!(
        Slot::try_from(0),
        Err(InvalidValue::SlotInvalid(_))
    ));
    assert!(matches!(
        Slot::try_from(3),
        Err(InvalidValue::SlotInvalid(_))
    ));
}

#[test]
fn limits_of_identifiers() {
    assert_eq!(SubscriberId::try_from(MAX_24BIT).unwrap().as_u32(), MAX_24BIT);
    assert_eq!(Talkgroup::try_from(MAX_24BIT).unwrap().as_u32(), MAX_24BIT);
    assert_eq!(Talkgroup::try_from(MAX_24BIT).unwrap().to_be_bytes_3(), [0xFF; 3]);
    assert_eq!(DmrId::try_from(u32::MAX).unwrap().as_u32(), u32::MAX);
    assert_eq!(ColorCode::try_from(0).unwrap().value(), 0);
    assert_eq!(ColorCode::default().value(), 1);
    assert_eq!(Slot::One.as_u8(), 1);
    assert_eq!(Slot::Two.as_u8(), 2);
}
