//! Metadata of calls as JSON, and names for the log.

use asl_dmr_bridge::events::{
    build_call_object, CallDirection, CallMetadata, MetaEvent, TerminationReason,
};
use asl_dmr_bridge::types::{ColorCode, Slot, SubscriberId, Talkgroup};

fn metadata(call: Option<&str>, name: Option<&str>) -> CallMetadata {
    CallMetadata {
        dmr_id: SubscriberId::try_from(1234567).unwrap(),
        tg: Talkgroup::try_from(91).unwrap(),
        slot: Slot::One,
        cc: ColorCode::try_from(1).unwrap(),
        call: call.map(String::from),
        name: name.map(String::from),
    }
}

#[test]
fn call_metadata_json_shape_no_lookup() {
    let s = metadata(None, None).to_json();
    assert_eq!(s, r#"{"dmr_id":1234567,"tg":91,"slot":1,"cc":1}"#);
}

#[test]
fn call_metadata_json_shape_with_lookup() {
    let s = metadata(Some("N0CALL"), Some("Test")).to_json();
    assert_eq!(
        s,
        r#"{"dmr_id":1234567,"tg":91,"slot":1,"cc":1,"call":"N0CALL","name":"Test"}"#
    );
}

#[test]
fn call_metadata_json_is_escaped() {
    let s = metadata(Some("N0CALL"), Some("A \"B\"\n\u{e9}\\")).to_json();
    let v: serde_json::Value = serde_json::from_str(&s).unwrap();
    assert_eq!(v["name"].as_str(), Some("A \"B\"\n\u{e9}\\"));
    assert_eq!(v["dmr_id"].as_u64(), Some(1234567));
    assert!(s.contains(r#""A \"B\"\n"#));
}

#[test]
fn call_object_of_parts() {
    let s = build_call_object(1, 2, 2, 15, &None, &Some("\"x\"".to_string()));
    assert_eq!(s, r#"{"dmr_id":1,"tg":2,"slot":2,"cc":15,"name":"x"}"#);
}

#[test]
fn clear_is_an_empty_object() {
    assert_eq!(MetaEvent::Clear.text(), "{}");
    let m = metadata(None, None);
    assert_eq!(MetaEvent::Call(m.clone()).text(), m.to_json());
}

#[test]
fn names_for_the_log() {
    assert_eq!(CallDirection::FmToDmr.as_str(), "fm_to_dmr");
    assert_eq!(CallDirection::DmrToFm.as_str(), "dmr_to_fm");
    assert_eq!(TerminationReason::StreamTimeout.as_str(), "stream_timeout");
    assert_eq!(TerminationReason::NetworkReset.as_str(), "network_reset");
}

#[test]
fn control_characters_are_escaped() {
    let s = metadata(Some("\u{8}\t\n\u{c}\r/"), Some("\u{0}\u{b}\u{1f}\u{7f}\"\\é")).to_json();
    assert_eq!(
        s,
        concat_json(r#"\b\t\n\f\r/"#, "\\u0000\\u000b\\u001f\u{7f}\\\"\\\\é")
    );
}

fn concat_json(call: &str, name: &str) -> String {
    format!(
        r#"{{"dmr_id":1234567,"tg":91,"slot":1,"cc":1,"call":"{call}","name":"{name}"}}"#
    )
}
