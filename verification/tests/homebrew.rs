//! Login, keepalive and reconnection.

use asl_dmr_bridge::homebrew::{
    build_answer, build_rptk, build_tagged, classify, login_step, session_step, InboundEvent,
    KeepaliveTracker, LoginState, LoginStep, NetworkError, ReconnectBackoff, SessionStep, Stage,
    BACKOFF_INITIAL, BACKOFF_MAX, RPTK_LEN, TAG_RPTCL, TAG_RPTK, TAG_RPTL, TAG_RPTPING,
};
use asl_dmr_bridge::types::{DmrId, REPEATER_ID_WIRE_LEN};
use sha2::Digest;
use sha2::Sha256;

const TEST_ID_BYTES: [u8; 4] = [0x00, 0x12, 0xD6, 0x87];
const MS: u64 = 1_000_000;
const SEC: u64 = 1_000_000_000;

fn test_dmr_id() -> DmrId {
    DmrId::try_from(1234567).unwrap()
}

#[test]
fn rptl_format() {
    let pkt = build_tagged(&TAG_RPTL, test_dmr_id());
    assert_eq!(&pkt[..TAG_RPTL.len()], b"RPTL");
    assert_eq!(&pkt[TAG_RPTL.len()..], &TEST_ID_BYTES);
}

#[test]
fn rptk_format() {
    let nonce = [0x01, 0x02, 0x03, 0x04];
    let pkt = build_rptk(test_dmr_id(), &nonce, "secret");
    assert_eq!(pkt.len(), RPTK_LEN);
    assert_eq!(&pkt[..TAG_RPTK.len()], b"RPTK");

    let mut hasher = Sha256::new();
    hasher.update(nonce);
    hasher.update(b"secret");
    let expected = hasher.finalize();
    assert_eq!(&pkt[TAG_RPTK.len() + REPEATER_ID_WIRE_LEN..], &expected[..]);
}

#[test]
fn rptping_format() {
    let pkt = build_tagged(&TAG_RPTPING, test_dmr_id());
    assert_eq!(&pkt[..TAG_RPTPING.len()], b"RPTPING");
    assert_eq!(&pkt[TAG_RPTPING.len()..], &TEST_ID_BYTES);
}

#[test]
fn rptcl_format() {
    let pkt = build_tagged(&TAG_RPTCL, test_dmr_id());
    assert_eq!(&pkt[..TAG_RPTCL.len()], b"RPTCL");
    assert_eq!(&pkt[TAG_RPTCL.len()..], &TEST_ID_BYTES);
}

#[test]
fn answer_holds_the_digest() {
    let digest = [0x5A; 32];
    let pkt = build_answer(test_dmr_id(), &digest);
    assert_eq!(&pkt[..4], b"RPTK");
    assert_eq!(&pkt[4..8], &TEST_ID_BYTES);
    assert_eq!(&pkt[8..], &digest);
}

// --- classify ---

#[test]
fn classify_pong() {
    assert!(matches!(classify(b"MSTPONG"), InboundEvent::Pong));
    assert!(matches!(
        classify(b"MSTPONG\x00\x12\xD6\x87"),
        InboundEvent::Pong
    ));
}

#[test]
fn classify_mstnak() {
    assert!(matches!(classify(b"MSTNAK"), InboundEvent::MasterNak));
}

#[test]
fn classify_mstcl() {
    assert!(matches!(classify(b"MSTCL"), InboundEvent::MasterDisconnect));
}

#[test]
fn classify_rptack() {
    assert!(matches!(
        classify(b"RPTACK\x01\x02\x03\x04"),
        InboundEvent::RptAck
    ));
}

#[test]
fn classify_rptsbkn() {
    assert!(matches!(classify(b"RPTSBKN"), InboundEvent::RptSbkn));
}

#[test]
fn classify_unknown() {
    assert!(matches!(classify(b""), InboundEvent::Unknown));
    assert!(matches!(classify(b"GARBAGE"), InboundEvent::Unknown));
}

fn voice_packet() -> Vec<u8> {
    let mut pkt = Vec::with_capacity(53);
    pkt.extend_from_slice(b"DMRD");
    pkt.push(0); // seq
    pkt.extend_from_slice(&[0, 0, 1]); // src_id
    pkt.extend_from_slice(&[0, 0, 9]); // dst_id
    pkt.extend_from_slice(&[0, 0, 0, 2]); // repeater_id
    pkt.push(0); // flags
    pkt.extend_from_slice(&[0, 0, 0, 0]); // stream_id
    pkt.extend_from_slice(&[0u8; 33]); // dmr_data
    pkt
}

#[test]
fn classify_dmrd_valid() {
    assert!(matches!(classify(&voice_packet()), InboundEvent::Dmrd(_)));
}

#[test]
fn classify_dmrd_too_short_is_parse_error() {
    assert!(matches!(
        classify(b"DMRD\x00\x01\x02"),
        InboundEvent::DmrdParseError(_)
    ));
}

// --- KeepaliveTracker ---

#[test]
fn tracker_first_tick_does_not_count_as_miss() {
    let mut t = KeepaliveTracker::new(3, 0);
    t.check_missed().expect("first tick should not miss");
    assert_eq!(t.missed(), 0);
}

#[test]
fn tracker_ping_then_pong_no_miss() {
    let mut t = KeepaliveTracker::new(3, 0);
    let t0 = SEC;
    t.record_ping(t0);
    t.record_pong(t0 + 50 * MS);
    t.check_missed().expect("answered ping should not miss");
    assert_eq!(t.missed(), 0);
}

#[test]
fn tracker_unanswered_ping_increments_miss() {
    let mut t = KeepaliveTracker::new(3, 0);
    t.record_ping(SEC);
    t.check_missed().expect("one miss is below limit");
    assert_eq!(t.missed(), 1);
}

#[test]
fn tracker_reaches_limit_returns_keepalive_lost() {
    let mut t = KeepaliveTracker::new(3, 0);
    let t0 = SEC;
    for i in 0..3 {
        t.record_ping(t0 + i * 10 * MS);
        if i < 2 {
            t.check_missed().expect("not yet at limit");
        } else {
            let err = t.check_missed().expect_err("should hit limit");
            assert!(matches!(err, NetworkError::KeepaliveLost(3)));
        }
    }
}

#[test]
fn tracker_pong_clears_miss_counter() {
    let mut t = KeepaliveTracker::new(3, 0);
    let t0 = SEC;
    t.record_ping(t0);
    t.check_missed().unwrap();
    assert_eq!(t.missed(), 1);
    t.record_pong(t0 + SEC);
    assert_eq!(t.missed(), 0);
    let t1 = t0 + 2 * SEC;
    t.record_ping(t1);
    t.record_pong(t1 + 50 * MS);
    t.check_missed().unwrap();
    assert_eq!(t.missed(), 0, "answered ping keeps counter at zero");
}

// --- ReconnectBackoff ---

#[test]
fn backoff_starts_at_initial() {
    let b = ReconnectBackoff::new();
    assert_eq!(b.current(), BACKOFF_INITIAL);
}

#[test]
fn backoff_doubles_until_cap() {
    let mut b = ReconnectBackoff::new();
    let mut prev = b.current();
    let mut hit_cap = false;
    for _ in 0..16 {
        b.double();
        let now = b.current();
        if hit_cap {
            assert_eq!(now, BACKOFF_MAX, "must stay at cap once reached");
        } else if now == BACKOFF_MAX {
            hit_cap = true;
        } else {
            assert_eq!(now, prev * 2, "must double exactly until cap");
        }
        prev = now;
    }
    assert!(hit_cap, "backoff must reach BACKOFF_MAX within 16 steps");
}

#[test]
fn backoff_reset_returns_to_initial() {
    let mut b = ReconnectBackoff::new();
    b.double();
    b.double();
    b.double();
    assert_ne!(b.current(), BACKOFF_INITIAL, "precondition: not at start");
    b.reset();
    assert_eq!(b.current(), BACKOFF_INITIAL);
}

#[test]
fn backoff_double_after_cap_stays_at_cap() {
    let mut b = ReconnectBackoff::new();
    while b.current() < BACKOFF_MAX {
        b.double();
    }
    assert_eq!(b.current(), BACKOFF_MAX);
    for _ in 0..8 {
        b.double();
        assert_eq!(b.current(), BACKOFF_MAX);
    }
}

#[test]
fn delays_after_failures() {
    let mut b = ReconnectBackoff::new();
    let delays: Vec<u64> = (0..8).map(|_| b.on_failure(false) / SEC).collect();
    assert_eq!(delays, vec![1, 2, 4, 8, 16, 32, 60, 60]);
    assert_eq!(b.on_failure(true), SEC);
    assert_eq!(b.on_failure(false), 2 * SEC);
}

// --- session ---

#[test]
fn keepalive_loop_returns_master_nak_on_mstnak() {
    let mut t = KeepaliveTracker::new(3, 0);
    let step = session_step(&mut t, b"MSTNAK\x00\x12\xD6\x87", SEC);
    assert!(matches!(
        step,
        SessionStep::Fail(NetworkError::MasterNak { stage: Stage::Keepalive })
    ));
    assert_eq!(Stage::Keepalive.refused(), "keepalive");
}

#[test]
fn keepalive_loop_returns_disconnect_on_mstcl() {
    let mut t = KeepaliveTracker::new(3, 0);
    let step = session_step(&mut t, b"MSTCL\x00\x12\xD6\x87", SEC);
    assert!(matches!(
        step,
        SessionStep::Fail(NetworkError::MasterDisconnect)
    ));
}

#[test]
fn session_forwards_voice_and_counts_pongs() {
    let mut t = KeepaliveTracker::new(3, 0);
    t.record_ping(SEC);
    t.check_missed().unwrap();
    assert!(matches!(
        session_step(&mut t, b"MSTPONG", 2 * SEC),
        SessionStep::Ignore
    ));
    assert_eq!(t.missed(), 0);
    assert_eq!(t.last_pong, 2 * SEC);
    match session_step(&mut t, &voice_packet(), 3 * SEC) {
        SessionStep::Forward(d) => assert_eq!(d.dst_id, 9),
        other => panic!("got {other:?}"),
    }
    assert!(matches!(
        session_step(&mut t, b"DMRD", 3 * SEC),
        SessionStep::Broken(_)
    ));
    assert!(matches!(
        session_step(&mut t, b"RPTSBKN", 3 * SEC),
        SessionStep::Ignore
    ));
    assert!(matches!(
        session_step(&mut t, b"HELLO", 3 * SEC),
        SessionStep::Unknown
    ));
}

// --- login ---

fn step(state: &mut LoginState, data: &[u8]) -> LoginStep {
    let description = b"RPTC and more".to_vec();
    login_step(state, data, test_dmr_id(), "secret", &description)
}

#[test]
fn login_goes_through_its_stages() {
    let mut state = LoginState::Challenge;
    // Neither noise nor an acceptance without a challenge counts.
    assert!(matches!(step(&mut state, b"MSTPONG"), LoginStep::Wait));
    assert!(matches!(step(&mut state, b"RPTACK\x01"), LoginStep::Wait));
    match step(&mut state, b"RPTACK\x01\x02\x03\x04") {
        LoginStep::Send(pkt) => {
            assert_eq!(pkt, build_rptk(test_dmr_id(), &[1, 2, 3, 4], "secret"))
        }
        other => panic!("got {other:?}"),
    }
    match step(&mut state, b"RPTACK\x00\x12\xD6\x87") {
        LoginStep::Send(pkt) => assert_eq!(pkt, b"RPTC and more"),
        other => panic!("got {other:?}"),
    }
    assert!(matches!(step(&mut state, b"RPTACK"), LoginStep::Done));
    assert_eq!(state, LoginState::Done);
}

#[test]
fn login_refusals_name_the_stage() {
    for (from, stage) in [
        (LoginState::Challenge, Stage::Login),
        (LoginState::KeyAck, Stage::Key),
        (LoginState::ConfigAck, Stage::Config),
    ] {
        let mut state = from;
        match step(&mut state, b"MSTNAK") {
            LoginStep::Fail(NetworkError::MasterNak { stage: s }) => assert_eq!(s, stage),
            other => panic!("got {other:?}"),
        }
        assert_eq!(state, LoginState::Failed);
    }
    assert_eq!(Stage::Login.refused(), "login");
    assert_eq!(Stage::Key.refused(), "auth (incorrect password)");
    assert_eq!(Stage::Config.refused(), "config");
}

#[test]
fn login_previews_what_was_not_expected() {
    let mut state = LoginState::KeyAck;
    match step(&mut state, b"0123456789ABCDEF") {
        LoginStep::Fail(NetworkError::UnexpectedResponse { stage, preview }) => {
            assert_eq!(stage.sent_tag(), "RPTK");
            assert_eq!(preview, b"0123456789");
        }
        other => panic!("got {other:?}"),
    }
    let mut state = LoginState::ConfigAck;
    match step(&mut state, b"abc") {
        LoginStep::Fail(NetworkError::UnexpectedResponse { stage, preview }) => {
            assert_eq!(stage.sent_tag(), "RPTC");
            assert_eq!(preview, b"abc");
        }
        other => panic!("got {other:?}"),
    }
}
