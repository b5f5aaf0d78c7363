//! Statistics.

use asl_dmr_bridge::events::{CallDirection, StatsEvent, TerminationReason};
use asl_dmr_bridge::stats::{percentile_us, DirectionStats, Heartbeat, Stats};
use asl_dmr_bridge::types::Slot;

const MS: u64 = 1_000_000;

#[test]
fn percentile_us_empty_is_none() {
    let mut v: Vec<u32> = vec![];
    assert_eq!(percentile_us(&mut v, 50), None);
}

#[test]
fn percentile_us_single_sample_is_that_sample() {
    let mut v = vec![42];
    assert_eq!(percentile_us(&mut v, 50), Some(42));
    assert_eq!(percentile_us(&mut v, 99), Some(42));
}

#[test]
fn percentile_us_nearest_rank() {
    let mut v = vec![5, 1, 9, 3, 7, 2, 8, 4, 6, 10];
    assert_eq!(percentile_us(&mut v, 50), Some(5));
    assert_eq!(percentile_us(&mut v, 99), Some(10));
    assert_eq!(v, vec![1, 2, 3, 4, 5, 6, 7, 8, 9, 10]);
    assert_eq!(percentile_us(&mut v, 0), Some(1));
    assert_eq!(percentile_us(&mut v, 100), Some(10));
    assert_eq!(percentile_us(&mut v, 51), Some(6));
}

fn start(dir: CallDirection) -> StatsEvent {
    StatsEvent::CallStart { dir, src_id: 7, dst_id: 91, slot: Slot::Two }
}

fn end(dir: CallDirection) -> StatsEvent {
    StatsEvent::CallEnd { dir, reason: TerminationReason::Normal }
}

#[test]
fn a_call_is_summed_up() {
    let dir = CallDirection::FmToDmr;
    let mut stats = Stats::new();
    assert!(stats.on_event(start(dir), 1000 * MS, 250 * MS).is_none());
    for us in [300u64, 100, 200] {
        let evt = StatsEvent::VoiceFrame { dir, transcode: us * 1000 + 999 };
        assert!(stats.on_event(evt, 1000 * MS, 250 * MS).is_none());
    }
    stats.on_event(StatsEvent::Drop { dir }, 1000 * MS, 250 * MS);
    let log = stats.on_event(end(dir), 1250 * MS, 250 * MS).expect("long enough");
    assert_eq!(log.dir, dir);
    assert_eq!((log.src_id, log.dst_id, log.slot), (7, 91, Slot::Two));
    assert_eq!(log.duration, 250 * MS);
    assert_eq!((log.frames, log.drops), (3, 1));
    assert_eq!(log.transcode_p50_us, Some(200));
    assert_eq!(log.transcode_p99_us, Some(300));
    assert_eq!(log.reason, TerminationReason::Normal);
    assert_eq!(
        stats.fm_to_dmr,
        DirectionStats { calls_completed: 1, voice_frames: 3, drops: 1 }
    );
    assert_eq!(stats.dmr_to_fm, DirectionStats::new());
}

#[test]
fn short_calls_are_counted_but_not_logged() {
    let dir = CallDirection::DmrToFm;
    let mut stats = Stats::new();
    stats.on_event(start(dir), 1000 * MS, 250 * MS);
    stats.on_event(StatsEvent::VoiceFrame { dir, transcode: 0 }, 1001 * MS, 250 * MS);
    assert!(stats.on_event(end(dir), 1249 * MS, 250 * MS).is_none());
    assert_eq!(
        stats.dmr_to_fm,
        DirectionStats { calls_completed: 1, voice_frames: 1, drops: 0 }
    );
}

#[test]
fn a_missed_end_loses_no_counts() {
    let dir = CallDirection::DmrToFm;
    let mut stats = Stats::new();
    stats.on_event(start(dir), 0, 0);
    stats.on_event(StatsEvent::VoiceFrame { dir, transcode: 0 }, 0, 0);
    stats.on_event(StatsEvent::Drop { dir }, 0, 0);
    stats.on_event(start(dir), 0, 0);
    assert_eq!(
        stats.dmr_to_fm,
        DirectionStats { calls_completed: 1, voice_frames: 1, drops: 1 }
    );
    // Without a call, frames are not counted.
    stats.on_event(end(dir), 0, 0);
    stats.on_event(StatsEvent::VoiceFrame { dir, transcode: 0 }, 0, 0);
    assert!(stats.on_event(end(dir), 0, 0).is_none());
    assert_eq!(stats.dmr_to_fm.voice_frames, 1);
    assert_eq!(stats.dmr_to_fm.calls_completed, 2);
}

#[test]
fn slow_frames_are_capped() {
    let dir = CallDirection::DmrToFm;
    let mut stats = Stats::new();
    stats.on_event(start(dir), 0, 0);
    stats.on_event(StatsEvent::VoiceFrame { dir, transcode: u64::MAX }, 0, 0);
    let log = stats.on_event(end(dir), 0, 0).unwrap();
    assert_eq!(log.transcode_p99_us, Some(u32::MAX));
}

#[test]
fn idle_heartbeats_are_skipped() {
    let mut h = Heartbeat::new();
    assert!(!h.tick(0, 0, true));
    assert!(h.tick(0, 0, false));
    assert!(h.tick(3, 0, true));
    assert!(!h.tick(3, 0, true));
    assert!(h.tick(3, 1, true));
}
