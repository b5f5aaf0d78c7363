//! Statistics: a summary of each call, and totals for a periodic heartbeat.
//! Times are in nanoseconds.

use vstd::prelude::*;

use crate::events::{CallDirection, StatsEvent, TerminationReason};
use crate::types::Slot;

verus! {

/// Period of the heartbeat, unless configured.
pub const DEFAULT_HEARTBEAT_INTERVAL: u64 = 60_000_000_000;

/// Shortest call that is logged, unless configured.
pub const DEFAULT_MIN_CALL_LOG_DURATION: u64 = 250_000_000;

/// Period of the summary, unless configured.
pub const DEFAULT_SUMMARY_INTERVAL: u64 = 43_200_000_000_000;

/// Totals of one direction since the start.
#[derive(Debug, Clone, Copy, PartialEq, Eq, Structural)]
pub struct DirectionStats {
    pub calls_completed: u64,
    pub voice_frames: u64,
    pub drops: u64,
}

/// A call that has not ended.
#[derive(Debug, Clone)]
pub struct CallAccumulator {
    pub started_at: u64,
    pub src_id: u32,
    pub dst_id: u32,
    pub slot: Slot,
    pub frames: u64,
    pub drops: u64,
    /// The vocoder's time for each frame, in microseconds.
    pub transcode_us: Vec<u32>,
}

/// Totals, and the calls that have not ended.
#[derive(Debug, Clone)]
pub struct Stats {
    pub fm_to_dmr: DirectionStats,
    pub dmr_to_fm: DirectionStats,
    pub fm_to_dmr_call: Option<CallAccumulator>,
    pub dmr_to_fm_call: Option<CallAccumulator>,
}

/// What is logged of a call.
#[derive(Debug, Clone, Copy, PartialEq, Eq, Structural)]
pub struct CallSummary {
    pub dir: CallDirection,
    pub src_id: u32,
    pub dst_id: u32,
    pub slot: Slot,
    pub duration: u64,
    pub frames: u64,
    pub drops: u64,
    pub transcode_p50_us: Option<u32>,
    pub transcode_p99_us: Option<u32>,
    pub reason: TerminationReason,
}

// ---------------------------------------------------------------------------
// Percentiles
// ---------------------------------------------------------------------------

/// Numbers in ascending order.
pub open spec fn is_sorted(v: Seq<u32>) -> bool {
    forall|i: int, j: int| 0 <= i <= j < v.len() ==> v[i] <= v[j]
}

/// The nearest rank of a percentile among `n` samples, from one.
pub open spec fn nearest_rank(pct: int, n: int) -> int {
    let rank = (pct * n + 99) / 100;
    if rank < 1 {
        1
    } else if rank > n {
        n
    } else {
        rank
    }
}

/// `x` is the sample at the nearest rank of a percentile, if there is one.
pub open spec fn is_percentile(v: Seq<u32>, pct: int, x: Option<u32>) -> bool {
    match x {
        None => v.len() == 0,
        Some(value) => v.len() > 0 && exists|s: Seq<u32>| #[trigger]
            is_sorted(s) && s.to_multiset() == v.to_multiset() && value == s[nearest_rank(
                pct,
                v.len() as int,
            ) - 1],
    }
}

/// Sorts numbers.
///
/// Calls `slice::sort_unstable`, which puts the same numbers in ascending
/// order.
#[verifier::external_body]
fn sort(v: &mut Vec<u32>)
    ensures
        is_sorted(final(v)@),
        final(v)@.to_multiset() == old(v)@.to_multiset(),
{
    v.sort_unstable();
}

/// The sample at the nearest rank of a percentile.  Leaves the samples in
/// ascending order.
pub fn percentile_us(samples: &mut Vec<u32>, pct: u32) -> (r: Option<u32>)
    ensures
        final(samples)@.to_multiset() == old(samples)@.to_multiset(),
        final(samples)@.len() == old(samples)@.len(),
        is_sorted(final(samples)@),
        match r {
            None => old(samples)@.len() == 0,
            Some(x) => old(samples)@.len() > 0 && x == final(samples)@[nearest_rank(
                pct as int,
                old(samples)@.len() as int,
            ) - 1],
        },
        is_percentile(old(samples)@, pct as int, r),
{
    let ghost before = samples@;
    if samples.len() == 0 {
        return None;
    }
    sort(samples);
    proof {
        before.to_multiset_ensures();
        samples@.to_multiset_ensures();
    }
    let n: usize = samples.len();
    assert(pct as int * n as int <= 0xFFFF_FFFF * 0xFFFF_FFFF_FFFF_FFFF) by (nonlinear_arith)
        requires
            0 <= pct <= 0xFFFF_FFFF,
            0 <= n <= 0xFFFF_FFFF_FFFF_FFFF,
    ;
    let rank: u128 = (pct as u128 * n as u128 + 99) / 100;
    let index: usize = if rank < 1 {
        0
    } else if rank > n as u128 {
        n - 1
    } else {
        (rank - 1) as usize
    };
    assert(index == nearest_rank(pct as int, n as int) - 1);
    Some(samples[index])
}

/// Law: a percentile is a sample; at least as many samples as its rank are at
/// most as great, and fewer than its rank are smaller.
pub proof fn law_nearest_rank(s: Seq<u32>, pct: int)
    requires
        is_sorted(s),
        s.len() > 0,
        0 <= pct <= 100,
    ensures
        ({
            let k = nearest_rank(pct, s.len() as int);
            &&& 1 <= k <= s.len()
            &&& pct * s.len() <= 100 * k
            &&& pct > 0 ==> 100 * (k - 1) < pct * s.len()
            &&& pct == 0 ==> k == 1
            &&& forall|i: int| 0 <= i < k ==> #[trigger] s[i] <= s[k - 1]
            &&& forall|i: int| k <= i < s.len() ==> #[trigger] s[i] >= s[k - 1]
        }),
{
    let n = s.len() as int;
    assert(0 <= pct * n <= 100 * n) by (nonlinear_arith)
        requires
            0 <= pct <= 100,
            n > 0,
    ;
    if pct > 0 {
        assert(pct * n >= 1) by (nonlinear_arith)
            requires
                pct > 0,
                n > 0,
        ;
    }
}

// ---------------------------------------------------------------------------
// Events
// ---------------------------------------------------------------------------

/// A call as plain values.
pub struct CallView {
    pub started_at: u64,
    pub src_id: u32,
    pub dst_id: u32,
    pub slot: Slot,
    pub frames: u64,
    pub drops: u64,
    pub transcode_us: Seq<u32>,
}

/// One direction as plain values.
pub struct DirectionView {
    pub totals: DirectionStats,
    pub call: Option<CallView>,
}

/// A call as plain values.
pub open spec fn call_view(c: Option<CallAccumulator>) -> Option<CallView> {
    match c {
        None => None,
        Some(a) => Some(
            CallView {
                started_at: a.started_at,
                src_id: a.src_id,
                dst_id: a.dst_id,
                slot: a.slot,
                frames: a.frames,
                drops: a.drops,
                transcode_us: a.transcode_us@,
            },
        ),
    }
}

/// The direction that an event is about.
pub open spec fn event_dir(evt: StatsEvent) -> CallDirection {
    match evt {
        StatsEvent::CallStart { dir, .. } => dir,
        StatsEvent::VoiceFrame { dir, .. } => dir,
        StatsEvent::Drop { dir } => dir,
        StatsEvent::CallEnd { dir, .. } => dir,
    }
}

/// A time in whole microseconds, as far as it can be told.
pub open spec fn micros(ns: u64) -> u32 {
    if ns / 1000 > u32::MAX {
        u32::MAX
    } else {
        (ns / 1000) as u32
    }
}

/// Sum of counters, which wrap around.
pub open spec fn wrapped(x: int) -> u64 {
    (x % 0x1_0000_0000_0000_0000) as u64
}

/// Totals with a call added.
pub open spec fn with_call(totals: DirectionStats, c: CallView) -> DirectionStats {
    DirectionStats {
        calls_completed: wrapped(totals.calls_completed + 1),
        voice_frames: wrapped(totals.voice_frames + c.frames),
        drops: wrapped(totals.drops + c.drops),
    }
}

/// A direction after an event about it.
pub open spec fn after_event(d: DirectionView, evt: StatsEvent, now: u64) -> DirectionView {
    match evt {
        StatsEvent::CallStart { src_id, dst_id, slot, .. } => DirectionView {
            totals: match d.call {
                Some(c) => with_call(d.totals, c),
                None => d.totals,
            },
            call: Some(
                CallView {
                    started_at: now,
                    src_id,
                    dst_id,
                    slot,
                    frames: 0,
                    drops: 0,
                    transcode_us: seq![],
                },
            ),
        },
        StatsEvent::VoiceFrame { transcode, .. } => match d.call {
            Some(c) => DirectionView {
                totals: d.totals,
                call: Some(
                    CallView {
                        frames: (c.frames + 1) as u64,
                        transcode_us: c.transcode_us.push(micros(transcode)),
                        ..c
                    },
                ),
            },
            None => d,
        },
        StatsEvent::Drop { .. } => match d.call {
            Some(c) => DirectionView {
                totals: d.totals,
                call: Some(CallView { drops: (c.drops + 1) as u64, ..c }),
            },
            None => d,
        },
        StatsEvent::CallEnd { .. } => match d.call {
            Some(c) => DirectionView { totals: with_call(d.totals, c), call: None },
            None => d,
        },
    }
}

/// How long a call took.
pub open spec fn duration_of(c: CallView, now: u64) -> u64 {
    if now > c.started_at {
        (now - c.started_at) as u64
    } else {
        0
    }
}

/// `log` is what is logged on an event about a direction.
pub open spec fn is_log_of(
    d: DirectionView,
    evt: StatsEvent,
    now: u64,
    min_duration: u64,
    log: Option<CallSummary>,
) -> bool {
    match (evt, d.call) {
        (StatsEvent::CallEnd { dir, reason }, Some(c)) => if duration_of(c, now) < min_duration {
            log is None
        } else {
            &&& log matches Some(s)
            &&& s.dir == dir
            &&& s.src_id == c.src_id
            &&& s.dst_id == c.dst_id
            &&& s.slot == c.slot
            &&& s.duration == duration_of(c, now)
            &&& s.frames == c.frames
            &&& s.drops == c.drops
            &&& is_percentile(c.transcode_us, 50, s.transcode_p50_us)
            &&& is_percentile(c.transcode_us, 99, s.transcode_p99_us)
            &&& s.reason == reason
        },
        _ => log is None,
    }
}

impl DirectionStats {
    pub fn new() -> (r: Self)
        ensures
            r == (DirectionStats { calls_completed: 0, voice_frames: 0, drops: 0 }),
    {
        DirectionStats { calls_completed: 0, voice_frames: 0, drops: 0 }
    }

    /// Adds a call.
    fn fold(&mut self, acc: &CallAccumulator)
        ensures
            *final(self) == with_call(*old(self), call_view(Some(*acc))->0),
    {
        self.calls_completed = self.calls_completed.wrapping_add(1);
        self.voice_frames = self.voice_frames.wrapping_add(acc.frames);
        self.drops = self.drops.wrapping_add(acc.drops);
    }
}

impl CallAccumulator {
    /// A call without frames.
    fn new(src_id: u32, dst_id: u32, slot: Slot, now: u64) -> (r: Self)
        ensures
            call_view(Some(r)) == Some(
                CallView {
                    started_at: now,
                    src_id,
                    dst_id,
                    slot,
                    frames: 0,
                    drops: 0,
                    transcode_us: seq![],
                },
            ),
    {
        let transcode_us: Vec<u32> = Vec::new();
        assert(transcode_us@ =~= seq![]);
        CallAccumulator { started_at: now, src_id, dst_id, slot, frames: 0, drops: 0, transcode_us }
    }
}

/// Ends a call: what is logged of it.
fn end_call(
    acc: CallAccumulator,
    dir: CallDirection,
    reason: TerminationReason,
    now: u64,
    min_duration: u64,
) -> (log: Option<CallSummary>)
    ensures
        forall|totals: DirectionStats|
            is_log_of(
                DirectionView { totals, call: call_view(Some(acc)) },
                StatsEvent::CallEnd { dir, reason },
                now,
                min_duration,
                log,
            ),
{
    let duration: u64 = if now > acc.started_at {
        now - acc.started_at
    } else {
        0
    };
    if duration < min_duration {
        return None;
    }
    let mut samples = acc.transcode_us;
    let ghost before = samples@;
    let transcode_p50_us = percentile_us(&mut samples, 50);
    let ghost middle = samples@;
    let transcode_p99_us = percentile_us(&mut samples, 99);
    proof {
        if transcode_p99_us is Some {
            let s = choose|s: Seq<u32>| #[trigger]
                is_sorted(s) && s.to_multiset() == middle.to_multiset() && transcode_p99_us->0
                    == s[nearest_rank(99, middle.len() as int) - 1];
            assert(is_sorted(s) && s.to_multiset() == before.to_multiset());
        }
        assert(is_percentile(before, 99, transcode_p99_us));
    }
    Some(
        CallSummary {
            dir,
            src_id: acc.src_id,
            dst_id: acc.dst_id,
            slot: acc.slot,
            duration,
            frames: acc.frames,
            drops: acc.drops,
            transcode_p50_us,
            transcode_p99_us,
            reason,
        },
    )
}

/// Takes an event about one direction into account.
fn direction_event(
    totals: &mut DirectionStats,
    call: &mut Option<CallAccumulator>,
    evt: StatsEvent,
    now: u64,
    min_duration: u64,
) -> (log: Option<CallSummary>)
    requires
        *old(call) matches Some(c) ==> c.frames < u64::MAX && c.drops < u64::MAX,
    ensures
        ({
            let before = DirectionView { totals: *old(totals), call: call_view(*old(call)) };
            let after = DirectionView { totals: *final(totals), call: call_view(*final(call)) };
            &&& after == after_event(before, evt, now)
            &&& is_log_of(before, evt, now, min_duration, log)
        }),
{
    let mut current: Option<CallAccumulator> = None;
    std::mem::swap(&mut current, call);
    match evt {
        StatsEvent::CallStart { dir: _, src_id, dst_id, slot } => {
            if let Some(prev) = current {
                totals.fold(&prev);
            }
            *call = Some(CallAccumulator::new(src_id, dst_id, slot, now));
            None
        },
        StatsEvent::VoiceFrame { dir: _, transcode } => {
            if let Some(mut acc) = current {
                let whole: u64 = transcode / 1000;
                let us: u32 = if whole > u32::MAX as u64 {
                    u32::MAX
                } else {
                    whole as u32
                };
                acc.frames = acc.frames + 1;
                acc.transcode_us.push(us);
                *call = Some(acc);
            }
            None
        },
        StatsEvent::Drop { dir: _ } => {
            if let Some(mut acc) = current {
                acc.drops = acc.drops + 1;
                *call = Some(acc);
            }
            None
        },
        StatsEvent::CallEnd { dir, reason } => {
            if let Some(acc) = current {
                totals.fold(&acc);
                return end_call(acc, dir, reason, now, min_duration);
            }
            None
        },
    }
}

impl Stats {
    /// One direction as plain values.
    pub open spec fn direction(self, dir: CallDirection) -> DirectionView {
        match dir {
            CallDirection::FmToDmr => DirectionView {
                totals: self.fm_to_dmr,
                call: call_view(self.fm_to_dmr_call),
            },
            CallDirection::DmrToFm => DirectionView {
                totals: self.dmr_to_fm,
                call: call_view(self.dmr_to_fm_call),
            },
        }
    }

    /// The counters of the calls that have not ended can count on.
    pub open spec fn can_count(self) -> bool {
        &&& self.fm_to_dmr_call matches Some(c) ==> c.frames < u64::MAX && c.drops < u64::MAX
        &&& self.dmr_to_fm_call matches Some(c) ==> c.frames < u64::MAX && c.drops < u64::MAX
    }

    pub fn new() -> (r: Self)
        ensures
            r.can_count(),
            forall|dir: CallDirection| #[trigger]
                r.direction(dir) == (DirectionView {
                    totals: DirectionStats { calls_completed: 0, voice_frames: 0, drops: 0 },
                    call: None,
                }),
    {
        Stats {
            fm_to_dmr: DirectionStats::new(),
            dmr_to_fm: DirectionStats::new(),
            fm_to_dmr_call: None,
            dmr_to_fm_call: None,
        }
    }

    /// Takes an event into account.  Gives what is to be logged when a call of
    /// at least `min_duration` ends.
    pub fn on_event(&mut self, evt: StatsEvent, now: u64, min_duration: u64) -> (log: Option<
        CallSummary,
    >)
        requires
            old(self).can_count(),
        ensures
            forall|dir: CallDirection| #[trigger]
                final(self).direction(dir) == if dir == event_dir(evt) {
                    after_event(old(self).direction(dir), evt, now)
                } else {
                    old(self).direction(dir)
                },
            is_log_of(old(self).direction(event_dir(evt)), evt, now, min_duration, log),
    {
        let dir = match evt {
            StatsEvent::CallStart { dir, .. } => dir,
            StatsEvent::VoiceFrame { dir, .. } => dir,
            StatsEvent::Drop { dir } => dir,
            StatsEvent::CallEnd { dir, .. } => dir,
        };
        match dir {
            CallDirection::FmToDmr => direction_event(
                &mut self.fm_to_dmr,
                &mut self.fm_to_dmr_call,
                evt,
                now,
                min_duration,
            ),
            CallDirection::DmrToFm => direction_event(
                &mut self.dmr_to_fm,
                &mut self.dmr_to_fm_call,
                evt,
                now,
                min_duration,
            ),
        }
    }
}

/// Frames of a direction: those of the calls that ended and those of the call
/// that has not.
pub open spec fn frames_seen(d: DirectionView) -> int {
    d.totals.voice_frames + match d.call {
        Some(c) => c.frames as int,
        None => 0,
    }
}

/// Lost frames of a direction.
pub open spec fn drops_seen(d: DirectionView) -> int {
    d.totals.drops + match d.call {
        Some(c) => c.drops as int,
        None => 0,
    }
}

/// Law: no event loses a count.  A frame or a lost frame of a call adds one;
/// the start or end of a call, ended properly or not, only moves counts into
/// the totals.  (As long as no total wraps around.)
pub proof fn law_counts_kept(d: DirectionView, evt: StatsEvent, now: u64)
    requires
        frames_seen(d) < u64::MAX,
        drops_seen(d) < u64::MAX,
    ensures
        frames_seen(after_event(d, evt, now)) == frames_seen(d) + if evt is VoiceFrame && d.call
            is Some {
            1int
        } else {
            0
        },
        drops_seen(after_event(d, evt, now)) == drops_seen(d) + if evt is Drop && d.call is Some {
            1int
        } else {
            0
        },
        d.totals.calls_completed < u64::MAX ==> after_event(d, evt, now).totals.calls_completed
            == d.totals.calls_completed + if (evt is CallEnd || evt is CallStart) && d.call is Some {
            1int
        } else {
            0
        },
{
}

/// Law: of a call there are as many samples as frames.
pub proof fn law_sample_per_frame(d: DirectionView, evt: StatsEvent, now: u64)
    requires
        d.call matches Some(c) ==> c.transcode_us.len() == c.frames && c.frames < u64::MAX,
    ensures
        after_event(d, evt, now).call matches Some(c) ==> c.transcode_us.len() == c.frames,
{
}

// ---------------------------------------------------------------------------
// Heartbeat
// ---------------------------------------------------------------------------

/// Frames at the last heartbeat.
#[derive(Debug, Clone, Copy, PartialEq, Eq, Structural)]
pub struct Heartbeat {
    pub last_fm_frames: u64,
    pub last_dmr_frames: u64,
}

impl Heartbeat {
    pub fn new() -> (r: Self)
        ensures
            r == (Heartbeat { last_fm_frames: 0, last_dmr_frames: 0 }),
    {
        Heartbeat { last_fm_frames: 0, last_dmr_frames: 0 }
    }

    /// Whether a heartbeat is due to be logged: not if idle ones are skipped and
    /// no frame came since the last.
    pub fn tick(&mut self, fm_frames: u64, dmr_frames: u64, skip_idle: bool) -> (r: bool)
        ensures
            r == !(skip_idle && fm_frames == old(self).last_fm_frames && dmr_frames == old(
                self,
            ).last_dmr_frames),
            *final(self) == (Heartbeat { last_fm_frames: fm_frames, last_dmr_frames: dmr_frames }),
    {
        if skip_idle && fm_frames == self.last_fm_frames && dmr_frames == self.last_dmr_frames {
            return false;
        }
        self.last_fm_frames = fm_frames;
        self.last_dmr_frames = dmr_frames;
        true
    }
}

/// Law: a percentile is there as soon as there is a sample.  It is then the
/// sample at the smallest place, among the samples in ascending order, that has
/// its share of them at or before it; the first sample stands for every share
/// up to its own.
pub proof fn law_percentile(v: Seq<u32>, pct: int, x: Option<u32>)
    requires
        0 <= pct <= 100,
        is_percentile(v, pct, x),
    ensures
        x is None <==> v.len() == 0,
        x matches Some(value) ==> exists|s: Seq<u32>, j: int|
            {
                &&& #[trigger] s.to_multiset() == v.to_multiset()
                &&& forall|a: int, b: int| 0 <= a <= b < s.len() ==> s[a] <= s[b]
                &&& 0 <= j < s.len()
                &&& pct * v.len() <= 100 * (j + 1)
                &&& j == 0 || 100 * j < pct * v.len()
                &&& value == #[trigger] s[j]
            },
{
    if let Some(value) = x {
        let s = choose|s: Seq<u32>| #[trigger]
            is_sorted(s) && s.to_multiset() == v.to_multiset() && value == s[nearest_rank(
                pct,
                v.len() as int,
            ) - 1];
        s.to_multiset_ensures();
        v.to_multiset_ensures();
        assert(s.len() == s.to_multiset().len());
        law_nearest_rank(s, pct);
        let j = nearest_rank(pct, v.len() as int) - 1;
        assert(value == s[j]);
    }
}

/// Law: of what passes from FM to DMR only that direction's counters tell.  A call
/// begins without counts, and ends one that was left open; each frame and each
/// lost frame of an open call counts once; when a call ends, its counts join
/// the totals.
pub proof fn law_fm_to_dmr_counted(
    before: Stats,
    evt: StatsEvent,
    now: u64,
    min_duration: u64,
    log: Option<CallSummary>,
    after: Stats,
)
    requires
        before.can_count(),
        forall|dir: CallDirection| #[trigger]
            after.direction(dir) == if dir == event_dir(evt) {
                after_event(before.direction(dir), evt, now)
            } else {
                before.direction(dir)
            },
        is_log_of(before.direction(event_dir(evt)), evt, now, min_duration, log),
        match evt {
            StatsEvent::CallStart { dir, .. } => dir is FmToDmr,
            StatsEvent::VoiceFrame { dir, .. } => dir is FmToDmr,
            StatsEvent::Drop { dir } => dir is FmToDmr,
            StatsEvent::CallEnd { dir, .. } => dir is FmToDmr,
        },
    ensures
        after.dmr_to_fm == before.dmr_to_fm,
        match (before.dmr_to_fm_call, after.dmr_to_fm_call) {
            (None, None) => true,
            (Some(b), Some(a)) => {
                &&& a.started_at == b.started_at
                &&& a.src_id == b.src_id
                &&& a.dst_id == b.dst_id
                &&& a.slot == b.slot
                &&& a.frames == b.frames
                &&& a.drops == b.drops
                &&& a.transcode_us@ == b.transcode_us@
            },
            _ => false,
        },
        match (evt, before.fm_to_dmr_call) {
            (StatsEvent::CallStart { .. }, Some(c)) | (StatsEvent::CallEnd { .. }, Some(c)) => {
                &&& after.fm_to_dmr.calls_completed == (before.fm_to_dmr.calls_completed + 1)
                    % 0x1_0000_0000_0000_0000
                &&& after.fm_to_dmr.voice_frames == (before.fm_to_dmr.voice_frames + c.frames)
                    % 0x1_0000_0000_0000_0000
                &&& after.fm_to_dmr.drops == (before.fm_to_dmr.drops + c.drops)
                    % 0x1_0000_0000_0000_0000
            },
            _ => after.fm_to_dmr == before.fm_to_dmr,
        },
        match (evt, before.fm_to_dmr_call) {
            (StatsEvent::CallStart { src_id, dst_id, slot, .. }, _) => {
                &&& after.fm_to_dmr_call matches Some(a)
                &&& a.started_at == now
                &&& a.src_id == src_id
                &&& a.dst_id == dst_id
                &&& a.slot == slot
                &&& a.frames == 0
                &&& a.drops == 0
                &&& a.transcode_us@.len() == 0
            },
            (StatsEvent::CallEnd { .. }, _) => after.fm_to_dmr_call is None,
            (_, None) => after.fm_to_dmr_call is None,
            (StatsEvent::VoiceFrame { transcode, .. }, Some(b)) => {
                &&& after.fm_to_dmr_call matches Some(a)
                &&& a.started_at == b.started_at
                &&& a.src_id == b.src_id
                &&& a.dst_id == b.dst_id
                &&& a.slot == b.slot
                &&& a.frames == b.frames + 1
                &&& a.drops == b.drops
                &&& a.transcode_us@.len() == b.transcode_us@.len() + 1
                &&& a.transcode_us@.drop_last() == b.transcode_us@
                &&& a.transcode_us@.last() == if transcode / 1000 < 0xFFFF_FFFF {
                    (transcode / 1000) as int
                } else {
                    0xFFFF_FFFF
                }
            },
            (StatsEvent::Drop { .. }, Some(b)) => {
                &&& after.fm_to_dmr_call matches Some(a)
                &&& a.started_at == b.started_at
                &&& a.src_id == b.src_id
                &&& a.dst_id == b.dst_id
                &&& a.slot == b.slot
                &&& a.frames == b.frames
                &&& a.drops == b.drops + 1
                &&& a.transcode_us@ == b.transcode_us@
            },
        },
        log is Some <==> evt is CallEnd && (before.fm_to_dmr_call matches Some(c) && (if now
            > c.started_at {
            now - c.started_at
        } else {
            0
        }) >= min_duration),
        log matches Some(s) ==> {
            let c = before.fm_to_dmr_call->0;
            &&& s.dir is FmToDmr
            &&& s.src_id == c.src_id
            &&& s.dst_id == c.dst_id
            &&& s.slot == c.slot
            &&& s.duration == if now > c.started_at {
                now - c.started_at
            } else {
                0
            }
            &&& s.frames == c.frames
            &&& s.drops == c.drops
            &&& is_percentile(c.transcode_us@, 50, s.transcode_p50_us)
            &&& is_percentile(c.transcode_us@, 99, s.transcode_p99_us)
            &&& evt matches StatsEvent::CallEnd { reason, .. } && s.reason == reason
        },
{
    assert(after.direction(CallDirection::FmToDmr) == if CallDirection::FmToDmr == event_dir(evt) {
        after_event(before.direction(CallDirection::FmToDmr), evt, now)
    } else {
        before.direction(CallDirection::FmToDmr)
    });
    assert(after.direction(CallDirection::DmrToFm) == if CallDirection::DmrToFm == event_dir(evt) {
        after_event(before.direction(CallDirection::DmrToFm), evt, now)
    } else {
        before.direction(CallDirection::DmrToFm)
    });
    assert(after.fm_to_dmr == after.direction(CallDirection::FmToDmr).totals);
    assert(call_view(after.fm_to_dmr_call) == after.direction(CallDirection::FmToDmr).call);
    if let (StatsEvent::VoiceFrame { transcode, .. }, Some(b)) = (evt, before.fm_to_dmr_call) {
        assert(after.fm_to_dmr_call->0.transcode_us@ == b.transcode_us@.push(micros(transcode)));
        assert(b.transcode_us@.push(micros(transcode)).drop_last() =~= b.transcode_us@);
    }
}

/// Law: of what passes from DMR to FM only that direction's counters tell.  A call
/// begins without counts, and ends one that was left open; each frame and each
/// lost frame of an open call counts once; when a call ends, its counts join
/// the totals.
pub proof fn law_dmr_to_fm_counted(
    before: Stats,
    evt: StatsEvent,
    now: u64,
    min_duration: u64,
    log: Option<CallSummary>,
    after: Stats,
)
    requires
        before.can_count(),
        forall|dir: CallDirection| #[trigger]
            after.direction(dir) == if dir == event_dir(evt) {
                after_event(before.direction(dir), evt, now)
            } else {
                before.direction(dir)
            },
        is_log_of(before.direction(event_dir(evt)), evt, now, min_duration, log),
        match evt {
            StatsEvent::CallStart { dir, .. } => dir is DmrToFm,
            StatsEvent::VoiceFrame { dir, .. } => dir is DmrToFm,
            StatsEvent::Drop { dir } => dir is DmrToFm,
            StatsEvent::CallEnd { dir, .. } => dir is DmrToFm,
        },
    ensures
        after.fm_to_dmr == before.fm_to_dmr,
        match (before.fm_to_dmr_call, after.fm_to_dmr_call) {
            (None, None) => true,
            (Some(b), Some(a)) => {
                &&& a.started_at == b.started_at
                &&& a.src_id == b.src_id
                &&& a.dst_id == b.dst_id
                &&& a.slot == b.slot
                &&& a.frames == b.frames
                &&& a.drops == b.drops
                &&& a.transcode_us@ == b.transcode_us@
            },
            _ => false,
        },
        match (evt, before.dmr_to_fm_call) {
            (StatsEvent::CallStart { .. }, Some(c)) | (StatsEvent::CallEnd { .. }, Some(c)) => {
                &&& after.dmr_to_fm.calls_completed == (before.dmr_to_fm.calls_completed + 1)
                    % 0x1_0000_0000_0000_0000
                &&& after.dmr_to_fm.voice_frames == (before.dmr_to_fm.voice_frames + c.frames)
                    % 0x1_0000_0000_0000_0000
                &&& after.dmr_to_fm.drops == (before.dmr_to_fm.drops + c.drops)
                    % 0x1_0000_0000_0000_0000
            },
            _ => after.dmr_to_fm == before.dmr_to_fm,
        },
        match (evt, before.dmr_to_fm_call) {
            (StatsEvent::CallStart { src_id, dst_id, slot, .. }, _) => {
                &&& after.dmr_to_fm_call matches Some(a)
                &&& a.started_at == now
                &&& a.src_id == src_id
                &&& a.dst_id == dst_id
                &&& a.slot == slot
                &&& a.frames == 0
                &&& a.drops == 0
                &&& a.transcode_us@.len() == 0
            },
            (StatsEvent::CallEnd { .. }, _) => after.dmr_to_fm_call is None,
            (_, None) => after.dmr_to_fm_call is None,
            (StatsEvent::VoiceFrame { transcode, .. }, Some(b)) => {
                &&& after.dmr_to_fm_call matches Some(a)
                &&& a.started_at == b.started_at
                &&& a.src_id == b.src_id
                &&& a.dst_id == b.dst_id
                &&& a.slot == b.slot
                &&& a.frames == b.frames + 1
                &&& a.drops == b.drops
                &&& a.transcode_us@.len() == b.transcode_us@.len() + 1
                &&& a.transcode_us@.drop_last() == b.transcode_us@
                &&& a.transcode_us@.last() == if transcode / 1000 < 0xFFFF_FFFF {
                    (transcode / 1000) as int
                } else {
                    0xFFFF_FFFF
                }
            },
            (StatsEvent::Drop { .. }, Some(b)) => {
                &&& after.dmr_to_fm_call matches Some(a)
                &&& a.started_at == b.started_at
                &&& a.src_id == b.src_id
                &&& a.dst_id == b.dst_id
                &&& a.slot == b.slot
                &&& a.frames == b.frames
                &&& a.drops == b.drops + 1
                &&& a.transcode_us@ == b.transcode_us@
            },
        },
        log is Some <==> evt is CallEnd && (before.dmr_to_fm_call matches Some(c) && (if now
            > c.started_at {
            now - c.started_at
        } else {
            0
        }) >= min_duration),
        log matches Some(s) ==> {
            let c = before.dmr_to_fm_call->0;
            &&& s.dir is DmrToFm
            &&& s.src_id == c.src_id
            &&& s.dst_id == c.dst_id
            &&& s.slot == c.slot
            &&& s.duration == if now > c.started_at {
                now - c.started_at
            } else {
                0
            }
            &&& s.frames == c.frames
            &&& s.drops == c.drops
            &&& is_percentile(c.transcode_us@, 50, s.transcode_p50_us)
            &&& is_percentile(c.transcode_us@, 99, s.transcode_p99_us)
            &&& evt matches StatsEvent::CallEnd { reason, .. } && s.reason == reason
        },
{
    assert(after.direction(CallDirection::FmToDmr) == if CallDirection::FmToDmr == event_dir(evt) {
        after_event(before.direction(CallDirection::FmToDmr), evt, now)
    } else {
        before.direction(CallDirection::FmToDmr)
    });
    assert(after.direction(CallDirection::DmrToFm) == if CallDirection::DmrToFm == event_dir(evt) {
        after_event(before.direction(CallDirection::DmrToFm), evt, now)
    } else {
        before.direction(CallDirection::DmrToFm)
    });
    assert(after.dmr_to_fm == after.direction(CallDirection::DmrToFm).totals);
    assert(call_view(after.dmr_to_fm_call) == after.direction(CallDirection::DmrToFm).call);
    if let (StatsEvent::VoiceFrame { transcode, .. }, Some(b)) = (evt, before.dmr_to_fm_call) {
        assert(after.dmr_to_fm_call->0.transcode_us@ == b.transcode_us@.push(micros(transcode)));
        assert(b.transcode_us@.push(micros(transcode)).drop_last() =~= b.transcode_us@);
    }
}

} // verus!
