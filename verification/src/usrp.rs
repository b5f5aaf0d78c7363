//! The bridge's end of the USRP transport: which packets are taken, when voice
//! is sent, and what is done at the boundaries of a call.  Times are in
//! nanoseconds.

use vstd::prelude::*;
use vstd::utf8::*;

use crate::audio::AudioFrame;
use crate::events::{event_text, MetaEvent};
use crate::usrp_wire::{
    is_header, is_packet_of, law_packet_read, low_byte_first, parses_to, Frame, FrameType, UsrpError,
    VOICE_FRAME_INTERVAL, VOICE_SAMPLES,
};

verus! {

/// What automatic gain control does with a frame.
#[derive(Debug, Clone, Copy, PartialEq, Eq, Structural)]
pub enum AgcStep {
    /// Nothing.
    Skip,
    /// Level its samples.
    Process,
    /// Report on the call and start anew.
    Finish,
}

// ---------------------------------------------------------------------------
// Receiving
// ---------------------------------------------------------------------------

/// What is done with a packet.
#[derive(Debug, Clone, Copy)]
pub enum RxStep {
    /// Dropped: it is not from the peer.
    Foreign,
    /// Dropped: it is no packet.
    Malformed(UsrpError),
    /// Dropped: it is not voice.
    NotVoice,
    /// Handed on.
    Audio(AudioFrame, AgcStep),
}

/// The receiving end.
#[derive(Debug, Clone, Copy, PartialEq, Eq, Structural)]
pub struct UsrpRx {
    /// Whether the audio is levelled.
    pub agc: bool,
    /// Whether the call has had voice.
    pub had_voice: bool,
}

/// What gain control does with a received frame.
pub open spec fn rx_agc(state: UsrpRx, f: Frame) -> AgcStep {
    if !state.agc {
        AgcStep::Skip
    } else if f.keyup {
        if f.audio is Some {
            AgcStep::Process
        } else {
            AgcStep::Skip
        }
    } else if state.had_voice {
        AgcStep::Finish
    } else {
        AgcStep::Skip
    }
}

/// `r` and `next` are what the receiving end does with a packet that reads as
/// `parsed`.
pub open spec fn is_rx_step(
    state: UsrpRx,
    from_peer: bool,
    parsed: Result<Frame, UsrpError>,
    r: RxStep,
    next: UsrpRx,
) -> bool {
    &&& next.agc == state.agc
    &&& if !from_peer {
        r is Foreign && next == state
    } else {
        match parsed {
            Err(e) => r == RxStep::Malformed(e) && next == state,
            Ok(f) => if f.frame_type !is Voice {
                r is NotVoice && next == state
            } else {
                &&& r == RxStep::Audio(
                    AudioFrame { keyup: f.keyup, samples: f.audio, dmr_stream_id: None },
                    rx_agc(state, f),
                )
                &&& next.had_voice == match rx_agc(state, f) {
                    AgcStep::Process => true,
                    AgcStep::Finish => false,
                    AgcStep::Skip => state.had_voice,
                }
            },
        }
    }
}

impl UsrpRx {
    pub fn new(agc: bool) -> (r: Self)
        ensures
            r == (UsrpRx { agc, had_voice: false }),
    {
        UsrpRx { agc, had_voice: false }
    }

    /// Decides on a packet.  Only packets of the peer are taken.
    pub fn on_packet(&mut self, from_peer: bool, data: &[u8], byte_swap: bool) -> (r: RxStep)
        ensures
            exists|parsed: Result<Frame, UsrpError>| #[trigger]
                parses_to(data@, low_byte_first(byte_swap), parsed) && is_rx_step(
                    *old(self),
                    from_peer,
                    parsed,
                    r,
                    *final(self),
                ),
    {
        let parsed = Frame::parse(data, byte_swap);
        assert(parses_to(data@, low_byte_first(byte_swap), parsed));
        if !from_peer {
            return RxStep::Foreign;
        }
        match parsed {
            Err(e) => RxStep::Malformed(e),
            Ok(frame) => {
                if frame.frame_type != FrameType::Voice {
                    return RxStep::NotVoice;
                }
                let mut step = AgcStep::Skip;
                if self.agc {
                    if frame.keyup {
                        if frame.audio.is_some() {
                            step = AgcStep::Process;
                            self.had_voice = true;
                        }
                    } else if self.had_voice {
                        step = AgcStep::Finish;
                        self.had_voice = false;
                    }
                }
                let audio = AudioFrame {
                    keyup: frame.keyup,
                    samples: frame.audio,
                    dmr_stream_id: None,
                };
                RxStep::Audio(audio, step)
            },
        }
    }

    /// Ends the call.  Whether gain control has to report on it.
    pub fn finish(&mut self) -> (r: bool)
        ensures
            r == old(self).had_voice,
            *final(self) == (UsrpRx { had_voice: false, ..*old(self) }),
    {
        let r = self.had_voice;
        self.had_voice = false;
        r
    }
}

/// Law: audio of anyone but the peer never gets through.
pub proof fn law_only_the_peer(
    state: UsrpRx,
    parsed: Result<Frame, UsrpError>,
    r: RxStep,
    next: UsrpRx,
)
    requires
        is_rx_step(state, false, parsed, r, next),
    ensures
        r !is Audio,
        next == state,
{
}

// ---------------------------------------------------------------------------
// Sending
// ---------------------------------------------------------------------------

/// What the record of a call does with a frame.
#[derive(Debug, Clone, Copy, PartialEq, Eq, Structural)]
pub enum CallStep {
    /// Nothing.
    Skip,
    /// Begin the record of this stream, with the frame.
    Open(u32),
    /// Add the frame.
    Record,
    /// Report on this stream and end its record.
    Close(u32),
}

/// The sending end.
#[derive(Debug, Clone, Copy, PartialEq, Eq, Structural)]
pub struct UsrpTx {
    /// Number of the next packet.
    pub seq: u32,
    pub talkgroup: u32,
    /// When the next voice frame is due; none if it need not wait.
    pub next_voice_send: Option<u64>,
    /// Whether the call has had voice.
    pub had_voice: bool,
    /// Stream of the call.
    pub stream_id: Option<u32>,
}

/// A frame carries voice.
pub open spec fn is_voice(audio: AudioFrame) -> bool {
    audio.keyup && audio.samples is Some
}

/// When a voice frame that comes at `now` is sent.
pub open spec fn send_time(due: Option<u64>, now: u64) -> u64 {
    match due {
        Some(t) => if now < t {
            t
        } else {
            now
        },
        None => now,
    }
}

/// The number of the packet after `seq`.
pub open spec fn next_seq(seq: u32) -> u32 {
    if seq == u32::MAX {
        0
    } else {
        (seq + 1) as u32
    }
}

/// A stream for the log.
pub open spec fn stream_or_zero(stream_id: Option<u32>) -> u32 {
    match stream_id {
        Some(id) => id,
        None => 0,
    }
}

impl UsrpTx {
    pub fn new(talkgroup: u32) -> (r: Self)
        ensures
            r == (UsrpTx {
                seq: 0,
                talkgroup,
                next_voice_send: None,
                had_voice: false,
                stream_id: None,
            }),
    {
        UsrpTx { seq: 0, talkgroup, next_voice_send: None, had_voice: false, stream_id: None }
    }

    /// Until when to wait before a frame is sent, if at all.  Voice is sent one
    /// interval after the last voice frame was due, or, if that is past, now.
    /// Other frames are sent at once, and so is the voice frame after them.
    pub fn pace(&mut self, audio: &AudioFrame, now: u64) -> (r: Option<u64>)
        requires
            now <= u64::MAX - VOICE_FRAME_INTERVAL,
            old(self).next_voice_send matches Some(t) ==> t <= u64::MAX - VOICE_FRAME_INTERVAL,
        ensures
            *final(self) == (UsrpTx {
                next_voice_send: if is_voice(*audio) {
                    Some(
                        (send_time(old(self).next_voice_send, now) + VOICE_FRAME_INTERVAL) as u64,
                    )
                } else {
                    None
                },
                ..*old(self)
            }),
            r == if is_voice(*audio) && send_time(old(self).next_voice_send, now) > now {
                Some(send_time(old(self).next_voice_send, now))
            } else {
                None
            },
    {
        if !(audio.keyup && audio.samples.is_some()) {
            self.next_voice_send = None;
            return None;
        }
        match self.next_voice_send {
            Some(due) if now < due => {
                self.next_voice_send = Some(due + VOICE_FRAME_INTERVAL);
                Some(due)
            },
            _ => {
                self.next_voice_send = Some(now + VOICE_FRAME_INTERVAL);
                None
            },
        }
    }

    /// What gain control does with a frame.
    pub fn agc_step(&self, audio: &AudioFrame) -> (r: AgcStep)
        ensures
            r == if !audio.keyup {
                AgcStep::Finish
            } else if audio.samples is Some {
                AgcStep::Process
            } else {
                AgcStep::Skip
            },
    {
        if !audio.keyup {
            AgcStep::Finish
        } else if audio.samples.is_some() {
            AgcStep::Process
        } else {
            AgcStep::Skip
        }
    }

    /// What the record of the call does with a frame.
    pub fn call_step(&mut self, audio: &AudioFrame) -> (r: CallStep)
        ensures
            ({
                let s = *old(self);
                if is_voice(*audio) {
                    if s.had_voice {
                        r is Record && *final(self) == s
                    } else {
                        &&& r == CallStep::Open(stream_or_zero(audio.dmr_stream_id))
                        &&& *final(self) == (UsrpTx {
                            had_voice: true,
                            stream_id: audio.dmr_stream_id,
                            ..s
                        })
                    }
                } else if !audio.keyup && s.had_voice {
                    &&& r == CallStep::Close(stream_or_zero(s.stream_id))
                    &&& *final(self) == (UsrpTx { had_voice: false, stream_id: None, ..s })
                } else {
                    r is Skip && *final(self) == s
                }
            }),
    {
        if audio.keyup {
            if audio.samples.is_some() {
                if self.had_voice {
                    return CallStep::Record;
                }
                self.had_voice = true;
                self.stream_id = audio.dmr_stream_id;
                return match audio.dmr_stream_id {
                    Some(id) => CallStep::Open(id),
                    None => CallStep::Open(0),
                };
            }
            return CallStep::Skip;
        }
        match self.finish() {
            Some(id) => CallStep::Close(id),
            None => CallStep::Skip,
        }
    }

    /// Ends the call.  The stream to report on, if the call has had voice.
    pub fn finish(&mut self) -> (r: Option<u32>)
        ensures
            ({
                let s = *old(self);
                if s.had_voice {
                    &&& r == Some(stream_or_zero(s.stream_id))
                    &&& *final(self) == (UsrpTx { had_voice: false, stream_id: None, ..s })
                } else {
                    r is None && *final(self) == s
                }
            }),
    {
        if !self.had_voice {
            return None;
        }
        let id: u32 = match self.stream_id {
            Some(id) => id,
            None => 0,
        };
        self.had_voice = false;
        self.stream_id = None;
        Some(id)
    }

    /// The packet of a frame, whose samples may have been levelled.
    pub fn packet(
        &mut self,
        keyup: bool,
        samples: Option<[i16; VOICE_SAMPLES]>,
        byte_swap: bool,
    ) -> (w: Vec<u8>)
        ensures
            *final(self) == (UsrpTx { seq: next_seq(old(self).seq), ..*old(self) }),
            is_packet_of(
                Frame {
                    seq: old(self).seq,
                    keyup,
                    talkgroup: old(self).talkgroup,
                    frame_type: FrameType::Voice,
                    audio: samples,
                    text: None,
                },
                low_byte_first(byte_swap),
                w@,
            ),
    {
        let frame = Frame {
            seq: self.seq,
            keyup,
            talkgroup: self.talkgroup,
            frame_type: FrameType::Voice,
            audio: samples,
            text: None,
        };
        self.seq = self.seq.wrapping_add(1);
        frame.serialize(byte_swap)
    }

    /// The text packet of an event.
    pub fn text_packet(&mut self, event: &MetaEvent) -> (w: Vec<u8>)
        ensures
            *final(self) == (UsrpTx { seq: next_seq(old(self).seq), ..*old(self) }),
            is_header(w@, old(self).seq, false, 0, FrameType::Text),
            w@.subrange(32, w@.len() as int) == encode_utf8(event_text(*event)).push(0u8),
    {
        let text = event.text();
        let w = Frame::serialize_text(self.seq, text.as_str());
        self.seq = self.seq.wrapping_add(1);
        w
    }
}

/// Law: voice frames are sent at least one interval apart, however early they
/// come, and a late frame does not make the next one come sooner.
pub proof fn law_pacing(due: Option<u64>, first: u64, second: u64)
    requires
        send_time(due, first) <= u64::MAX - VOICE_FRAME_INTERVAL,
    ensures
        ({
            let sent = send_time(due, first);
            let next_due = (sent + VOICE_FRAME_INTERVAL) as u64;
            &&& sent >= first
            &&& send_time(Some(next_due), second) >= sent + VOICE_FRAME_INTERVAL
            &&& send_time(Some(next_due), second) == sent + VOICE_FRAME_INTERVAL || send_time(
                Some(next_due),
                second,
            ) == second
        }),
{
}

/// Law: what the peer sends is handed on as it is: a voice packet gives a frame that
/// is keyed exactly if its keyup field is not zero, with the samples that it
/// carries, if any, and of no DMR stream.  Nothing else gives audio.
pub proof fn law_peer_audio(
    state: UsrpRx,
    w: Seq<u8>,
    low_first: bool,
    parsed: Result<Frame, UsrpError>,
    r: RxStep,
    next: UsrpRx,
)
    requires
        parses_to(w, low_first, parsed),
        is_rx_step(state, true, parsed, r, next),
    ensures
        r is Audio <==> (w.len() == 32 || w.len() == 352) && w[0] == 0x55 && w[1] == 0x53 && w[2] == 0x52
            && w[3] == 0x50 && w[20] == 0 && w[21] == 0 && w[22] == 0 && w[23] == 0,
        r matches RxStep::Audio(a, _) ==> {
            &&& a.keyup <==> !(w[12] == 0 && w[13] == 0 && w[14] == 0 && w[15] == 0)
            &&& a.dmr_stream_id is None
            &&& a.samples is Some <==> w.len() == 352
            &&& a.samples matches Some(s) ==> forall|i: int|
                0 <= i < 160 ==> {
                    let (lo, hi) = if low_first {
                        (w[32 + 2 * i], w[33 + 2 * i])
                    } else {
                        (w[33 + 2 * i], w[32 + 2 * i])
                    };
                    #[trigger] s@[i] == lo + 256 * hi - (if hi >= 128 {
                        65536int
                    } else {
                        0
                    })
                }
        },
        r is NotVoice <==> w.len() >= 32 && w[0] == 0x55 && w[1] == 0x53 && w[2] == 0x52 && w[3] == 0x50
            && w[20] == 0 && w[21] == 0 && w[22] == 0 && (w[23] == 1 || w[23] == 2),
        r !is Foreign,
{
    law_packet_read(w, low_first, parsed);
}

/// Law: gain control levels keyed audio of a call and reports once when the key is
/// let go after some; switched off, it does nothing.
pub proof fn law_received_levelled(
    state: UsrpRx,
    w: Seq<u8>,
    low_first: bool,
    parsed: Result<Frame, UsrpError>,
    r: RxStep,
    next: UsrpRx,
)
    requires
        parses_to(w, low_first, parsed),
        is_rx_step(state, true, parsed, r, next),
    ensures
        next.agc == state.agc,
        r matches RxStep::Audio(a, step) ==> {
            &&& step is Process <==> state.agc && a.keyup && a.samples is Some
            &&& step is Finish <==> state.agc && !a.keyup && state.had_voice
            &&& next.had_voice == (if step is Process {
                true
            } else if step is Finish {
                false
            } else {
                state.had_voice
            })
        },
        r !is Audio ==> next == state,
{
}

/// Law: voice is sent every 20 milliseconds: a frame that comes before it is due
/// waits until then, a later one goes at once, and the next is due 20 milliseconds
/// after this one goes.  Packets are numbered on modulo 2^32.
pub proof fn law_voice_paced(due: Option<u64>, now: u64, seq: u32)
    ensures
        send_time(due, now) >= now,
        due is None ==> send_time(due, now) == now,
        due matches Some(t) ==> send_time(due, now) >= t && (send_time(due, now) == t || send_time(
            due,
            now,
        ) == now),
        VOICE_FRAME_INTERVAL == 20_000_000,
        next_seq(seq) == (seq + 1) % 0x1_0000_0000,
{
}

/// Law: a frame carries voice if it is keyed and holds samples.
pub proof fn law_carries_voice(audio: AudioFrame, id: u32)
    ensures
        is_voice(audio) <==> audio.keyup && audio.samples is Some,
        stream_or_zero(Some(id)) == id,
        stream_or_zero(None) == 0,
{
}

} // verus!
