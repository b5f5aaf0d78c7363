//! Sending, receiving and playing USRP voice from files and audio devices.

use std::collections::VecDeque;

use vstd::endian::*;
use vstd::prelude::*;
use vstd::string::*;

use crate::bytes::{sample_bytes, sample_from, sample_of};
use crate::usrp::next_seq;
use crate::usrp_wire::{
    is_packet_of, law_packet_read, law_sample_order, low_byte_first, parses_to, Frame, FrameType,
    UsrpError, VOICE_FRAME_SIZE, VOICE_SAMPLES,
};

verus! {

/// Samples that are buffered before playback begins: two frames.
pub const PREBUFFER_SAMPLES: usize = 320;

/// Samples per second.
pub const SAMPLE_RATE: u32 = 8000;

// ---------------------------------------------------------------------------
// Files
// ---------------------------------------------------------------------------

/// Where received audio goes.
#[derive(Debug, Clone, Copy, PartialEq, Eq, Structural)]
pub enum OutputKind {
    Device,
    Wav,
    File,
    Stdout,
}

/// Why a WAV file cannot be sent.
#[derive(Debug, Clone, Copy, PartialEq, Eq, Structural)]
pub enum WavFormatError {
    SampleRate(u32),
    Channels(u16),
    /// Whether the samples are integers, and how many bits they have.
    Sample { integer: bool, bits: u16 },
}

/// A letter or its capital.
pub open spec fn is_letter(c: char, small: char, capital: char) -> bool {
    c == small || c == capital
}

/// An extension of WAV files, in small or capital letters.
pub open spec fn is_wav(ext: Seq<char>) -> bool {
    &&& ext.len() == 3
    &&& is_letter(ext[0], 'w', 'W')
    &&& is_letter(ext[1], 'a', 'A')
    &&& is_letter(ext[2], 'v', 'V')
}

/// Whether a file's extension is that of WAV files.
pub fn has_wav_extension(ext: Option<&str>) -> (r: bool)
    ensures
        r == (ext matches Some(e) && is_wav(e@)),
{
    match ext {
        Some(e) => {
            if e.unicode_len() != 3 {
                return false;
            }
            let a: char = e.get_char(0);
            let b: char = e.get_char(1);
            let c: char = e.get_char(2);
            (a == 'w' || a == 'W') && (b == 'a' || b == 'A') && (c == 'v' || c == 'V')
        },
        None => false,
    }
}

/// Whether a path stands for the standard output.
pub fn is_stdout_path(path: &str) -> (r: bool)
    ensures
        r == (path@ == seq!['-']),
{
    let r = path.unicode_len() == 1 && path.get_char(0) == '-';
    proof {
        if r {
            assert(path@ =~= seq!['-']);
        }
    }
    r
}

/// Picks where received audio goes: to the device if one is named, to a WAV
/// file or another file by the path, and to the standard output without a path.
pub fn pick_output(device: bool, path: Option<&str>, ext: Option<&str>) -> (r: OutputKind)
    ensures
        r == if device {
            OutputKind::Device
        } else if path is None || path->0@ == seq!['-'] {
            OutputKind::Stdout
        } else if ext matches Some(e) && is_wav(e@) {
            OutputKind::Wav
        } else {
            OutputKind::File
        },
{
    if device {
        return OutputKind::Device;
    }
    match path {
        None => OutputKind::Stdout,
        Some(p) => if is_stdout_path(p) {
            OutputKind::Stdout
        } else if has_wav_extension(ext) {
            OutputKind::Wav
        } else {
            OutputKind::File
        },
    }
}

/// Checks that a WAV file holds 8 kHz mono audio of 16-bit integers.
pub fn check_wav_format(sample_rate: u32, channels: u16, integer: bool, bits: u16) -> (r: Result<
    (),
    WavFormatError,
>)
    ensures
        r == if sample_rate != SAMPLE_RATE {
            Err::<(), WavFormatError>(WavFormatError::SampleRate(sample_rate))
        } else if channels != 1 {
            Err::<(), WavFormatError>(WavFormatError::Channels(channels))
        } else if !integer || bits != 16 {
            Err::<(), WavFormatError>(WavFormatError::Sample { integer, bits })
        } else {
            Ok::<(), WavFormatError>(())
        },
{
    if sample_rate != SAMPLE_RATE {
        return Err(WavFormatError::SampleRate(sample_rate));
    }
    if channels != 1 {
        return Err(WavFormatError::Channels(channels));
    }
    if !integer || bits != 16 {
        return Err(WavFormatError::Sample { integer, bits });
    }
    Ok(())
}

/// Samples filled up with silence to a frame.
pub open spec fn filled_up(samples: Seq<i16>) -> Seq<i16> {
    Seq::new(
        VOICE_SAMPLES as nat,
        |i: int|
            if i < samples.len() {
                samples[i]
            } else {
                0i16
            },
    )
}

/// The next frame of a WAV file, of which the next samples are given; silence
/// fills up the last one.  None at the end.
pub fn wav_frame(samples: &[i16]) -> (r: Option<[i16; VOICE_SAMPLES]>)
    ensures
        match r {
            None => samples@.len() == 0,
            Some(frame) => samples@.len() > 0 && frame@ == filled_up(samples@),
        },
{
    if samples.len() == 0 {
        return None;
    }
    let mut frame: [i16; VOICE_SAMPLES] = [0i16; VOICE_SAMPLES];
    let mut i: usize = 0;
    while i < VOICE_SAMPLES && i < samples.len()
        invariant
            i <= VOICE_SAMPLES,
            i <= samples@.len(),
            forall|k: int| 0 <= k < i ==> frame@[k] == samples@[k],
            forall|k: int| i <= k < 160 ==> frame@[k] == 0i16,
        decreases VOICE_SAMPLES - i,
    {
        frame[i] = samples[i];
        i += 1;
    }
    assert(frame@ =~= filled_up(samples@));
    Some(frame)
}

/// `w` opens with the samples of a frame, low byte first.
pub open spec fn is_raw_frame(w: Seq<u8>, frame: Seq<i16>) -> bool {
    &&& frame.len() == 160
    &&& w.len() >= VOICE_FRAME_SIZE
    &&& forall|i: int| 0 <= i < 160 ==> #[trigger] frame[i] == sample_of(w[2 * i], w[2 * i + 1])
}

/// The next frame of raw audio, of which the next bytes are given.  None where
/// they do not make up a frame.
pub fn raw_frame(bytes: &[u8]) -> (r: Option<[i16; VOICE_SAMPLES]>)
    ensures
        match r {
            None => bytes@.len() < VOICE_FRAME_SIZE,
            Some(frame) => is_raw_frame(bytes@, frame@),
        },
{
    if bytes.len() < VOICE_FRAME_SIZE {
        return None;
    }
    let mut frame: [i16; VOICE_SAMPLES] = [0i16; VOICE_SAMPLES];
    let mut i: usize = 0;
    while i < VOICE_SAMPLES
        invariant
            i <= VOICE_SAMPLES,
            bytes@.len() >= VOICE_FRAME_SIZE,
            forall|k: int|
                0 <= k < i ==> #[trigger] frame@[k] == sample_of(bytes@[2 * k], bytes@[2 * k + 1]),
        decreases VOICE_SAMPLES - i,
    {
        frame[i] = sample_from(bytes[2 * i], bytes[2 * i + 1]);
        i += 1;
    }
    Some(frame)
}

/// A frame as raw audio.
pub fn raw_bytes(samples: &[i16; VOICE_SAMPLES]) -> (w: [u8; VOICE_FRAME_SIZE])
    ensures
        is_raw_frame(w@, samples@),
{
    let mut w: [u8; VOICE_FRAME_SIZE] = [0u8; VOICE_FRAME_SIZE];
    let mut i: usize = 0;
    while i < VOICE_SAMPLES
        invariant
            i <= VOICE_SAMPLES,
            forall|k: int|
                0 <= k < i ==> #[trigger] samples@[k] == sample_of(w@[2 * k], w@[2 * k + 1]),
        decreases VOICE_SAMPLES - i,
    {
        let ghost before = w@;
        let (lo, hi) = sample_bytes(samples[i]);
        w[2 * i] = lo;
        w[2 * i + 1] = hi;
        assert forall|k: int| 0 <= k < i + 1 implies #[trigger] samples@[k] == sample_of(
            w@[2 * k],
            w@[2 * k + 1],
        ) by {
            if k < i {
                assert(w@[2 * k] == before[2 * k] && w@[2 * k + 1] == before[2 * k + 1]);
            }
        }
        i += 1;
    }
    w
}

/// Law: raw audio reads back as the frame it was written from.
pub proof fn law_raw_round_trip(w: Seq<u8>, written: Seq<i16>, read: Seq<i16>)
    requires
        is_raw_frame(w, written),
        is_raw_frame(w, read),
    ensures
        read == written,
{
    assert forall|i: int| 0 <= i < 160 implies read[i] == written[i] by {}
    assert(read =~= written);
}

// ---------------------------------------------------------------------------
// Sending
// ---------------------------------------------------------------------------

/// The packets of a transmission.
#[derive(Debug, Clone, Copy, PartialEq, Eq, Structural)]
pub struct VoiceSender {
    /// Number of the next packet.
    pub seq: u32,
    pub talkgroup: u32,
    /// Voice frames so far.
    pub frames_sent: u64,
}

impl VoiceSender {
    pub fn new(talkgroup: u32) -> (r: Self)
        ensures
            r == (VoiceSender { seq: 0, talkgroup, frames_sent: 0 }),
    {
        VoiceSender { seq: 0, talkgroup, frames_sent: 0 }
    }

    /// The packet of a voice frame.
    pub fn voice(&mut self, audio: [i16; VOICE_SAMPLES]) -> (w: Vec<u8>)
        requires
            old(self).frames_sent < u64::MAX,
        ensures
            *final(self) == (VoiceSender {
                seq: next_seq(old(self).seq),
                talkgroup: old(self).talkgroup,
                frames_sent: (old(self).frames_sent + 1) as u64,
            }),
            is_packet_of(
                Frame {
                    seq: old(self).seq,
                    keyup: true,
                    talkgroup: old(self).talkgroup,
                    frame_type: FrameType::Voice,
                    audio: Some(audio),
                    text: None,
                },
                low_byte_first(false),
                w@,
            ),
    {
        let frame = Frame {
            seq: self.seq,
            keyup: true,
            talkgroup: self.talkgroup,
            frame_type: FrameType::Voice,
            audio: Some(audio),
            text: None,
        };
        self.seq = self.seq.wrapping_add(1);
        self.frames_sent = self.frames_sent + 1;
        frame.serialize(false)
    }

    /// The packet that ends the transmission.
    pub fn unkey(&self) -> (w: Vec<u8>)
        ensures
            is_packet_of(
                Frame {
                    seq: self.seq,
                    keyup: false,
                    talkgroup: self.talkgroup,
                    frame_type: FrameType::Voice,
                    audio: None,
                    text: None,
                },
                low_byte_first(false),
                w@,
            ),
    {
        let frame = Frame {
            seq: self.seq,
            keyup: false,
            talkgroup: self.talkgroup,
            frame_type: FrameType::Voice,
            audio: None,
            text: None,
        };
        frame.serialize(false)
    }

    /// Whether progress is reported: for the first frames, and then for one
    /// frame a second.
    pub fn reports(&self) -> (r: bool)
        ensures
            r == (self.frames_sent <= 3 || self.frames_sent % 50 == 0),
    {
        self.frames_sent <= 3 || self.frames_sent % 50 == 0
    }
}

// ---------------------------------------------------------------------------
// Receiving
// ---------------------------------------------------------------------------

/// What is done with a packet.
#[derive(Debug, Clone, Copy)]
pub enum RecvStep {
    /// Nothing.
    Ignore,
    /// The transmission ended after this many voice frames.
    Unkey(u64),
    /// Write or play these samples.
    Samples([i16; VOICE_SAMPLES]),
}

/// The frames of a transmission.
#[derive(Debug, Clone, Copy, PartialEq, Eq, Structural)]
pub struct VoiceReceiver {
    pub voice_frames: u64,
}

/// `r` and `next` are what is done with a packet that reads as `parsed`.
pub open spec fn is_recv_step(
    state: VoiceReceiver,
    parsed: Result<Frame, UsrpError>,
    r: RecvStep,
    next: VoiceReceiver,
) -> bool {
    match parsed {
        Err(_) => r is Ignore && next == state,
        Ok(f) => if f.frame_type !is Voice {
            r is Ignore && next == state
        } else if !f.keyup {
            r == RecvStep::Unkey(state.voice_frames) && next.voice_frames == 0
        } else {
            match f.audio {
                None => r is Ignore && next == state,
                Some(samples) => r == RecvStep::Samples(samples) && next.voice_frames
                    == state.voice_frames + 1,
            }
        },
    }
}

impl VoiceReceiver {
    pub fn new() -> (r: Self)
        ensures
            r.voice_frames == 0,
    {
        VoiceReceiver { voice_frames: 0 }
    }

    /// Decides on a packet.
    pub fn on_packet(&mut self, data: &[u8]) -> (r: RecvStep)
        requires
            old(self).voice_frames < u64::MAX,
        ensures
            exists|parsed: Result<Frame, UsrpError>| #[trigger]
                parses_to(data@, low_byte_first(false), parsed) && is_recv_step(
                    *old(self),
                    parsed,
                    r,
                    *final(self),
                ),
    {
        let parsed = Frame::parse(data, false);
        assert(parses_to(data@, low_byte_first(false), parsed));
        match parsed {
            Err(_) => RecvStep::Ignore,
            Ok(frame) => {
                if frame.frame_type != FrameType::Voice {
                    return RecvStep::Ignore;
                }
                if !frame.keyup {
                    let n: u64 = self.voice_frames;
                    self.voice_frames = 0;
                    return RecvStep::Unkey(n);
                }
                match frame.audio {
                    None => RecvStep::Ignore,
                    Some(samples) => {
                        self.voice_frames = self.voice_frames + 1;
                        RecvStep::Samples(samples)
                    },
                }
            },
        }
    }
}

/// Samples that wait to be played.
#[derive(Debug)]
pub struct Playback {
    pub buffer: VecDeque<i16>,
    /// Whether playback has begun.
    pub armed: bool,
}

/// The next `n` samples that are played: silence while playback has not begun
/// and where none wait.
pub open spec fn played(buffer: Seq<i16>, armed: bool, n: int) -> Seq<i16> {
    Seq::new(
        n as nat,
        |i: int|
            if armed && i < buffer.len() {
                buffer[i]
            } else {
                0i16
            },
    )
}

/// The samples that wait after `n` were played.
pub open spec fn waiting(buffer: Seq<i16>, armed: bool, n: int) -> Seq<i16> {
    if !armed {
        buffer
    } else if n >= buffer.len() {
        seq![]
    } else {
        buffer.subrange(n, buffer.len() as int)
    }
}

impl Playback {
    pub fn new() -> (r: Self)
        ensures
            r.buffer@ == Seq::<i16>::empty(),
            !r.armed,
    {
        Playback { buffer: VecDeque::new(), armed: false }
    }

    /// Adds samples.  Playback begins once enough of them wait.
    pub fn push(&mut self, samples: &[i16; VOICE_SAMPLES])
        ensures
            final(self).buffer@ == old(self).buffer@ + samples@,
            final(self).armed == (old(self).armed || final(self).buffer@.len()
                >= PREBUFFER_SAMPLES),
    {
        let ghost before = self.buffer@;
        let mut i: usize = 0;
        assert(before + samples@.subrange(0, 0) =~= before);
        while i < VOICE_SAMPLES
            invariant
                i <= VOICE_SAMPLES,
                self.buffer@ == before + samples@.subrange(0, i as int),
                self.armed == old(self).armed,
            decreases VOICE_SAMPLES - i,
        {
            self.buffer.push_back(samples[i]);
            i += 1;
            assert(self.buffer@ =~= before + samples@.subrange(0, i as int));
        }
        assert(samples@.subrange(0, 160) =~= samples@);
        if !self.armed && self.buffer.len() >= PREBUFFER_SAMPLES {
            self.armed = true;
        }
    }

    /// Forgets the samples that wait; playback has to begin anew.
    pub fn stop(&mut self)
        ensures
            final(self).buffer@ == Seq::<i16>::empty(),
            !final(self).armed,
    {
        self.buffer.clear();
        self.armed = false;
    }

    /// Takes the next samples.
    pub fn pull(&mut self, n: usize) -> (r: Vec<i16>)
        ensures
            r@ == played(old(self).buffer@, old(self).armed, n as int),
            final(self).buffer@ == waiting(old(self).buffer@, old(self).armed, n as int),
            final(self).armed == old(self).armed,
    {
        let ghost start = self.buffer@;
        let mut out: Vec<i16> = Vec::new();
        let mut i: usize = 0;
        assert(start.subrange(0, start.len() as int) =~= start);
        assert(waiting(start, self.armed, 0) =~= start);
        while i < n
            invariant
                i <= n,
                self.armed == old(self).armed,
                out@ == played(start, self.armed, i as int),
                self.buffer@ == waiting(start, self.armed, i as int),
            decreases n - i,
        {
            let ghost rest = self.buffer@;
            let sample: i16 = if self.armed {
                match self.buffer.pop_front() {
                    Some(s) => s,
                    None => 0,
                }
            } else {
                0
            };
            out.push(sample);
            i += 1;
            assert(out@ =~= played(start, self.armed, i as int));
            assert(self.buffer@ =~= waiting(start, self.armed, i as int));
        }
        out
    }
}

/// Law: once playback has begun, samples are played in the order in which they
/// came, each of them once.
pub proof fn law_played_in_order(buffer: Seq<i16>, n: int)
    requires
        0 <= n <= buffer.len(),
    ensures
        played(buffer, true, n) + waiting(buffer, true, n) == buffer,
{
    assert(played(buffer, true, n) + waiting(buffer, true, n) =~= buffer);
}

/// Law: only the three letters of the extension count, in either case.
pub proof fn law_wav_extension(ext: Seq<char>)
    ensures
        is_wav(ext) <==> ext.len() == 3 && (ext[0] as int == 0x77 || ext[0] as int == 0x57) && (ext[1] as int
            == 0x61 || ext[1] as int == 0x41) && (ext[2] as int == 0x76 || ext[2] as int == 0x56),
{
}

/// Law: a frame has 160 samples.  Those that are there come first, unchanged,
/// and the rest is silence.
pub proof fn law_frame_filled(samples: Seq<i16>, i: int)
    requires
        0 <= i < 160,
    ensures
        filled_up(samples).len() == 160,
        i < samples.len() ==> filled_up(samples)[i] == samples[i],
        i >= samples.len() ==> filled_up(samples)[i] == 0,
        SAMPLE_RATE == 8000,
{
}

/// Law: raw audio has two bytes a sample, the low byte first.
pub proof fn law_raw_bytes(w: Seq<u8>, frame: Seq<i16>, i: int)
    requires
        is_raw_frame(w, frame),
        0 <= i < 160,
    ensures
        w.len() >= 320,
        w[2 * i] == frame[i] % 256,
        w[2 * i + 1] == (if frame[i] < 0 {
            frame[i] + 65536
        } else {
            frame[i] as int
        }) / 256,
{
    assert(frame[i] == sample_of(w[2 * i], w[2 * i + 1]));
}

/// Law: of the packets received, those of 352 bytes that carry voice with the
/// key down are played and counted; one that carries voice with the key up ends
/// the transmission and tells the count, which begins anew.  No other does
/// anything.
pub proof fn law_received(
    state: VoiceReceiver,
    w: Seq<u8>,
    parsed: Result<Frame, UsrpError>,
    r: RecvStep,
    next: VoiceReceiver,
)
    requires
        state.voice_frames < u64::MAX,
        parses_to(w, low_byte_first(false), parsed),
        is_recv_step(state, parsed, r, next),
    ensures
        ({
            let voice = (w.len() == 32 || w.len() == 352) && w[0] == 0x55 && w[1] == 0x53 && w[2] == 0x52
                && w[3] == 0x50 && w[20] == 0 && w[21] == 0 && w[22] == 0 && w[23] == 0;
            let up = w[12] == 0 && w[13] == 0 && w[14] == 0 && w[15] == 0;
            &&& r is Unkey <==> voice && up
            &&& r is Samples <==> voice && !up && w.len() == 352
            &&& r is Unkey ==> next.voice_frames == 0
            &&& r is Samples ==> next.voice_frames == state.voice_frames + 1
            &&& r is Ignore ==> next.voice_frames == state.voice_frames
            &&& r matches RecvStep::Unkey(n) ==> n == state.voice_frames
            &&& r matches RecvStep::Samples(a) ==> forall|i: int|
                0 <= i < 160 ==> {
                    let (lo, hi) = if endianness() is Little {
                        (w[32 + 2 * i], w[33 + 2 * i])
                    } else {
                        (w[33 + 2 * i], w[32 + 2 * i])
                    };
                    #[trigger] a@[i] == lo + 256 * hi - (if hi >= 128 {
                        65536int
                    } else {
                        0
                    })
                }
        }),
{
    law_packet_read(w, low_byte_first(false), parsed);
    law_sample_order();
}

/// Law: while playback has not begun, silence is played and the samples wait.
/// Once it has, they are played from the first, and silence where they run out.
/// Playback begins at 320 samples.
pub proof fn law_played(buffer: Seq<i16>, armed: bool, n: int, i: int)
    requires
        0 <= n,
        0 <= i,
    ensures
        PREBUFFER_SAMPLES == 320,
        played(buffer, armed, n).len() == n,
        i < n ==> played(buffer, armed, n)[i] == if armed && i < buffer.len() {
            buffer[i] as int
        } else {
            0
        },
        !armed ==> waiting(buffer, armed, n) == buffer,
        armed && n <= buffer.len() ==> waiting(buffer, armed, n).len() == buffer.len() - n,
        armed && n >= buffer.len() ==> waiting(buffer, armed, n).len() == 0,
        armed && n + i < buffer.len() ==> waiting(buffer, armed, n)[i] == buffer[n + i],
{
}

} // verus!
