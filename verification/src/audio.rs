//! Audio between the DMR voice path and the FM transport.

use vstd::prelude::*;

verus! {

/// Samples of a frame: 20 ms of 8 kHz mono.
pub const VOICE_SAMPLES: usize = 160;

/// A push-to-talk state and, while keyed, 20 ms of audio.
#[derive(Debug, Clone, Copy)]
pub struct AudioFrame {
    pub keyup: bool,
    pub samples: Option<[i16; VOICE_SAMPLES]>,
    /// DMR stream that the frame belongs to, where it came from one.
    pub dmr_stream_id: Option<u32>,
}

} // verus!
