//! WAV files of recorded calls: 8 kHz, mono, 16 bits.
//!
//! A recording starts with a header whose sizes are zero; they are filled in
//! when the recording ends.

use vstd::prelude::*;

use crate::bytes::{sample_bytes, sample_of, u32_to_be};

verus! {

/// Bytes of the header.
pub const WAV_HEADER_SIZE: usize = 44;

/// Samples per second.
pub const SAMPLE_RATE: u32 = 8000;

/// Most samples that a recording can hold: the size field counts 36 bytes of
/// header and two bytes per sample.
pub const MAX_SAMPLES: u32 = 0x7FFF_FFED;

/// Where the RIFF size stands in the file.
pub const RIFF_SIZE_AT: u64 = 4;

/// Where the data size stands in the file.
pub const DATA_SIZE_AT: u64 = 40;

/// The number that four little-endian bytes spell.
pub open spec fn le32(b0: u8, b1: u8, b2: u8, b3: u8) -> int {
    b0 + b1 * 0x100 + b2 * 0x1_0000 + b3 * 0x100_0000
}

/// `x` as four bytes, least significant first.
pub fn u32_to_le(x: u32) -> (r: [u8; 4])
    ensures
        le32(r[0], r[1], r[2], r[3]) == x,
{
    let b = u32_to_be(x);
    [b[3], b[2], b[1], b[0]]
}

/// The header that a recording starts with.
pub fn placeholder_header() -> (h: [u8; WAV_HEADER_SIZE])
    ensures
        h@.subrange(0, 4) == seq![0x52u8, 0x49u8, 0x46u8, 0x46u8],
        le32(h[4], h[5], h[6], h[7]) == 0,
        h@.subrange(8, 16) == seq![
            0x57u8,
            0x41u8,
            0x56u8,
            0x45u8,
            0x66u8,
            0x6Du8,
            0x74u8,
            0x20u8,
        ],
        le32(h[16], h[17], h[18], h[19]) == 16,
        h[20] + 0x100 * h[21] == 1,
        h[22] + 0x100 * h[23] == 1,
        le32(h[24], h[25], h[26], h[27]) == SAMPLE_RATE,
        le32(h[28], h[29], h[30], h[31]) == 2 * SAMPLE_RATE,
        h[32] + 0x100 * h[33] == 2,
        h[34] + 0x100 * h[35] == 16,
        h@.subrange(36, 40) == seq![0x64u8, 0x61u8, 0x74u8, 0x61u8],
        le32(h[40], h[41], h[42], h[43]) == 0,
{
    let h: [u8; WAV_HEADER_SIZE] = [
        0x52, 0x49, 0x46, 0x46, 0, 0, 0, 0, 0x57, 0x41, 0x56, 0x45, 0x66, 0x6D, 0x74, 0x20, 16, 0, 0, 0,
        1, 0, 1, 0, 0x40, 0x1F, 0, 0, 0x80, 0x3E, 0, 0, 2, 0, 16, 0, 0x64, 0x61, 0x74, 0x61, 0, 0, 0, 0,
    ];
    assert(h@.subrange(0, 4) =~= seq![0x52u8, 0x49u8, 0x46u8, 0x46u8]);
    assert(h@.subrange(8, 16) =~= seq![
        0x57u8,
        0x41u8,
        0x56u8,
        0x45u8,
        0x66u8,
        0x6Du8,
        0x74u8,
        0x20u8,
    ]);
    assert(h@.subrange(36, 40) =~= seq![0x64u8, 0x61u8, 0x74u8, 0x61u8]);
    h
}

/// `data` holds the samples, low byte first.
pub open spec fn is_sample_data(data: Seq<u8>, pcm: Seq<i16>) -> bool {
    &&& data.len() == 2 * pcm.len()
    &&& forall|i: int|
        0 <= i < pcm.len() ==> #[trigger] pcm[i] == sample_of(data[2 * i], data[2 * i + 1])
}

/// Samples as they stand in the file.
pub fn sample_data(pcm: &[i16]) -> (data: Vec<u8>)
    ensures
        is_sample_data(data@, pcm@),
{
    let mut data: Vec<u8> = Vec::new();
    let mut i: usize = 0;
    while i < pcm.len()
        invariant
            i <= pcm@.len(),
            data@.len() == 2 * i,
            forall|k: int|
                0 <= k < i ==> #[trigger] pcm@[k] == sample_of(data@[2 * k], data@[2 * k + 1]),
        decreases pcm@.len() - i,
    {
        let ghost before = data@;
        let (lo, hi) = sample_bytes(pcm[i]);
        data.push(lo);
        data.push(hi);
        assert forall|k: int| 0 <= k < i + 1 implies #[trigger] pcm@[k] == sample_of(
            data@[2 * k],
            data@[2 * k + 1],
        ) by {
            if k < i {
                assert(data@[2 * k] == before[2 * k] && data@[2 * k + 1] == before[2 * k + 1]);
            }
        }
        i += 1;
    }
    data
}

/// Law: samples read back from the file as they were.
pub proof fn law_samples_read_back(data: Seq<u8>, written: Seq<i16>, read: Seq<i16>)
    requires
        is_sample_data(data, written),
        is_sample_data(data, read),
    ensures
        read == written,
{
    assert forall|i: int| 0 <= i < written.len() implies read[i] == written[i] by {}
    assert(read =~= written);
}

/// Why samples cannot be added.
#[derive(Debug, Clone, Copy, PartialEq, Eq, Structural)]
pub enum WavError {
    WriteAfterFinalize,
    ChunkTooLarge,
    SizeCapReached,
}

impl WavError {
    pub fn message(self) -> (r: &'static str)
        ensures
            r@ == (match self {
                WavError::WriteAfterFinalize => "write after finalize"@,
                WavError::ChunkTooLarge => "pcm chunk too large for u32"@,
                WavError::SizeCapReached => "WAV size cap reached"@,
            }),
    {
        match self {
            WavError::WriteAfterFinalize => "write after finalize",
            WavError::ChunkTooLarge => "pcm chunk too large for u32",
            WavError::SizeCapReached => "WAV size cap reached",
        }
    }
}

/// Progress of a recording.
#[derive(Debug, Clone, Copy)]
pub struct WavProgress {
    pub samples_written: u32,
    pub finalized: bool,
}

/// The two sizes that a finished recording's header holds.
#[derive(Debug, Clone, Copy, PartialEq, Eq, Structural)]
pub struct WavSizes {
    pub riff_size: u32,
    pub data_size: u32,
}

impl WavProgress {
    /// The sizes fit their fields.
    pub open spec fn wf(self) -> bool {
        self.samples_written <= MAX_SAMPLES
    }

    /// A recording without samples.
    pub fn new() -> (r: Self)
        ensures
            r.wf(),
            r.samples_written == 0,
            !r.finalized,
    {
        WavProgress { samples_written: 0, finalized: false }
    }

    /// How many samples there will be after `n` more.
    pub fn after(&self, n: usize) -> (r: Result<u32, WavError>)
        requires
            self.wf(),
        ensures
            match r {
                Err(WavError::WriteAfterFinalize) => self.finalized,
                Err(WavError::ChunkTooLarge) => !self.finalized && n > u32::MAX,
                Err(WavError::SizeCapReached) => !self.finalized && n <= u32::MAX
                    && self.samples_written + n > MAX_SAMPLES,
                Ok(m) => !self.finalized && n <= u32::MAX && self.samples_written + n <= MAX_SAMPLES
                    && m == self.samples_written + n,
            },
    {
        if self.finalized {
            return Err(WavError::WriteAfterFinalize);
        }
        if n as u64 > u32::MAX as u64 {
            return Err(WavError::ChunkTooLarge);
        }
        let m: u64 = self.samples_written as u64 + n as u64;
        if m > MAX_SAMPLES as u64 {
            return Err(WavError::SizeCapReached);
        }
        Ok(m as u32)
    }

    /// Samples were written; `total` is what `after` said.
    pub fn written(&mut self, total: u32)
        requires
            total <= MAX_SAMPLES,
        ensures
            final(self).wf(),
            final(self).samples_written == total,
            final(self).finalized == old(self).finalized,
    {
        self.samples_written = total;
    }

    /// Ends the recording; gives the sizes to fill in, the first time.
    pub fn finalize(&mut self) -> (r: Option<WavSizes>)
        requires
            old(self).wf(),
        ensures
            final(self).wf(),
            final(self).finalized,
            final(self).samples_written == old(self).samples_written,
            r is Some <==> !old(self).finalized,
            r matches Some(s) ==> s.data_size == 2 * old(self).samples_written && s.riff_size == 36
                + s.data_size,
    {
        if self.finalized {
            return None;
        }
        self.finalized = true;
        let data_size: u32 = self.samples_written * 2;
        Some(WavSizes { riff_size: data_size + 36, data_size })
    }
}

/// Law: four bytes spell a number from its lowest byte to its highest.
pub proof fn law_number_bytes(b0: u8, b1: u8, b2: u8, b3: u8)
    ensures
        b0 == le32(b0, b1, b2, b3) % 256,
        b1 == le32(b0, b1, b2, b3) / 256 % 256,
        b2 == le32(b0, b1, b2, b3) / 65536 % 256,
        b3 == le32(b0, b1, b2, b3) / 16777216,
{
}

/// Law: a sample takes two bytes, its low byte first.
pub proof fn law_sample_bytes(data: Seq<u8>, pcm: Seq<i16>, i: int)
    requires
        is_sample_data(data, pcm),
        0 <= i < pcm.len(),
    ensures
        data.len() == 2 * pcm.len(),
        data[2 * i] == pcm[i] % 256,
        data[2 * i + 1] == (if pcm[i] < 0 {
            pcm[i] + 65536
        } else {
            pcm[i] as int
        }) / 256,
{
    assert(pcm[i] == sample_of(data[2 * i], data[2 * i + 1]));
}

/// Law: recordings have 8000 samples a second behind 44 bytes of header, whose
/// bytes from 4 and from 40 hold the sizes.  The longest recording is the
/// longest whose size fits its field.
pub proof fn law_limits()
    ensures
        SAMPLE_RATE == 8000,
        WAV_HEADER_SIZE == 44,
        RIFF_SIZE_AT == 4,
        DATA_SIZE_AT == 40,
        36 + 2 * MAX_SAMPLES <= 0xFFFF_FFFF,
        36 + 2 * (MAX_SAMPLES + 1) > 0xFFFF_FFFF,
{
}

} // verus!
