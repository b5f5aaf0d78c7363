//! WAV files of recorded calls, kept in memory.

use asl_dmr_bridge::wav::{
    placeholder_header, sample_data, u32_to_le, WavError, WavProgress, DATA_SIZE_AT, MAX_SAMPLES,
    RIFF_SIZE_AT,
};

/// A recording in memory.
struct Recorder {
    bytes: Vec<u8>,
    progress: WavProgress,
}

impl Recorder {
    fn create() -> Self {
        Recorder {
            bytes: placeholder_header().to_vec(),
            progress: WavProgress::new(),
        }
    }

    fn write(&mut self, pcm: &[i16]) -> Result<(), WavError> {
        let total = self.progress.after(pcm.len())?;
        self.bytes.extend_from_slice(&sample_data(pcm));
        self.progress.written(total);
        Ok(())
    }

    fn finalize(&mut self) {
        if let Some(sizes) = self.progress.finalize() {
            let at = RIFF_SIZE_AT as usize;
            self.bytes[at..at + 4].copy_from_slice(&u32_to_le(sizes.riff_size));
            let at = DATA_SIZE_AT as usize;
            self.bytes[at..at + 4].copy_from_slice(&u32_to_le(sizes.data_size));
        }
    }
}

#[test]
fn header_layout_matches_canonical_8khz_mono_i16() {
    let mut rec = Recorder::create();
    rec.finalize();
    let bytes = rec.bytes;
    assert_eq!(bytes.len(), 44);
    assert_eq!(&bytes[0..4], b"RIFF");
    assert_eq!(&bytes[8..12], b"WAVE");
    assert_eq!(&bytes[12..16], b"fmt ");
    assert_eq!(u32::from_le_bytes(bytes[16..20].try_into().unwrap()), 16);
    assert_eq!(u16::from_le_bytes(bytes[20..22].try_into().unwrap()), 1);
    assert_eq!(u16::from_le_bytes(bytes[22..24].try_into().unwrap()), 1);
    assert_eq!(u32::from_le_bytes(bytes[24..28].try_into().unwrap()), 8000);
    assert_eq!(u32::from_le_bytes(bytes[28..32].try_into().unwrap()), 16000);
    assert_eq!(u16::from_le_bytes(bytes[32..34].try_into().unwrap()), 2);
    assert_eq!(u16::from_le_bytes(bytes[34..36].try_into().unwrap()), 16);
    assert_eq!(&bytes[36..40], b"data");
    assert_eq!(u32::from_le_bytes(bytes[40..44].try_into().unwrap()), 0);
    assert_eq!(u32::from_le_bytes(bytes[4..8].try_into().unwrap()), 36);
}

#[test]
fn write_then_drop_finalizes_size_fields() {
    let samples: Vec<i16> = (0..1000).map(|i| (i * 16) as i16).collect();
    let mut rec = Recorder::create();
    rec.write(&samples[..500]).unwrap();
    rec.write(&samples[500..]).unwrap();
    rec.finalize();
    let bytes = rec.bytes;
    let data_size = u32::from_le_bytes(bytes[40..44].try_into().unwrap());
    let riff_size = u32::from_le_bytes(bytes[4..8].try_into().unwrap());
    assert_eq!(data_size, samples.len() as u32 * 2);
    assert_eq!(riff_size, data_size + 36);
    assert_eq!(bytes.len() as u32, riff_size + 8);
    for (i, chunk) in bytes[44..].chunks_exact(2).enumerate() {
        let s = i16::from_le_bytes([chunk[0], chunk[1]]);
        assert_eq!(s, samples[i]);
    }
    // A WAV reader agrees.
    let mut reader = hound::WavReader::new(&bytes[..]).unwrap();
    assert_eq!(reader.spec().sample_rate, 8000);
    let read: Vec<i16> = reader.samples::<i16>().map(|s| s.unwrap()).collect();
    assert_eq!(read, samples);
}

#[test]
fn write_after_finalize_returns_err() {
    let mut rec = Recorder::create();
    rec.write(&[100i16; 4]).unwrap();
    rec.finalize();
    let err = rec.write(&[1i16]).unwrap_err();
    assert!(err.message().contains("write after finalize"));
    let bytes = rec.bytes;
    assert_eq!(u32::from_le_bytes(bytes[40..44].try_into().unwrap()), 8);
    assert_eq!(bytes.len(), 44 + 8);
}

#[test]
fn write_at_sample_cap_returns_err_without_corrupting() {
    let mut rec = Recorder::create();
    rec.progress.samples_written = MAX_SAMPLES - 1;
    rec.write(&[1i16]).unwrap();
    let err = rec.write(&[1i16]).unwrap_err();
    assert!(err.message().contains("WAV size cap"));
    assert_eq!(rec.progress.samples_written, MAX_SAMPLES);
}

#[test]
fn finalize_is_idempotent() {
    let mut rec = Recorder::create();
    rec.write(&[100i16; 4]).unwrap();
    rec.finalize();
    rec.finalize();
    assert_eq!(u32::from_le_bytes(rec.bytes[40..44].try_into().unwrap()), 8);
}

#[test]
fn chunks_have_a_limit() {
    let progress = WavProgress::new();
    assert_eq!(
        progress.after(u32::MAX as usize + 1),
        Err(WavError::ChunkTooLarge)
    );
    assert_eq!(
        progress.after(MAX_SAMPLES as usize + 1),
        Err(WavError::SizeCapReached)
    );
    assert_eq!(progress.after(MAX_SAMPLES as usize), Ok(MAX_SAMPLES));
}
