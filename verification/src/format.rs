//! Format validation and the per-file trimming pipeline: a file's
//! decoded header and samples come in, the trimmed samples go out.

use vstd::prelude::*;

use crate::trim::{trim_samples, trim_spec};
use crate::WINDOW_SIZE;

verus! {

/// A WAV file's format descriptor: what the container header declares
/// about the sample stream.
#[derive(Clone, Copy, Debug, PartialEq, Eq, Structural)]
pub struct WavFormat {
    /// Number of interleaved channels.
    pub channels: u16,
    /// Samples per second per channel.
    pub sample_rate: u32,
    /// Bits per sample.
    pub bits_per_sample: u16,
    /// Whether samples are integers (as opposed to floating point).
    pub int_samples: bool,
}

/// The one accepted input format: mono, 16-bit integer PCM, 16 kHz.
pub open spec fn format_supported(f: WavFormat) -> bool {
    f.channels == 1 && f.sample_rate == 16000 && f.bits_per_sample == 16 && f.int_samples
}

/// Why a file was rejected without being trimmed.
#[derive(Clone, Copy, Debug, PartialEq, Eq, Structural)]
pub enum TrimError {
    /// The format descriptor is not mono 16-bit integer PCM at 16 kHz.
    UnsupportedFormat,
    /// The sample sequence is too long for exact energy sums.
    TooManySamples,
}

impl WavFormat {
    /// Decides whether this descriptor is the accepted input format.
    pub fn is_supported(&self) -> (ok: bool)
        ensures
            ok == format_supported(*self),
    {
        self.channels == 1 && self.sample_rate == 16000 && self.bits_per_sample == 16
            && self.int_samples
    }
}

/// Trims one decoded file: validates the format descriptor, then trims
/// silence with the fixed 50 ms window.  Succeeds exactly on supported
/// formats whose sample count the energy sums can handle.
pub fn trim_wav_samples(format: WavFormat, samples: &[i16], threshold_sq_q32: u64) -> (out: Result<
    Vec<i16>,
    TrimError,
>)
    ensures
        out is Ok <==> format_supported(format) && samples@.len() <= 0x1_0000_0000,
        out matches Ok(v) ==> v@ == trim_spec(samples@, threshold_sq_q32, WINDOW_SIZE as nat),
        !format_supported(format) ==> out == Result::<Vec<i16>, TrimError>::Err(
            TrimError::UnsupportedFormat,
        ),
        format_supported(format) && samples@.len() > 0x1_0000_0000 ==> out == Result::<
            Vec<i16>,
            TrimError,
        >::Err(TrimError::TooManySamples),
{
    if !format.is_supported() {
        return Err(TrimError::UnsupportedFormat);
    }
    if (samples.len() as u64) > 0x1_0000_0000u64 {
        return Err(TrimError::TooManySamples);
    }
    Ok(trim_samples(samples, threshold_sq_q32, WINDOW_SIZE))
}

} // verus!
