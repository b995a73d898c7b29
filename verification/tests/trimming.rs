use wav_files_trim::energy::sum_squares;
use wav_files_trim::format::trim_wav_samples;
use wav_files_trim::format::TrimError;
use wav_files_trim::format::WavFormat;
use wav_files_trim::trim::trim_samples;
use wav_files_trim::WINDOW_SIZE;

/// Converts a dBFS threshold to the squared linear RMS threshold in
/// Q32.32 fixed point, the form the library compares energies against.
fn threshold_sq_q32(threshold_db: f64) -> u64 {
    let linear = 10f64.powf(threshold_db / 20.0) * 32768.0;
    let squared = linear * linear * 4294967296.0;
    if squared >= u64::MAX as f64 {
        u64::MAX
    } else {
        squared as u64
    }
}

/// Root-mean-square of a chunk, from the library's exact sum of squares.
fn rms(chunk: &[i16]) -> f64 {
    if chunk.is_empty() {
        return 0.0;
    }
    (sum_squares(chunk) as f64 / chunk.len() as f64).sqrt()
}

#[test]
fn test_rms_silence() {
    let chunk = vec![0i16; 10];
    assert_eq!(rms(&chunk), 0.0);
}

#[test]
fn test_rms_full_scale() {
    let chunk = vec![32767i16; 10];
    let rms_val = rms(&chunk);
    assert!((rms_val - 32767.0).abs() < 1e-6);
}

#[test]
fn test_rms_empty() {
    let chunk: Vec<i16> = Vec::new();
    assert_eq!(rms(&chunk), 0.0);
}

#[test]
fn test_rms_constant_value() {
    let chunk = vec![-1234i16; 7];
    let rms_val = rms(&chunk);
    assert!((rms_val - 1234.0).abs() < 1e-6);
}

#[test]
fn test_sum_squares_exact() {
    let chunk = vec![3i16, -4i16];
    assert_eq!(sum_squares(&chunk), 25);
}

#[test]
fn test_trim_all_silence() {
    let samples = vec![0i16; 1000];
    let threshold_db = -50.0;
    let window_size = 100;
    let trimmed = trim_samples(&samples, threshold_sq_q32(threshold_db), window_size);
    assert_eq!(trimmed.len(), 0);
}

#[test]
fn test_trim_leading_trailing_silence() {
    let silence_len = 800;
    let signal = vec![1000i16; 400]; // Above threshold RMS.
    let samples = vec![0i16; silence_len]
        .into_iter()
        .chain(signal.clone())
        .chain(vec![0i16; silence_len])
        .collect::<Vec<_>>();
    let threshold_db = -40.0; // Threshold such that RMS(1000 over 400) > threshold.
    let window_size = 200;
    let trimmed = trim_samples(&samples, threshold_sq_q32(threshold_db), window_size);
    assert_eq!(trimmed.len(), signal.len());
    assert_eq!(trimmed, signal);
}

#[test]
fn test_trim_no_silence() {
    let samples = vec![1000i16; 1000];
    let threshold_db = -60.0;
    let window_size = 100;
    let trimmed = trim_samples(&samples, threshold_sq_q32(threshold_db), window_size);
    assert_eq!(trimmed.len(), samples.len());
}

#[test]
fn test_trim_empty_input() {
    let samples: Vec<i16> = Vec::new();
    let trimmed = trim_samples(&samples, threshold_sq_q32(-50.0), 800);
    assert_eq!(trimmed.len(), 0);
}

#[test]
fn test_trim_window_larger_than_sequence_loud() {
    // The whole sequence degenerates to a single window; it is loud, so
    // everything is kept.
    let samples = vec![5000i16; 30];
    let trimmed = trim_samples(&samples, threshold_sq_q32(-50.0), 100);
    assert_eq!(trimmed, samples);
}

#[test]
fn test_trim_window_larger_than_sequence_silent() {
    // The whole sequence degenerates to a single window; it is below the
    // threshold, so everything goes.
    let samples = vec![1i16; 30];
    let trimmed = trim_samples(&samples, threshold_sq_q32(-20.0), 100);
    assert_eq!(trimmed.len(), 0);
}

#[test]
fn test_trim_threshold_is_strict() {
    // A window whose mean squared value equals the threshold exactly is
    // not loud: the comparison is strict.
    let samples = vec![1000i16; 400];
    let exact: u64 = 1000 * 1000 * 4294967296;
    assert_eq!(trim_samples(&samples, exact, 100).len(), 0);
    assert_eq!(trim_samples(&samples, exact - 1, 100), samples);
}

#[test]
fn test_trim_idempotent() {
    let silence_len = 600;
    let signal = vec![2000i16; 600];
    let samples = vec![0i16; silence_len]
        .into_iter()
        .chain(signal.clone())
        .chain(vec![0i16; silence_len])
        .collect::<Vec<_>>();
    let q = threshold_sq_q32(-40.0);
    let once = trim_samples(&samples, q, 200);
    let twice = trim_samples(&once, q, 200);
    assert_eq!(once, signal);
    assert_eq!(twice, once);
}

#[test]
fn test_trim_again_below_window() {
    // A trim result shorter than one window need not survive a second
    // trim: on its own, the short remainder can fall below the
    // threshold even though the boundary windows of the original
    // sequence (which reach beyond it) were loud.
    let samples = vec![0i16, 0, 62, 7, 14, 2, 62, 7, 0, 0];
    let q: u64 = 1000 * 4294967296; // mean square threshold of 1000
    let once = trim_samples(&samples, q, 4);
    assert_eq!(once, vec![14i16, 2]);
    let twice = trim_samples(&once, q, 4);
    assert_eq!(twice.len(), 0);
}

#[test]
fn test_format_supported() {
    let good = WavFormat { channels: 1, sample_rate: 16000, bits_per_sample: 16, int_samples: true };
    assert!(good.is_supported());
    let stereo = WavFormat { channels: 2, ..good };
    assert!(!stereo.is_supported());
    let slow = WavFormat { sample_rate: 8000, ..good };
    assert!(!slow.is_supported());
    let deep = WavFormat { bits_per_sample: 24, ..good };
    assert!(!deep.is_supported());
    let float = WavFormat { int_samples: false, ..good };
    assert!(!float.is_supported());
}

#[test]
fn test_trim_wav_samples_ok() {
    let good = WavFormat { channels: 1, sample_rate: 16000, bits_per_sample: 16, int_samples: true };
    let signal = vec![3000i16; WINDOW_SIZE];
    let samples = vec![0i16; WINDOW_SIZE]
        .into_iter()
        .chain(signal.clone())
        .chain(vec![0i16; WINDOW_SIZE])
        .collect::<Vec<_>>();
    let out = trim_wav_samples(good, &samples, threshold_sq_q32(-40.0));
    assert_eq!(out, Ok(signal));
}

#[test]
fn test_trim_wav_samples_unsupported_format() {
    let bad = WavFormat { channels: 1, sample_rate: 44100, bits_per_sample: 16, int_samples: true };
    let samples = vec![3000i16; 100];
    let out = trim_wav_samples(bad, &samples, threshold_sq_q32(-40.0));
    assert_eq!(out, Err(TrimError::UnsupportedFormat));
}
