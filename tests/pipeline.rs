use base64::Engine;
use vox_forensics::analysis::{analyze_audio_local, compute_hash, decode_wav, AnalysisError, LocalAnalysis};

fn wav_bytes_int(rate: u32, channels: u16, bits: u16, samples: &[i32]) -> Vec<u8> {
    let spec = hound::WavSpec {
        channels,
        sample_rate: rate,
        bits_per_sample: bits,
        sample_format: hound::SampleFormat::Int,
    };
    let mut out = std::io::Cursor::new(Vec::new());
    {
        let mut w = hound::WavWriter::new(&mut out, spec).unwrap();
        for &s in samples {
            w.write_sample(s).unwrap();
        }
        w.finalize().unwrap();
    }
    out.into_inner()
}

fn wav_bytes_float(rate: u32, samples: &[f32]) -> Vec<u8> {
    let spec = hound::WavSpec {
        channels: 1,
        sample_rate: rate,
        bits_per_sample: 32,
        sample_format: hound::SampleFormat::Float,
    };
    let mut out = std::io::Cursor::new(Vec::new());
    {
        let mut w = hound::WavWriter::new(&mut out, spec).unwrap();
        for &s in samples {
            w.write_sample(s).unwrap();
        }
        w.finalize().unwrap();
    }
    out.into_inner()
}

fn encode(bytes: &[u8]) -> String {
    base64::engine::general_purpose::STANDARD.encode(bytes)
}

fn same(a: &LocalAnalysis, b: &LocalAnalysis) -> bool {
    a.metadata.sample_count == b.metadata.sample_count
        && a.metadata.sample_rate == b.metadata.sample_rate
        && a.metadata.channels == b.metadata.channels
        && a.metadata.bits_per_sample == b.metadata.bits_per_sample
        && a.metadata.file_hash == b.metadata.file_hash
        && a.full_scale == b.full_scale
        && a.square_sum == b.square_sum
        && a.peak_amplitude == b.peak_amplitude
        && a.silent_count == b.silent_count
        && a.dropped_samples == b.dropped_samples
        && a.splice_positions == b.splice_positions
        && a.waveform_data.len() == b.waveform_data.len()
        && a
            .waveform_data
            .iter()
            .zip(b.waveform_data.iter())
            .all(|(x, y)| x.total == y.total && x.count == y.count)
}

#[test]
fn silent_second_is_all_quiet() {
    let samples = vec![0i32; 44100];
    let bytes = wav_bytes_int(44100, 1, 16, &samples);
    let a = analyze_audio_local(&encode(&bytes)).unwrap();
    assert_eq!(a.metadata.sample_count, 44100);
    assert_eq!(a.metadata.sample_rate, 44100);
    assert_eq!(a.metadata.channels, 1);
    assert_eq!(a.metadata.bits_per_sample, 16);
    assert_eq!(a.full_scale, 32768);
    assert_eq!(a.square_sum, 0);
    assert_eq!(a.peak_amplitude, 0);
    assert_eq!(a.silent_count, 44100);
    assert!(a.splice_positions.is_empty());
    // Chunks of 44100 / 500 = 88 samples: 501 full ones and a remainder.
    assert_eq!(a.waveform_data.len(), 502);
    assert!(a.waveform_data.iter().all(|p| p.total == 0));
    assert_eq!(a.dropped_samples, 0);
}

#[test]
fn step_in_level_is_an_edit_candidate() {
    let mut samples = vec![655i32; 44100];
    samples.extend(vec![16384i32; 44100]);
    let bytes = wav_bytes_int(44100, 1, 16, &samples);
    let a = analyze_audio_local(&encode(&bytes)).unwrap();
    assert!(!a.splice_positions.is_empty());
    assert!(a
        .splice_positions
        .iter()
        .any(|&i| (i as i64 - 44100).abs() <= 441));
}

#[test]
fn uniform_level_has_no_edit_candidate() {
    let samples = vec![16384i32; 88200];
    let bytes = wav_bytes_int(44100, 1, 16, &samples);
    let a = analyze_audio_local(&encode(&bytes)).unwrap();
    assert!(a.splice_positions.is_empty());
    assert_eq!(a.peak_amplitude, 16384);
    assert_eq!(a.silent_count, 0);
    assert_eq!(a.square_sum, 88200u128 * 16384 * 16384);
}

#[test]
fn random_bytes_are_unsupported() {
    let bytes: Vec<u8> = (0..200u32).map(|i| (i.wrapping_mul(2654435761) >> 13) as u8).collect();
    let r = analyze_audio_local(&encode(&bytes));
    assert!(matches!(r, Err(AnalysisError::UnsupportedContainer(_))));
}

#[test]
fn text_bytes_are_unsupported() {
    let r = analyze_audio_local("aGVsbG8gd29ybGQ=");
    assert!(matches!(r, Err(AnalysisError::UnsupportedContainer(_))));
    let r = decode_wav(b"hello world");
    assert!(matches!(r, Err(AnalysisError::UnsupportedContainer(_))));
}

#[test]
fn same_bad_input_gives_same_error_text() {
    let text = encode(b"RIFF\x10\x00\x00\x00WAVEjunkjunk");
    match (analyze_audio_local(&text), analyze_audio_local(&text)) {
        (Err(AnalysisError::UnsupportedContainer(a)), Err(AnalysisError::UnsupportedContainer(b))) => {
            assert_eq!(a, b)
        }
        _ => panic!("expected unsupported container twice"),
    }
    match (analyze_audio_local("@@@"), analyze_audio_local("@@@")) {
        (Err(AnalysisError::Envelope(a)), Err(AnalysisError::Envelope(b))) => assert_eq!(a, b),
        _ => panic!("expected envelope errors"),
    }
}

#[test]
fn zero_sample_rate_is_unsupported() {
    let mut bytes = wav_bytes_int(8000, 1, 16, &[1, 2, 3]);
    // Sample rate and byte rate of the fmt chunk.
    for k in 24..32 {
        bytes[k] = 0;
    }
    let r = decode_wav(&bytes);
    assert!(matches!(r, Err(AnalysisError::UnsupportedContainer(_))));
}

#[test]
fn invalid_base64_is_an_envelope_error() {
    let r = analyze_audio_local("this is not base64!!");
    assert!(matches!(r, Err(AnalysisError::Envelope(_))));
}

#[test]
fn container_without_samples_is_empty() {
    let bytes = wav_bytes_int(8000, 1, 16, &[]);
    let r = analyze_audio_local(&encode(&bytes));
    assert!(matches!(r, Err(AnalysisError::EmptyAudio)));
}

#[test]
fn truncated_samples_are_dropped() {
    let mut bytes = wav_bytes_int(8000, 1, 16, &[1000, -1000, 2000, -2000]);
    bytes.truncate(bytes.len() - 3);
    let a = decode_wav(&bytes).unwrap();
    assert_eq!(a.samples, vec![1000, -1000]);
    assert_eq!(a.dropped, 2);
}

#[test]
fn same_input_gives_same_analysis() {
    let samples: Vec<i32> = (0..5000).map(|i| ((i * 37) % 2001) - 1000).collect();
    let text = encode(&wav_bytes_int(22050, 2, 16, &samples));
    let a = analyze_audio_local(&text).unwrap();
    let b = analyze_audio_local(&text).unwrap();
    assert!(same(&a, &b));
    assert_eq!(a.metadata.channels, 2);
    assert_eq!(a.metadata.sample_count, 5000);
}

#[test]
fn hash_is_sha256_hex() {
    let h = compute_hash(b"any bytes at all");
    assert_eq!(h.len(), 64);
    assert!(h.chars().all(|c| c.is_ascii_digit() || ('a'..='f').contains(&c)));
    assert_eq!(
        compute_hash(b""),
        "e3b0c44298fc1c149afbf4c8996fb92427ae41e4649b934ca495991b7852b855"
    );
    assert_eq!(
        compute_hash(b"abc"),
        "ba7816bf8f01cfea414140de5dae2223b00361a396177a9cb410ff61f20015ad"
    );
}

#[test]
fn hash_changes_with_one_byte() {
    let a = vec![7u8; 64];
    let mut b = a.clone();
    b[10] ^= 1;
    assert_eq!(compute_hash(&a), compute_hash(&a.clone()));
    assert_ne!(compute_hash(&a), compute_hash(&b));
}

#[test]
fn file_hash_is_of_the_raw_bytes() {
    let bytes = wav_bytes_int(8000, 1, 8, &[10, -10, 20]);
    let a = analyze_audio_local(&encode(&bytes)).unwrap();
    assert_eq!(a.metadata.file_hash, compute_hash(&bytes));
    assert_eq!(a.full_scale, 128);
}

#[test]
fn float_container_is_read_at_float_scale() {
    let bytes = wav_bytes_float(16000, &[0.5, -0.25, 1.0, 0.0]);
    let a = decode_wav(&bytes).unwrap();
    assert_eq!(a.full_scale, 1 << 24);
    assert_eq!(a.samples, vec![1 << 23, -(1 << 22), 1 << 24, 0]);
    assert_eq!(a.dropped, 0);
}

#[test]
fn float_nan_is_dropped() {
    let bytes = wav_bytes_float(16000, &[0.5, f32::NAN, 300.0]);
    let a = decode_wav(&bytes).unwrap();
    assert_eq!(a.samples, vec![1 << 23]);
    assert_eq!(a.dropped, 2);
}

#[test]
fn integer_full_scale_follows_bit_depth() {
    let bytes = wav_bytes_int(8000, 1, 24, &[-8388608, 8388607]);
    let a = decode_wav(&bytes).unwrap();
    assert_eq!(a.full_scale, 1 << 23);
    assert_eq!(a.samples, vec![-8388608, 8388607]);
}
