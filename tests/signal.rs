use vox_forensics::decode::float_bits_to_fixed;
use vox_forensics::report::{classify_key_status, ApiKeyValidation, KeyStatus};
use vox_forensics::signal::{detect_splices, generate_waveform, magnitude_sum, measure, DetectorConfig};

#[test]
fn measure_exact_values() {
    let s = [3, -4, 0, 100, -32768];
    let st = measure(&s, 32768, 10_000);
    assert_eq!(st.square_sum, 9 + 16 + 0 + 10000 + 32768u128 * 32768);
    assert_eq!(st.peak, 32768);
    // 0.01 of 32768 is 327.68: 3, -4, 0 and 100 are below it.
    assert_eq!(st.quiet_count, 4);
}

#[test]
fn ratio_and_rms_bounds_on_generated_samples() {
    let s: Vec<i32> = (0..3000).map(|i| ((i * 7919) % 60001) - 30000).collect();
    let st = measure(&s, 32768, 10_000);
    assert!(st.quiet_count <= s.len());
    let n = s.len() as u128;
    assert!(st.square_sum <= n * (st.peak as u128) * (st.peak as u128));
}

#[test]
fn magnitude_sum_of_range() {
    let s = [1, -2, 3, -4];
    assert_eq!(magnitude_sum(&s, 1, 3), 5);
    assert_eq!(magnitude_sum(&s, 2, 2), 0);
}

#[test]
fn splices_on_level_step() {
    let cfg = DetectorConfig::standard();
    let mut s = vec![655i32; 44100];
    s.extend(vec![16384i32; 44100]);
    let r = detect_splices(&s, 44100, 32768, &cfg);
    assert_eq!(r, vec![44100]);
}

#[test]
fn no_splices_on_silence_to_loud() {
    // The window before the boundary is below the energy floor.
    let cfg = DetectorConfig::standard();
    let mut s = vec![0i32; 4410];
    s.extend(vec![16384i32; 4410]);
    assert!(detect_splices(&s, 44100, 32768, &cfg).is_empty());
}

#[test]
fn splice_on_drop_to_silence() {
    let cfg = DetectorConfig::standard();
    let mut s = vec![16384i32; 441 * 3];
    s.extend(vec![0i32; 441 * 3]);
    assert_eq!(detect_splices(&s, 44100, 32768, &cfg), vec![1323]);
}

#[test]
fn splices_need_one_full_window() {
    let cfg = DetectorConfig::standard();
    let s = vec![16384i32; 441];
    assert!(detect_splices(&s, 44100, 32768, &cfg).is_empty());
}

#[test]
fn splice_window_is_at_least_one_sample() {
    let cfg = DetectorConfig::standard();
    // 50 Hz gives a window of 50 / 100 = 0, taken as 1.
    let s = [20000, 20000, 0, 0];
    assert_eq!(detect_splices(&s, 50, 32768, &cfg), vec![2]);
}

#[test]
fn last_window_is_averaged_over_its_own_samples() {
    let cfg = DetectorConfig::standard();
    // Window of 4; the boundary at 4 sees only 2 samples after it, whose mean
    // equals the mean before it.
    let s = [16384, 16384, 16384, 16384, 16384, 16384];
    assert!(detect_splices(&s, 400, 32768, &cfg).is_empty());
    let s = [16384, 16384, 16384, 16384, 16384];
    assert!(detect_splices(&s, 400, 32768, &cfg).is_empty());
}

#[test]
fn clipped_last_window_can_still_jump() {
    let cfg = DetectorConfig::standard();
    // Before: mean 0.5; after (2 samples): mean 0.125; jump 0.375 > 0.15.
    let s = [16384, 16384, 16384, 16384, 8192, 0];
    assert_eq!(detect_splices(&s, 400, 32768, &cfg), vec![4]);
}

#[test]
fn constant_signal_of_any_length_has_no_candidate() {
    let cfg = DetectorConfig::standard();
    for n in [441usize, 442, 1000, 44100 + 17] {
        let s = vec![16384i32; n];
        assert!(detect_splices(&s, 44100, 32768, &cfg).is_empty());
    }
}

#[test]
fn waveform_exact_chunks() {
    let s: Vec<i32> = vec![1, -3, 5, -7, 9, -11];
    let r = generate_waveform(&s, 3);
    assert_eq!(r.len(), 3);
    assert_eq!((r[0].total, r[0].count), (4, 2));
    assert_eq!((r[1].total, r[1].count), (12, 2));
    assert_eq!((r[2].total, r[2].count), (20, 2));
}

#[test]
fn waveform_remainder_forms_last_chunk() {
    let s: Vec<i32> = vec![1, 2, 3, 4, 5, 6, 7];
    let r = generate_waveform(&s, 3);
    assert_eq!(r.len(), 4);
    assert_eq!((r[3].total, r[3].count), (7, 1));
}

#[test]
fn waveform_short_input_is_verbatim() {
    let s: Vec<i32> = vec![5, -6, 7];
    let r = generate_waveform(&s, 500);
    assert_eq!(r.len(), 3);
    assert_eq!((r[1].total, r[1].count), (-6, 1));
}

#[test]
fn waveform_empty_and_exact_target() {
    assert!(generate_waveform(&[], 500).is_empty());
    let s = vec![2i32; 1000];
    let r = generate_waveform(&s, 500);
    assert_eq!(r.len(), 500);
    assert!(r.iter().all(|p| p.total == 4 && p.count == 2));
}

#[test]
fn float_bits_conversion() {
    assert_eq!(float_bits_to_fixed(0.5f32.to_bits()), Some(1 << 23));
    assert_eq!(float_bits_to_fixed((-1.0f32).to_bits()), Some(-(1 << 24)));
    assert_eq!(float_bits_to_fixed(0.0f32.to_bits()), Some(0));
    assert_eq!(float_bits_to_fixed(100.0f32.to_bits()), Some(100 << 24));
    assert_eq!(float_bits_to_fixed(f32::INFINITY.to_bits()), None);
    assert_eq!(float_bits_to_fixed(128.0f32.to_bits()), None);
    assert_eq!(float_bits_to_fixed(1.0e-9f32.to_bits()), Some(0));
}

#[test]
fn key_status_classes() {
    assert_eq!(classify_key_status(200), KeyStatus::Accepted);
    assert_eq!(classify_key_status(403), KeyStatus::Rejected);
    assert_eq!(classify_key_status(400), KeyStatus::Rejected);
    assert_eq!(classify_key_status(500), KeyStatus::Failed);
    let v = ApiKeyValidation::from_status(401, "Validation failed with status: 401 Unauthorized".to_string());
    assert!(!v.valid);
    assert_eq!(v.message, "Validation failed with status: 401 Unauthorized");
    let ok = ApiKeyValidation::from_status(204, String::new());
    assert!(ok.valid);
    assert_eq!(ok.message, "API key validated successfully");
}
