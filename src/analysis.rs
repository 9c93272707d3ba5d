//! The local analysis pipeline: envelope, fingerprint, decoding, statistics,
//! edit candidates and waveform.
use vstd::prelude::*;
use base64::Engine;
use sha2::Digest;
use crate::decode::{
    WavHeader, open_wav, read_int_samples, read_float_samples, keep_present, int_scale, float_layout_ok,
    wav_header, is_riff_wave, sample_slots, full_scale_of, present, missing, FLOAT_FULL_SCALE,
};
use crate::signal::{
    DetectorConfig, WavePoint, measure, detect_splices, generate_waveform, square_sum, peak_of,
    quiet_count, edit_candidates, is_waveform,
};

verus! {

/// Points of the waveform handed out with an analysis.
pub const WAVEFORM_POINTS: usize = 500;

/// Why an analysis produced no result.
#[derive(Debug)]
pub enum AnalysisError {
    /// The text is not valid base64; holds the decoder's message.
    Envelope(String),
    /// The bytes are not a WAV container that can be read, or its header is
    /// inconsistent; holds the reason.
    UnsupportedContainer(String),
    /// The container holds no sample that could be read.
    EmptyAudio,
}

/// What base64 decoding of the text gives: the bytes it encodes, or the
/// decoder's error message where it is not valid base64.
pub uninterp spec fn base64_decoded(text: Seq<char>) -> Result<Seq<u8>, Seq<char>>;

/// Relies on base64's `STANDARD` engine and `Engine::decode`: the bytes that
/// the text encodes, or the `Display` text of its `DecodeError`.
#[verifier::external_body]
fn decode_envelope(text: &str) -> (r: Result<Vec<u8>, String>)
    ensures
        match r {
            Ok(b) => base64_decoded(text@) == Ok::<Seq<u8>, Seq<char>>(b@),
            Err(m) => base64_decoded(text@) == Err::<Seq<u8>, Seq<char>>(m@),
        },
{
    base64::engine::general_purpose::STANDARD.decode(text).map_err(|e| e.to_string())
}

/// The 32-byte SHA-256 digest of the bytes.
pub uninterp spec fn sha256_digest(data: Seq<u8>) -> Seq<u8>;

/// Lowercase hex digit of a value below 16.
pub open spec fn hex_digit(v: nat) -> char {
    seq!['0', '1', '2', '3', '4', '5', '6', '7', '8', '9', 'a', 'b', 'c', 'd', 'e', 'f'][v as int]
}

/// Whether `c` is one of `0-9` or `a-f`.
pub open spec fn is_lower_hex_digit(c: char) -> bool {
    ('0' <= c && c <= '9') || ('a' <= c && c <= 'f')
}

/// Two lowercase hex digits per byte, high nibble first.
pub open spec fn lower_hex(b: Seq<u8>) -> Seq<char> {
    Seq::new(
        2 * b.len(),
        |i: int|
            if i % 2 == 0 {
                hex_digit(b[i / 2] as nat / 16)
            } else {
                hex_digit(b[i / 2] as nat % 16)
            },
    )
}

/// Relies on sha2's `Sha256::digest` (a 32-byte output), printed through the
/// `LowerHex` impl of generic-array: two lowercase hex digits per byte, high
/// nibble first.
#[verifier::external_body]
pub fn compute_hash(data: &[u8]) -> (r: String)
    ensures
        r@ == lower_hex(sha256_digest(data@)),
        r@.len() == 64,
{
    format!("{:x}", sha2::Sha256::digest(data))
}

/// A printed digest holds 64 lowercase hex digits, two per digest byte.
pub proof fn lemma_hash_text(data: Seq<u8>)
    requires
        lower_hex(sha256_digest(data)).len() == 64,
    ensures
        sha256_digest(data).len() == 32,
        forall|i: int|
            0 <= i < 64 ==> is_lower_hex_digit(#[trigger] lower_hex(sha256_digest(data))[i]),
{
    let d = sha256_digest(data);
    assert forall|i: int| 0 <= i < 64 implies is_lower_hex_digit(#[trigger] lower_hex(d)[i]) by {
        let byte = d[i / 2] as nat;
        assert(byte / 16 < 16 && byte % 16 < 16);
        let v: nat = if i % 2 == 0 { byte / 16 } else { byte % 16 };
        assert(lower_hex(d)[i] == hex_digit(v));
        assert(is_lower_hex_digit(hex_digit(v))) by {
            assert(v < 16);
        }
    }
}

/// Samples decoded from a container, with what its header declares.
#[derive(Debug)]
pub struct DecodedAudio {
    pub sample_rate: u32,
    pub channels: u16,
    pub bits_per_sample: u16,
    /// Sample value of a normalized amplitude of one.
    pub full_scale: u32,
    /// Interleaved samples, in the order of the container.
    pub samples: Vec<i32>,
    /// Samples that could not be read and were left out.
    pub dropped: usize,
}

/// Whether `r` is an unsupported-container error with the text `m`.
pub open spec fn unsupported_with<T>(r: Result<T, AnalysisError>, m: Seq<char>) -> bool {
    match r {
        Err(AnalysisError::UnsupportedContainer(t)) => t@ == m,
        _ => false,
    }
}

/// Text of the error for a header that declares a sample rate of zero.
pub open spec fn zero_rate_text() -> Seq<char> {
    "the header declares a sample rate of zero"@
}

/// What decoding `b` gives: hound's error, or the zero-rate error, as an
/// unsupported container; an empty-audio error where no sample can be read;
/// or audio whose fields are those of the header and the samples that could
/// be read.
pub open spec fn decode_outcome(b: Seq<u8>, r: Result<DecodedAudio, AnalysisError>) -> bool {
    match wav_header(b) {
        Err(m) => unsupported_with(r, m),
        Ok(h) => {
            let slots = sample_slots(b, h);
            if h.0 == 0 {
                unsupported_with(r, zero_rate_text())
            } else if present(slots).len() == 0 {
                r matches Err(AnalysisError::EmptyAudio)
            } else {
                &&& r is Ok
                &&& r->Ok_0.sample_rate == h.0
                &&& r->Ok_0.channels == h.1
                &&& r->Ok_0.bits_per_sample == h.2
                &&& r->Ok_0.full_scale == full_scale_of(h)
                &&& r->Ok_0.samples@ == present(slots)
                &&& r->Ok_0.dropped == missing(slots)
            }
        },
    }
}

/// Decodes a WAV container. A container that hound refuses, or whose header
/// declares a sample rate of zero, is unsupported; one where no sample can be
/// read is empty.
pub fn decode_wav(bytes: &[u8]) -> (r: Result<DecodedAudio, AnalysisError>)
    ensures
        decode_outcome(bytes@, r),
        !is_riff_wave(bytes@) ==> r matches Err(AnalysisError::UnsupportedContainer(_)),
        r is Ok ==> is_riff_wave(bytes@) && r->Ok_0.samples@.len() > 0 && r->Ok_0.full_scale > 0
            && r->Ok_0.sample_rate > 0 && r->Ok_0.channels > 0,
{
    let h: WavHeader = match open_wav(bytes) {
        Ok(h) => h,
        Err(msg) => return Err(AnalysisError::UnsupportedContainer(msg)),
    };
    if h.sample_rate == 0 {
        let text = "the header declares a sample rate of zero".to_owned();
        proof {
            assert(text@ == zero_rate_text());
        }
        return Err(AnalysisError::UnsupportedContainer(text));
    }
    let slots = if h.is_float {
        if !float_layout_ok(bytes, &h) {
            return Err(AnalysisError::EmptyAudio);
        }
        read_float_samples(bytes, h.data_offset, h.sample_len)
    } else {
        read_int_samples(bytes)
    };
    let (samples, dropped) = keep_present(&slots);
    if samples.len() == 0 {
        return Err(AnalysisError::EmptyAudio);
    }
    let full_scale = if h.is_float {
        FLOAT_FULL_SCALE
    } else {
        int_scale(h.bits_per_sample)
    };
    proof {
        vstd::arithmetic::power2::lemma_pow2_pos(31);
        if h.bits_per_sample < 32 {
            vstd::arithmetic::power2::lemma_pow2_pos((h.bits_per_sample - 1) as nat);
        }
    }
    Ok(DecodedAudio {
        sample_rate: h.sample_rate,
        channels: h.channels,
        bits_per_sample: h.bits_per_sample,
        full_scale,
        samples,
        dropped,
    })
}

/// Format and fingerprint of the analysed audio. Its duration in seconds is
/// `sample_count / (sample_rate * channels)`.
#[derive(Debug)]
pub struct AudioMetadata {
    /// Samples that were analysed, all channels together.
    pub sample_count: usize,
    pub sample_rate: u32,
    pub channels: u16,
    pub bits_per_sample: u16,
    /// SHA-256 of the raw bytes, lowercase hex.
    pub file_hash: String,
}

/// Result of a local analysis, exact in sample units: a value `x` stands for
/// the normalized amplitude `x / full_scale`.
#[derive(Debug)]
pub struct LocalAnalysis {
    pub metadata: AudioMetadata,
    pub full_scale: u32,
    /// Sum of squared samples; the RMS level is the square root of this over
    /// `sample_count`, over `full_scale`.
    pub square_sum: u128,
    /// Largest sample magnitude.
    pub peak_amplitude: u32,
    /// Samples below the quiet threshold; the silence ratio is this over
    /// `sample_count`.
    pub silent_count: usize,
    /// Samples that could not be read and were left out.
    pub dropped_samples: usize,
    /// Sample indices of the edit candidates; a time in seconds is an index
    /// over `sample_rate`.
    pub splice_positions: Vec<usize>,
    /// Mean magnitude of each waveform chunk (see `generate_waveform`).
    pub waveform_data: Vec<WavePoint>,
}

/// Whether `a` is the analysis of samples `s` read under the given format,
/// with fingerprint `hash` and thresholds `cfg`.
pub open spec fn summarizes(
    a: LocalAnalysis,
    s: Seq<i32>,
    sample_rate: u32,
    channels: u16,
    bits_per_sample: u16,
    full_scale: u32,
    dropped: nat,
    hash: Seq<char>,
    cfg: DetectorConfig,
) -> bool {
    &&& a.metadata.sample_count == s.len()
    &&& a.metadata.sample_rate == sample_rate
    &&& a.metadata.channels == channels
    &&& a.metadata.bits_per_sample == bits_per_sample
    &&& a.metadata.file_hash@ == hash
    &&& a.full_scale == full_scale
    &&& a.square_sum == square_sum(s)
    &&& a.peak_amplitude == peak_of(s)
    &&& a.silent_count == quiet_count(s, full_scale as nat, cfg.quiet_ppm as nat)
    &&& a.dropped_samples == dropped
    &&& a.splice_positions@.map_values(|x: usize| x as int) == edit_candidates(
        s,
        sample_rate as nat,
        full_scale as nat,
        cfg,
    )
    &&& is_waveform(a.waveform_data@, s, WAVEFORM_POINTS as nat)
}

/// Computes every statistic of decoded audio.
pub fn analyze_samples(audio: DecodedAudio, file_hash: String, cfg: &DetectorConfig) -> (r: LocalAnalysis)
    requires
        cfg.wf(),
    ensures
        summarizes(
            r,
            audio.samples@,
            audio.sample_rate,
            audio.channels,
            audio.bits_per_sample,
            audio.full_scale,
            audio.dropped as nat,
            file_hash@,
            *cfg,
        ),
{
    let stats = measure(audio.samples.as_slice(), audio.full_scale, cfg.quiet_ppm);
    let splices = detect_splices(audio.samples.as_slice(), audio.sample_rate, audio.full_scale, cfg);
    let waveform = generate_waveform(audio.samples.as_slice(), WAVEFORM_POINTS);
    LocalAnalysis {
        metadata: AudioMetadata {
            sample_count: audio.samples.len(),
            sample_rate: audio.sample_rate,
            channels: audio.channels,
            bits_per_sample: audio.bits_per_sample,
            file_hash,
        },
        full_scale: audio.full_scale,
        square_sum: stats.square_sum,
        peak_amplitude: stats.peak,
        silent_count: stats.quiet_count,
        dropped_samples: audio.dropped,
        splice_positions: splices,
        waveform_data: waveform,
    }
}

/// The standard thresholds, as values.
pub open spec fn standard_config() -> DetectorConfig {
    DetectorConfig {
        windows_per_second: 100,
        jump_ppm: 150_000,
        energy_floor_ppm: 10_000,
        quiet_ppm: 10_000,
    }
}

/// What the whole pipeline gives for the base64 text `text`: the decoder's
/// error as an envelope error; the decoding errors of `decode_outcome`; or
/// the analysis of the decoded samples, fingerprinted by the SHA-256 of the
/// decoded bytes.
pub open spec fn pipeline_outcome(text: Seq<char>, r: Result<LocalAnalysis, AnalysisError>) -> bool {
    match base64_decoded(text) {
        Err(m) => match r {
            Err(AnalysisError::Envelope(t)) => t@ == m,
            _ => false,
        },
        Ok(b) => match wav_header(b) {
            Err(m) => unsupported_with(r, m),
            Ok(h) => {
                let slots = sample_slots(b, h);
                if h.0 == 0 {
                    unsupported_with(r, zero_rate_text())
                } else if present(slots).len() == 0 {
                    r matches Err(AnalysisError::EmptyAudio)
                } else {
                    r is Ok && summarizes(
                        r->Ok_0,
                        present(slots),
                        h.0,
                        h.1,
                        h.2,
                        full_scale_of(h) as u32,
                        missing(slots),
                        lower_hex(sha256_digest(b)),
                        standard_config(),
                    )
                }
            },
        },
    }
}

/// Analyzes base64-encoded WAV audio locally, with the standard thresholds
/// and a waveform of `WAVEFORM_POINTS` points. Only a RIFF/WAVE container can
/// succeed.
pub fn analyze_audio_local(audio_base64: &str) -> (r: Result<LocalAnalysis, AnalysisError>)
    ensures
        pipeline_outcome(audio_base64@, r),
        r is Ok ==> (base64_decoded(audio_base64@) matches Ok(b) && is_riff_wave(b)),
        (base64_decoded(audio_base64@) matches Ok(b) && !is_riff_wave(b)) ==> r matches Err(
            AnalysisError::UnsupportedContainer(_),
        ),
        r is Ok ==> r->Ok_0.metadata.sample_rate > 0 && r->Ok_0.metadata.channels > 0,
{
    let bytes = match decode_envelope(audio_base64) {
        Ok(b) => b,
        Err(msg) => return Err(AnalysisError::Envelope(msg)),
    };
    let file_hash = compute_hash(bytes.as_slice());
    let audio = match decode_wav(bytes.as_slice()) {
        Ok(a) => a,
        Err(e) => return Err(e),
    };
    let cfg = DetectorConfig::standard();
    Ok(analyze_samples(audio, file_hash, &cfg))
}

/// The fingerprint is a function of the bytes: equal bytes give equal
/// digests.
pub proof fn lemma_hash_deterministic(a: Seq<u8>, b: Seq<u8>)
    requires
        a == b,
    ensures
        lower_hex(sha256_digest(a)) == lower_hex(sha256_digest(b)),
{
}

/// Two analyses hold the same values, field by field.
pub open spec fn same_analysis(a: LocalAnalysis, b: LocalAnalysis) -> bool {
    &&& a.metadata.sample_count == b.metadata.sample_count
    &&& a.metadata.sample_rate == b.metadata.sample_rate
    &&& a.metadata.channels == b.metadata.channels
    &&& a.metadata.bits_per_sample == b.metadata.bits_per_sample
    &&& a.metadata.file_hash@ == b.metadata.file_hash@
    &&& a.full_scale == b.full_scale
    &&& a.square_sum == b.square_sum
    &&& a.peak_amplitude == b.peak_amplitude
    &&& a.silent_count == b.silent_count
    &&& a.dropped_samples == b.dropped_samples
    &&& a.splice_positions@ == b.splice_positions@
    &&& a.waveform_data@ == b.waveform_data@
}

/// Two outcomes are the same result, or the same error with the same text.
pub open spec fn same_outcome(
    r1: Result<LocalAnalysis, AnalysisError>,
    r2: Result<LocalAnalysis, AnalysisError>,
) -> bool {
    match (r1, r2) {
        (Ok(a), Ok(b)) => same_analysis(a, b),
        (Err(AnalysisError::Envelope(x)), Err(AnalysisError::Envelope(y))) => x@ == y@,
        (
            Err(AnalysisError::UnsupportedContainer(x)),
            Err(AnalysisError::UnsupportedContainer(y)),
        ) => x@ == y@,
        (Err(AnalysisError::EmptyAudio), Err(AnalysisError::EmptyAudio)) => true,
        _ => false,
    }
}

/// A waveform is fixed by its samples and target.
proof fn lemma_waveform_unique(r1: Seq<WavePoint>, r2: Seq<WavePoint>, s: Seq<i32>, t: nat)
    requires
        is_waveform(r1, s, t),
        is_waveform(r2, s, t),
    ensures
        r1 == r2,
{
    let n = s.len();
    let c = crate::signal::chunk_len(n, t);
    if n > 0 && c > 0 {
        let l1 = r1.len();
        let l2 = r2.len();
        assert(l1 == l2) by (nonlinear_arith)
            requires
                l1 * c >= n,
                (l1 - 1) * c < n,
                l2 * c >= n,
                (l2 - 1) * c < n,
                c > 0,
        ;
    }
    assert(r1.len() == r2.len());
    assert forall|i: int| 0 <= i < r1.len() implies r1[i] == r2[i] by {
        if n > 0 && c > 0 {
            let e = crate::signal::chunk_end(n, c, i as nat);
            assert(r1[i].total == crate::signal::abs_sum(s, i * c, e));
            assert(r2[i].total == crate::signal::abs_sum(s, i * c, e));
        } else {
            assert(r1[i].total == s[i] && r2[i].total == s[i]);
        }
        assert(r1[i].total == r2[i].total && r1[i].count == r2[i].count);
    }
    assert(r1 =~= r2);
}

/// Analyses that summarize the same samples under the same parameters agree.
proof fn lemma_summary_unique(
    a: LocalAnalysis,
    b: LocalAnalysis,
    s: Seq<i32>,
    sample_rate: u32,
    channels: u16,
    bits_per_sample: u16,
    full_scale: u32,
    dropped: nat,
    hash: Seq<char>,
    cfg: DetectorConfig,
)
    requires
        summarizes(a, s, sample_rate, channels, bits_per_sample, full_scale, dropped, hash, cfg),
        summarizes(b, s, sample_rate, channels, bits_per_sample, full_scale, dropped, hash, cfg),
    ensures
        same_analysis(a, b),
{
    lemma_waveform_unique(a.waveform_data@, b.waveform_data@, s, WAVEFORM_POINTS as nat);
    let pa = a.splice_positions@;
    let pb = b.splice_positions@;
    assert(pa.len() == pa.map_values(|x: usize| x as int).len());
    assert forall|i: int| 0 <= i < pa.len() implies pa[i] == pb[i] by {
        assert(pa.map_values(|x: usize| x as int)[i] == pb.map_values(|x: usize| x as int)[i]);
    }
    assert(pa =~= pb);
}

/// The pipeline is deterministic: two runs on the same text give the same
/// analysis, or the same error with the same text.
pub proof fn lemma_pipeline_deterministic(
    text: Seq<char>,
    r1: Result<LocalAnalysis, AnalysisError>,
    r2: Result<LocalAnalysis, AnalysisError>,
)
    requires
        pipeline_outcome(text, r1),
        pipeline_outcome(text, r2),
    ensures
        same_outcome(r1, r2),
{
    if let Ok(b) = base64_decoded(text) {
        if let Ok(h) = wav_header(b) {
            let slots = sample_slots(b, h);
            if h.0 != 0 && present(slots).len() > 0 {
                lemma_summary_unique(
                    r1->Ok_0,
                    r2->Ok_0,
                    present(slots),
                    h.0,
                    h.1,
                    h.2,
                    full_scale_of(h) as u32,
                    missing(slots),
                    lower_hex(sha256_digest(b)),
                    standard_config(),
                );
            }
        }
    }
}

} // verus!
