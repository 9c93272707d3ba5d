//! From the bytes of a WAV container to integer samples.
//!
//! The container is parsed by `hound`. Integer samples are kept as hound reads
//! them, against a full scale of `2^(bits - 1)`, so the most negative value is
//! exactly -1 and the most positive just under +1. IEEE float samples are
//! taken from their bit patterns and held against a full scale of `2^24`:
//! a magnitude below `2^-24` becomes 0, and NaN, infinities and magnitudes of
//! 128 or more cannot be held, so such samples are dropped. Float samples are
//! read only in hound's one float layout, 32 bits in 4 bytes.
//! A sample that cannot be read is dropped and counted.
use vstd::prelude::*;
use vstd::arithmetic::power2::{pow2, lemma_pow2_unfold, lemma_pow2_pos, lemma_pow2_strictly_increases, lemma2_to64};
use vstd::arithmetic::div_mod::lemma_div_denominator;
use crate::signal::lemma_product_le;

verus! {

/// Full scale of samples decoded from IEEE floats.
pub const FLOAT_FULL_SCALE: u32 = 0x100_0000;

/// The little-endian 32-bit word at `pos`.
pub open spec fn le_word(b: Seq<u8>, pos: int) -> nat {
    b[pos] as nat + 0x100 * b[pos + 1] as nat + 0x1_0000 * b[pos + 2] as nat + 0x100_0000 * b[pos
        + 3] as nat
}

/// Magnitude of the IEEE single with biased exponent `e` and fraction `frac`,
/// times `2^24`, rounded toward zero. A subnormal is below `2^-126` and so
/// gives zero.
pub open spec fn float_magnitude(e: nat, frac: nat) -> nat {
    if e == 0 {
        0
    } else if e >= 126 {
        (0x80_0000 + frac) * pow2((e - 126) as nat)
    } else {
        (0x80_0000 + frac) / pow2((126 - e) as nat)
    }
}

/// The IEEE single with bit pattern `bits`, as a sample against
/// `FLOAT_FULL_SCALE`; `None` for infinities, NaN, and magnitudes of 128 or
/// more, which an `i32` sample cannot hold.
pub open spec fn float_fixed(bits: u32) -> Option<i32> {
    let e = (bits as nat / 0x80_0000) % 256;
    let frac = bits as nat % 0x80_0000;
    let m = float_magnitude(e, frac);
    if e == 255 || m >= 0x8000_0000 {
        None
    } else if bits as nat >= 0x8000_0000 {
        Some((-(m as int)) as i32)
    } else {
        Some(m as i32)
    }
}

/// Converts the bit pattern of an IEEE single to a sample (see `float_fixed`).
pub fn float_bits_to_fixed(bits: u32) -> (r: Option<i32>)
    ensures
        r == float_fixed(bits),
{
    let e: u32 = (bits / 0x80_0000) % 256;
    let frac: u32 = bits % 0x80_0000;
    if e == 255 {
        return None;
    }
    let base: u64 = 0x80_0000 + frac as u64;
    let mut m: u64 = 0;
    if e == 0 {
    } else if e >= 126 {
        if e > 133 {
            proof {
                lemma2_to64();
                if e > 134 {
                    lemma_pow2_strictly_increases(8, (e - 126) as nat);
                }
                lemma_product_le(0x80_0000, 256, base as nat, pow2((e - 126) as nat));
            }
            return None;
        }
        let k: u32 = e - 126;
        let mut i: u32 = 0;
        m = base;
        proof {
            lemma2_to64();
        }
        while i < k
            invariant
                i <= k <= 7,
                base < 0x100_0000,
                m == base * pow2(i as nat),
                pow2(i as nat) <= 128,
            decreases k - i,
        {
            proof {
                lemma_pow2_unfold(i as nat + 1);
                lemma2_to64();
                if i + 1 < 8 {
                    lemma_pow2_strictly_increases(i as nat + 1, 8);
                }
                lemma_product_le(base as nat, pow2(i as nat), 0x100_0000, 128);
            }
            m = m * 2;
            i = i + 1;
            proof {
                assert(m == base * pow2(i as nat)) by (nonlinear_arith)
                    requires
                        m == 2 * (base * pow2((i - 1) as nat)),
                        pow2(i as nat) == 2 * pow2((i - 1) as nat),
                ;
            }
        }
    } else {
        let k: u32 = 126 - e;
        let mut i: u32 = 0;
        m = base;
        proof {
            lemma2_to64();
        }
        while i < k
            invariant
                i <= k,
                m == base as nat / pow2(i as nat),
                m <= base,
            decreases k - i,
        {
            proof {
                lemma_pow2_unfold(i as nat + 1);
                lemma_pow2_pos(i as nat);
                lemma_div_denominator(base as int, pow2(i as nat) as int, 2);
            }
            m = m / 2;
            i = i + 1;
        }
    }
    assert(m == float_magnitude(e as nat, frac as nat));
    if m >= 0x8000_0000 {
        None
    } else if bits >= 0x8000_0000 {
        Some((-(m as i64)) as i32)
    } else {
        Some(m as i32)
    }
}

/// What the header of a WAV container declares, and where its samples start.
#[derive(Debug)]
pub struct WavHeader {
    pub sample_rate: u32,
    pub channels: u16,
    pub bits_per_sample: u16,
    /// Samples are IEEE floats rather than signed integers.
    pub is_float: bool,
    /// Number of samples, all channels together.
    pub sample_len: u32,
    /// Byte offset of the first sample.
    pub data_offset: u64,
}

impl WavHeader {
    pub open spec fn fields(&self) -> (u32, u16, u16, bool, u32, u64) {
        (self.sample_rate, self.channels, self.bits_per_sample, self.is_float, self.sample_len, self.data_offset)
    }
}

/// Whether `b` opens with the `RIFF` tag and names the `WAVE` form.
pub open spec fn is_riff_wave(b: Seq<u8>) -> bool {
    &&& b.len() >= 12
    &&& b[0] == 0x52u8 && b[1] == 0x49u8 && b[2] == 0x46u8 && b[3] == 0x46u8
    &&& b[8] == 0x57u8 && b[9] == 0x41u8 && b[10] == 0x56u8 && b[11] == 0x45u8
}

/// The header fields that hound reads from `b`, in the order of
/// `WavHeader::fields`; or the text of hound's error where it refuses the
/// container.
pub uninterp spec fn wav_header(b: Seq<u8>) -> Result<(u32, u16, u16, bool, u32, u64), Seq<char>>;

/// Relies on hound's `WavReader::new` on the bytes, then its `spec`, `len`
/// and the position of the cursor that `into_inner` hands back: the reader
/// stops at the first sample, just after the length word of the data chunk.
/// hound refuses a container without the RIFF and WAVE tags, with zero
/// channels or with zero bits per sample; the error is its `Display` text.
#[verifier::external_body]
pub(crate) fn open_wav(bytes: &[u8]) -> (r: Result<WavHeader, String>)
    ensures
        match r {
            Ok(h) => {
                &&& wav_header(bytes@) == Ok::<(u32, u16, u16, bool, u32, u64), Seq<char>>(h.fields())
                &&& is_riff_wave(bytes@)
                &&& h.channels > 0
                &&& h.bits_per_sample > 0
            },
            Err(m) => wav_header(bytes@) == Err::<(u32, u16, u16, bool, u32, u64), Seq<char>>(m@),
        },
{
    let reader = hound::WavReader::new(std::io::Cursor::new(bytes)).map_err(|e| e.to_string())?;
    let spec = reader.spec();
    let sample_len = reader.len();
    let is_float = match spec.sample_format {
        hound::SampleFormat::Float => true,
        hound::SampleFormat::Int => false,
    };
    let data_offset = reader.into_inner().position();
    let (sample_rate, channels, bits_per_sample) = (spec.sample_rate, spec.channels, spec.bits_per_sample);
    Ok(WavHeader { sample_rate, channels, bits_per_sample, is_float, sample_len, data_offset })
}

/// Each integer sample that hound yields from `b`, `None` where reading one
/// failed.
pub uninterp spec fn wav_int_samples(b: Seq<u8>) -> Seq<Option<i32>>;

/// Relies on hound's `WavReader::into_samples::<i32>`, each result kept as
/// an `Option`; no samples where `WavReader::new` refuses the bytes.
#[verifier::external_body]
pub(crate) fn read_int_samples(bytes: &[u8]) -> (r: Vec<Option<i32>>)
    ensures
        r@ == wav_int_samples(bytes@),
{
    match hound::WavReader::new(std::io::Cursor::new(bytes)) {
        Ok(reader) => reader.into_samples::<i32>().map(|s| s.ok()).collect(),
        Err(_) => Vec::new(),
    }
}

/// The samples that were read, in order.
pub open spec fn present(s: Seq<Option<i32>>) -> Seq<i32>
    decreases s.len(),
{
    if s.len() == 0 {
        Seq::empty()
    } else {
        let p = present(s.drop_last());
        match s.last() {
            Some(x) => p.push(x),
            None => p,
        }
    }
}

/// The number of samples that could not be read.
pub open spec fn missing(s: Seq<Option<i32>>) -> nat
    decreases s.len(),
{
    if s.len() == 0 {
        0
    } else {
        missing(s.drop_last()) + if s.last() is None {
            1nat
        } else {
            0nat
        }
    }
}

/// Float samples: `len` little-endian words from `offset`; one that runs past
/// the end of `b`, or is not a number that a sample holds, is `None`.
pub open spec fn float_slots(b: Seq<u8>, offset: nat, len: nat) -> Seq<Option<i32>> {
    Seq::new(
        len,
        |k: int|
            if offset + 4 * k + 4 <= b.len() {
                float_fixed(le_word(b, offset + 4 * k) as u32)
            } else {
                None
            },
    )
}

/// Full scale of integer samples of `bits` bits, capped at 32.
pub open spec fn int_full_scale(bits: nat) -> nat {
    if bits >= 32 {
        pow2(31)
    } else {
        pow2((bits - 1) as nat)
    }
}

/// Whether the float samples of `b` under header `h` are 32-bit values in
/// 4-byte slots: 32 bits per sample, and a data chunk, whose length word
/// comes just before the first sample, of exactly 4 bytes per sample. hound
/// reads a float sample in no other layout.
pub open spec fn float_readable(b: Seq<u8>, h: (u32, u16, u16, bool, u32, u64)) -> bool {
    &&& h.2 == 32
    &&& 4 <= h.5 <= b.len()
    &&& le_word(b, h.5 - 4) == 4 * h.4
}

/// The raw sample slots of `b` under header `h`; none for float samples in a
/// layout that cannot be read.
pub open spec fn sample_slots(b: Seq<u8>, h: (u32, u16, u16, bool, u32, u64)) -> Seq<Option<i32>> {
    if h.3 {
        if float_readable(b, h) {
            float_slots(b, h.5 as nat, h.4 as nat)
        } else {
            Seq::empty()
        }
    } else {
        wav_int_samples(b)
    }
}

/// Full scale of the samples under header `h`.
pub open spec fn full_scale_of(h: (u32, u16, u16, bool, u32, u64)) -> nat {
    if h.3 {
        FLOAT_FULL_SCALE as nat
    } else {
        int_full_scale(h.2 as nat)
    }
}

/// Whether the float samples that `h` announces can be read (see
/// `float_readable`).
pub(crate) fn float_layout_ok(bytes: &[u8], h: &WavHeader) -> (r: bool)
    ensures
        r == float_readable(bytes@, h.fields()),
{
    if h.bits_per_sample != 32 || h.data_offset < 4 || h.data_offset > bytes.len() as u64 {
        return false;
    }
    let p = (h.data_offset - 4) as usize;
    let word: u64 = bytes[p] as u64 + 0x100 * (bytes[p + 1] as u64) + 0x1_0000 * (bytes[p + 2] as u64)
        + 0x100_0000 * (bytes[p + 3] as u64);
    word == 4 * (h.sample_len as u64)
}

/// Reads the float samples that the header announces.
pub(crate) fn read_float_samples(bytes: &[u8], offset: u64, len: u32) -> (r: Vec<Option<i32>>)
    ensures
        r@ == float_slots(bytes@, offset as nat, len as nat),
{
    let mut out: Vec<Option<i32>> = Vec::new();
    let mut k: u32 = 0;
    while k < len
        invariant
            k <= len,
            out@ =~= float_slots(bytes@, offset as nat, len as nat).subrange(0, k as int),
        decreases len - k,
    {
        let start: u128 = offset as u128 + 4 * (k as u128);
        let v = if start + 4 <= bytes.len() as u128 {
            let p = start as usize;
            let word: u32 = bytes[p] as u32 + 0x100 * (bytes[p + 1] as u32) + 0x1_0000 * (
            bytes[p + 2] as u32) + 0x100_0000 * (bytes[p + 3] as u32);
            float_bits_to_fixed(word)
        } else {
            None
        };
        out.push(v);
        k = k + 1;
    }
    out
}

/// `2^(bits - 1)`, with `bits` capped at 32.
pub(crate) fn int_scale(bits: u16) -> (r: u32)
    requires
        bits > 0,
    ensures
        r == int_full_scale(bits as nat),
{
    let top: u16 = if bits >= 32 { 31 } else { bits - 1 };
    let mut r: u32 = 1;
    let mut i: u16 = 0;
    proof {
        lemma2_to64();
    }
    while i < top
        invariant
            i <= top <= 31,
            r == pow2(i as nat),
        decreases top - i,
    {
        proof {
            lemma_pow2_unfold(i as nat + 1);
            lemma_pow2_strictly_increases(i as nat + 1, 32);
            lemma2_to64();
        }
        r = r * 2;
        i = i + 1;
    }
    r
}

/// Keeps the samples that were read and counts the others.
pub(crate) fn keep_present(slots: &Vec<Option<i32>>) -> (r: (Vec<i32>, usize))
    ensures
        r.0@ == present(slots@),
        r.1 == missing(slots@),
{
    let mut kept: Vec<i32> = Vec::new();
    let mut lost: usize = 0;
    let mut i: usize = 0;
    while i < slots.len()
        invariant
            i <= slots@.len(),
            kept@ == present(slots@.subrange(0, i as int)),
            lost == missing(slots@.subrange(0, i as int)),
            lost <= i,
        decreases slots@.len() - i,
    {
        proof {
            assert(slots@.subrange(0, i as int + 1).drop_last() =~= slots@.subrange(0, i as int));
        }
        match slots[i] {
            Some(x) => kept.push(x),
            None => lost = lost + 1,
        }
        i = i + 1;
    }
    proof {
        assert(slots@.subrange(0, slots@.len() as int) =~= slots@);
    }
    (kept, lost)
}

} // verus!
