//! Statistics over a sequence of integer samples.
//!
//! A sample is an `i32` measured against a full-scale value of the sequence:
//! the normalized amplitude of `x` is `x / full_scale`. Every threshold is a
//! fraction of full scale, given in parts per million, so each comparison of
//! the detector is made exactly, on integers.
use vstd::prelude::*;

verus! {

/// Parts per million: the unit of every threshold below.
pub const PPM: u64 = 1_000_000;

/// Magnitude of a sample.
pub open spec fn mag(x: i32) -> nat {
    if x < 0 {
        (-(x as int)) as nat
    } else {
        x as nat
    }
}

/// Sum of the magnitudes of `s[lo..hi]`.
pub open spec fn abs_sum(s: Seq<i32>, lo: int, hi: int) -> nat
    decreases hi - lo,
{
    if hi <= lo {
        0
    } else {
        abs_sum(s, lo, hi - 1) + mag(s[hi - 1])
    }
}

/// Sum of the squares of all samples.
pub open spec fn square_sum(s: Seq<i32>) -> nat
    decreases s.len(),
{
    if s.len() == 0 {
        0
    } else {
        square_sum(s.drop_last()) + mag(s.last()) * mag(s.last())
    }
}

/// Largest magnitude of a sample; zero for no samples.
pub open spec fn peak_of(s: Seq<i32>) -> nat
    decreases s.len(),
{
    if s.len() == 0 {
        0
    } else {
        let p = peak_of(s.drop_last());
        let m = mag(s.last());
        if m > p {
            m
        } else {
            p
        }
    }
}

/// Whether a sample lies strictly below `threshold_ppm` of full scale.
pub open spec fn is_quiet(x: i32, full_scale: nat, threshold_ppm: nat) -> bool {
    PPM as int * mag(x) < threshold_ppm * full_scale
}

/// Number of samples strictly below `threshold_ppm` of full scale.
pub open spec fn quiet_count(s: Seq<i32>, full_scale: nat, threshold_ppm: nat) -> nat
    decreases s.len(),
{
    if s.len() == 0 {
        0
    } else {
        quiet_count(s.drop_last(), full_scale, threshold_ppm) + if is_quiet(
            s.last(),
            full_scale,
            threshold_ppm,
        ) {
            1nat
        } else {
            0nat
        }
    }
}

/// A product grows with its factors.
pub proof fn lemma_product_le(a: nat, b: nat, x: nat, y: nat)
    requires
        a <= x,
        b <= y,
    ensures
        a * b <= x * y,
{
    assert(a * b <= x * y) by (nonlinear_arith)
        requires
            a <= x,
            b <= y,
    ;
}

pub proof fn lemma_mag_bound(x: i32)
    ensures
        mag(x) <= 0x8000_0000,
{
}

/// Each sample adds at most 2^31 to a sum of magnitudes.
pub proof fn lemma_abs_sum_bound(s: Seq<i32>, lo: int, hi: int)
    ensures
        abs_sum(s, lo, hi) <= if hi <= lo {
            0
        } else {
            (hi - lo) * 0x8000_0000
        },
    decreases hi - lo,
{
    if hi > lo {
        lemma_abs_sum_bound(s, lo, hi - 1);
        lemma_mag_bound(s[hi - 1]);
    }
}

/// Sum of the magnitudes of `s[lo..hi]`, computed exactly.
pub fn magnitude_sum(s: &[i32], lo: usize, hi: usize) -> (r: u128)
    requires
        lo <= hi <= s@.len(),
    ensures
        r == abs_sum(s@, lo as int, hi as int),
{
    let mut acc: u128 = 0;
    let mut i: usize = lo;
    while i < hi
        invariant
            lo <= i <= hi <= s@.len(),
            acc == abs_sum(s@, lo as int, i as int),
        decreases hi - i,
    {
        proof {
            lemma_abs_sum_bound(s@, lo as int, i as int + 1);
            assert((i + 1 - lo) * 0x8000_0000 <= 0x1_0000_0000_0000_0000 * 0x8000_0000)
                by (nonlinear_arith)
                requires
                    i + 1 - lo <= 0x1_0000_0000_0000_0000,
            ;
        }
        acc = acc + magnitude(s[i]) as u128;
        i = i + 1;
    }
    acc
}

/// Magnitude of one sample.
pub fn magnitude(x: i32) -> (r: u32)
    ensures
        r == mag(x),
{
    if x < 0 {
        ((-(x as i64)) as u64) as u32
    } else {
        x as u32
    }
}


/// Whole-sequence measurements, exact in integer units of the samples.
#[derive(Debug)]
pub struct SignalStats {
    /// Sum of the squares of all samples; the mean square is this over the count.
    pub square_sum: u128,
    /// Largest magnitude of a sample.
    pub peak: u32,
    /// Samples strictly below the quiet threshold.
    pub quiet_count: usize,
}

/// Measures square sum, peak and quiet samples of `s` in one pass.
pub fn measure(s: &[i32], full_scale: u32, quiet_ppm: u32) -> (r: SignalStats)
    ensures
        r.square_sum == square_sum(s@),
        r.peak == peak_of(s@),
        r.quiet_count == quiet_count(s@, full_scale as nat, quiet_ppm as nat),
{
    let mut sq: u128 = 0;
    let mut peak: u32 = 0;
    let mut quiet: usize = 0;
    let mut i: usize = 0;
    while i < s.len()
        invariant
            i <= s@.len(),
            sq == square_sum(s@.subrange(0, i as int)),
            sq <= i * 0x4000_0000_0000_0000,
            peak == peak_of(s@.subrange(0, i as int)),
            quiet == quiet_count(s@.subrange(0, i as int), full_scale as nat, quiet_ppm as nat),
            quiet <= i,
        decreases s@.len() - i,
    {
        let m = magnitude(s[i]);
        proof {
            assert(s@.subrange(0, i as int + 1).drop_last() =~= s@.subrange(0, i as int));
            lemma_mag_bound(s[i as int]);
            lemma_product_le(m as nat, m as nat, 0x8000_0000, 0x8000_0000);
            lemma_product_le(i as nat, 0x4000_0000_0000_0000, 0x1_0000_0000_0000_0000, 0x4000_0000_0000_0000);
            lemma_product_le(PPM as nat, m as nat, PPM as nat, 0x8000_0000);
            lemma_product_le(quiet_ppm as nat, full_scale as nat, 0xffff_ffff, 0xffff_ffff);
        }
        sq = sq + (m as u128) * (m as u128);
        if m > peak {
            peak = m;
        }
        if (PPM as u128) * (m as u128) < (quiet_ppm as u128) * (full_scale as u128) {
            quiet = quiet + 1;
        }
        i = i + 1;
    }
    proof {
        assert(s@.subrange(0, s@.len() as int) =~= s@);
    }
    SignalStats { square_sum: sq, peak, quiet_count: quiet }
}

/// Tunable thresholds of the statistics and of the edit detector.
#[derive(Debug)]
pub struct DetectorConfig {
    /// Windows per second of audio; a window is `sample_rate / windows_per_second`
    /// samples, and at least one.
    pub windows_per_second: u32,
    /// Smallest change of mean magnitude between neighbouring windows, exclusive.
    pub jump_ppm: u32,
    /// Mean magnitude that the window before a boundary must exceed.
    pub energy_floor_ppm: u32,
    /// Magnitude below which a sample counts as quiet.
    pub quiet_ppm: u32,
}

impl DetectorConfig {
    pub open spec fn wf(&self) -> bool {
        self.windows_per_second > 0
    }

    /// Ten-millisecond windows, a jump of 0.15, an energy floor and a quiet
    /// threshold of 0.01, all relative to full scale.
    pub fn standard() -> (r: DetectorConfig)
        ensures
            r.wf(),
            r.windows_per_second == 100,
            r.jump_ppm == 150_000,
            r.energy_floor_ppm == 10_000,
            r.quiet_ppm == 10_000,
    {
        DetectorConfig {
            windows_per_second: 100,
            jump_ppm: 150_000,
            energy_floor_ppm: 10_000,
            quiet_ppm: 10_000,
        }
    }
}

/// Samples per detector window.
pub open spec fn window_len(sample_rate: nat, windows_per_second: nat) -> nat {
    if sample_rate / windows_per_second == 0 {
        1
    } else {
        sample_rate / windows_per_second
    }
}

/// Number of window boundaries `w, 2w, ...` strictly inside `n` samples.
pub open spec fn boundary_count(n: nat, w: nat) -> nat {
    if n == 0 {
        0
    } else {
        ((n - 1) / (w as int)) as nat
    }
}

/// Whether the boundary at sample `i` is an edit candidate: the mean magnitude
/// of the window after `i` (clipped at the end of the samples, and averaged
/// over the samples it keeps) differs from the mean magnitude of the window
/// before `i` by more than the jump threshold, and the window before is above
/// the energy floor. Both means are compared over the common denominator
/// `w * len_after`.
pub open spec fn is_cut(s: Seq<i32>, w: nat, full_scale: nat, jump_ppm: nat, floor_ppm: nat, i: int) -> bool {
    let end = if i + w < s.len() {
        i + w
    } else {
        s.len() as int
    };
    let len_after = end - i;
    let before = abs_sum(s, i - w, i) as int;
    let after = abs_sum(s, i, end) as int;
    let diff = if after * w >= before * len_after {
        after * w - before * len_after
    } else {
        before * len_after - after * w
    };
    PPM as int * diff > jump_ppm * w * len_after * full_scale && PPM as int * before > floor_ppm * w
        * full_scale
}

/// The edit candidates among the first `k` boundaries, in order.
pub open spec fn cuts_upto(
    s: Seq<i32>,
    w: nat,
    full_scale: nat,
    jump_ppm: nat,
    floor_ppm: nat,
    k: nat,
) -> Seq<int>
    decreases k,
{
    if k == 0 {
        Seq::empty()
    } else {
        let prev = cuts_upto(s, w, full_scale, jump_ppm, floor_ppm, (k - 1) as nat);
        let i = (k * w) as int;
        if is_cut(s, w, full_scale, jump_ppm, floor_ppm, i) {
            prev.push(i)
        } else {
            prev
        }
    }
}

/// All edit candidates of `s`, as sample indices.
pub open spec fn edit_candidates(s: Seq<i32>, sample_rate: nat, full_scale: nat, cfg: DetectorConfig) -> Seq<int> {
    let w = window_len(sample_rate, cfg.windows_per_second as nat);
    cuts_upto(s, w, full_scale, cfg.jump_ppm as nat, cfg.energy_floor_ppm as nat, boundary_count(s.len(), w))
}

/// Finds the window boundaries where the mean magnitude jumps (see `is_cut`).
/// Each candidate is the sample index of its boundary; its time in seconds is
/// that index over the sample rate.
pub fn detect_splices(s: &[i32], sample_rate: u32, full_scale: u32, cfg: &DetectorConfig) -> (r: Vec<usize>)
    requires
        cfg.wf(),
    ensures
        r@.map_values(|x: usize| x as int) == edit_candidates(s@, sample_rate as nat, full_scale as nat, *cfg),
{
    let n = s.len();
    let q = sample_rate / cfg.windows_per_second;
    let w: usize = if q == 0 { 1 } else { q as usize };
    let k: usize = if n == 0 { 0 } else { (n - 1) / w };
    let ghost sw = window_len(sample_rate as nat, cfg.windows_per_second as nat);
    assert(w == sw);
    let ghost fs = full_scale as nat;
    proof {
        if n > 0 {
            assert(k * w <= n - 1) by (nonlinear_arith)
                requires
                    k == (n - 1) / (w as int),
                    n >= 1,
                    w >= 1,
            ;
        }
    }
    let mut out: Vec<usize> = Vec::new();
    let mut j: usize = 1;
    while j <= k
        invariant
            1 <= j <= k + 1,
            w == sw,
            fs == full_scale as nat,
            1 <= w <= 0xffff_ffff,
            k == boundary_count(n as nat, w as nat),
            n == s@.len(),
            k * w <= n,
            k == 0 || k * w < n,
            out@.map_values(|x: usize| x as int) == cuts_upto(
                s@,
                w as nat,
                fs,
                cfg.jump_ppm as nat,
                cfg.energy_floor_ppm as nat,
                (j - 1) as nat,
            ),
        decreases k + 1 - j,
    {
        proof {
            lemma_product_le(j as nat, w as nat, k as nat, w as nat);
            assert(j * w >= w) by (nonlinear_arith)
                requires
                    j >= 1,
                    w >= 1,
            ;
        }
        let i = j * w;
        let end = if w < n - i { i + w } else { n };
        let before = magnitude_sum(s, i - w, i);
        let after = magnitude_sum(s, i, end);
        let len_after = end - i;
        proof {
            lemma_abs_sum_bound(s@, i - w, i as int);
            lemma_abs_sum_bound(s@, i as int, end as int);
            assert(1 <= len_after <= w);
            let wb: nat = 0xffff_ffff;
            lemma_product_le(after as nat, w as nat, (len_after * 0x8000_0000) as nat, wb);
            lemma_product_le((len_after * 0x8000_0000) as nat, wb, wb * 0x8000_0000, wb);
            lemma_product_le(before as nat, len_after as nat, (w * 0x8000_0000) as nat, wb);
            lemma_product_le((w * 0x8000_0000) as nat, wb, wb * 0x8000_0000, wb);
        }
        let cross_after = after * (w as u128);
        let cross_before = before * (len_after as u128);
        let diff = if cross_after >= cross_before {
            cross_after - cross_before
        } else {
            cross_before - cross_after
        };
        proof {
            let wb: nat = 0xffff_ffff;
            lemma_product_le(PPM as nat, before as nat, PPM as nat, wb * 0x8000_0000);
            lemma_product_le(PPM as nat, diff as nat, PPM as nat, wb * 0x8000_0000 * wb);
            lemma_product_le(cfg.jump_ppm as nat, w as nat, wb, wb);
            lemma_product_le(cfg.jump_ppm as nat * w as nat, len_after as nat, wb * wb, wb);
            lemma_product_le(
                cfg.jump_ppm as nat * w as nat * len_after as nat,
                full_scale as nat,
                wb * wb * wb,
                wb,
            );
            lemma_product_le(cfg.energy_floor_ppm as nat, w as nat, wb, wb);
            lemma_product_le(cfg.energy_floor_ppm as nat * w as nat, full_scale as nat, wb * wb, wb);
        }
        let wide = w as u128;
        let jump_limit = (cfg.jump_ppm as u128) * wide * (len_after as u128) * (full_scale as u128);
        let floor_limit = (cfg.energy_floor_ppm as u128) * wide * (full_scale as u128);
        let scaled_diff = (PPM as u128) * diff;
        let scaled_before = (PPM as u128) * before;
        let cut = scaled_diff > jump_limit && scaled_before > floor_limit;
        proof {
            assert(cut == is_cut(s@, w as nat, fs, cfg.jump_ppm as nat, cfg.energy_floor_ppm as nat, i as int));
        }
        if cut {
            out.push(i);
        }
        proof {
            assert(out@.map_values(|x: usize| x as int) =~= cuts_upto(
                s@,
                w as nat,
                fs,
                cfg.jump_ppm as nat,
                cfg.energy_floor_ppm as nat,
                j as nat,
            ));
        }
        j = j + 1;
    }
    out
}

/// One point of a reduced waveform: the exact value `total / count` in sample
/// units.
#[derive(Debug)]
pub struct WavePoint {
    pub total: i128,
    pub count: usize,
}

/// Samples per waveform chunk: `n / target`, with a target of zero read as one.
pub open spec fn chunk_len(n: nat, target: nat) -> nat {
    if target == 0 {
        n
    } else {
        n / target
    }
}

/// End of chunk `m` of size `c` over `n` samples; the last chunk is clipped.
pub open spec fn chunk_end(n: nat, c: nat, m: nat) -> int {
    if (m + 1) * c < n {
        ((m + 1) * c) as int
    } else {
        n as int
    }
}

/// Whether `r` is the waveform of `s` for `target` points (see
/// `generate_waveform`).
pub open spec fn is_waveform(r: Seq<WavePoint>, s: Seq<i32>, target: nat) -> bool {
    let n = s.len();
    let c = chunk_len(n, target);
    &&& n == 0 ==> r.len() == 0
    &&& n > 0 && c == 0 ==> r.len() == n && forall|i: int|
        0 <= i < n ==> r[i].total == s[i] && r[i].count == 1
    &&& n > 0 && c > 0 ==> {
        &&& r.len() > 0
        &&& r.len() * c >= n
        &&& (r.len() - 1) * c < n
        &&& forall|m: int|
            0 <= m < r.len() ==> r[m].total == abs_sum(s, m * c, chunk_end(n, c, m as nat))
                && r[m].count == chunk_end(n, c, m as nat) - m * c
    }
}

/// Reduces `s` to about `target` points for display. Each point is the mean
/// magnitude of one chunk of `s.len() / target` samples, in order, with a
/// shorter final chunk for the remainder. Where that chunk size is zero the
/// samples are returned as they are, one point each; no samples give no
/// points.
pub fn generate_waveform(s: &[i32], target: usize) -> (r: Vec<WavePoint>)
    ensures
        is_waveform(r@, s@, target as nat),
{
    let n = s.len();
    let mut out: Vec<WavePoint> = Vec::new();
    if n == 0 {
        return out;
    }
    let c: usize = if target == 0 { n } else { n / target };
    if c == 0 {
        let mut i: usize = 0;
        while i < n
            invariant
                i <= n == s@.len(),
                out@.len() == i,
                forall|k: int| 0 <= k < i ==> out@[k].total == s@[k] && out@[k].count == 1,
            decreases n - i,
        {
            out.push(WavePoint { total: s[i] as i128, count: 1 });
            i = i + 1;
        }
        return out;
    }
    let mut lo: usize = 0;
    let mut m: usize = 0;
    while lo < n
        invariant
            n == s@.len(),
            c == chunk_len(n as nat, target as nat),
            0 < c,
            lo == (if m * c < n { m * c } else { n as int }),
            out@.len() == m,
            forall|k: int|
                0 <= k < m ==> out@[k].total == abs_sum(s@, k * c, chunk_end(n as nat, c as nat, k as nat))
                    && out@[k].count == chunk_end(n as nat, c as nat, k as nat) - k * c,
            m > 0 ==> (m - 1) * c < n,
        decreases n - lo,
    {
        let hi: usize = if c < n - lo { lo + c } else { n };
        proof {
            assert((m + 1) * c == m * c + c) by (nonlinear_arith);
            assert(m <= m * c) by (nonlinear_arith)
                requires
                    c >= 1,
            ;
            assert(hi == chunk_end(n as nat, c as nat, m as nat));
            lemma_abs_sum_bound(s@, lo as int, hi as int);
        }
        let total = magnitude_sum(s, lo, hi);
        out.push(WavePoint { total: total as i128, count: hi - lo });
        lo = hi;
        m = m + 1;
    }
    out
}

/// The silence ratio lies in `[0, 1]`: at most every sample is quiet; and the
/// peak is a magnitude, never negative.
pub proof fn lemma_silence_ratio_bounded(s: Seq<i32>, full_scale: nat, threshold_ppm: nat)
    ensures
        quiet_count(s, full_scale, threshold_ppm) <= s.len(),
        peak_of(s) >= 0,
    decreases s.len(),
{
    if s.len() > 0 {
        lemma_silence_ratio_bounded(s.drop_last(), full_scale, threshold_ppm);
    }
}

/// The RMS level is at most the peak amplitude: the mean of the squares is at
/// most the square of the peak, `square_sum(s) <= s.len() * peak^2`.
pub proof fn lemma_rms_at_most_peak(s: Seq<i32>)
    ensures
        square_sum(s) <= s.len() * (peak_of(s) * peak_of(s)),
    decreases s.len(),
{
    if s.len() > 0 {
        let t = s.drop_last();
        lemma_rms_at_most_peak(t);
        let p = peak_of(s);
        let q = peak_of(t);
        let m = mag(s.last());
        assert(q <= p && m <= p);
        lemma_product_le(q, q, p, p);
        lemma_product_le(m, m, p, p);
        lemma_product_le(t.len(), q * q, t.len(), p * p);
        assert(s.len() * (p * p) == t.len() * (p * p) + p * p) by (nonlinear_arith)
            requires
                s.len() == t.len() + 1,
        ;
    }
}

/// Length of the reduced waveform, for a positive target `t` and `n`
/// samples: `n` where `n < t`, and otherwise at least `t` points, exactly
/// `t` where `t` divides `n`. (With a remainder the chunks of `n / t` samples
/// may number more than `t`: 7 samples and a target of 3 give 4 points.)
pub proof fn lemma_waveform_length(r: Seq<WavePoint>, s: Seq<i32>, t: nat)
    requires
        is_waveform(r, s, t),
        t > 0,
    ensures
        s.len() < t ==> r.len() == s.len(),
        s.len() >= t ==> r.len() >= t,
        s.len() >= t && s.len() % t == 0 ==> r.len() == t,
{
    let n = s.len();
    if n >= t {
        let c = n / t;
        assert(c >= 1) by (nonlinear_arith)
            requires
                n >= t,
                t > 0,
                c == n / t,
        ;
        assert(t * c <= n) by (nonlinear_arith)
            requires
                t > 0,
                c == n / t,
        ;
        let l = r.len();
        assert(l >= t) by (nonlinear_arith)
            requires
                l * c >= n,
                t * c <= n,
                c >= 1,
        ;
        if n % t == 0 {
            assert(t * c == n) by (nonlinear_arith)
                requires
                    t > 0,
                    c == n / t,
                    n % t == 0,
            ;
            assert(l <= t) by (nonlinear_arith)
                requires
                    (l - 1) * c < n,
                    t * c == n,
                    c >= 1,
            ;
        }
    } else if n > 0 {
        assert(n / t == 0) by (nonlinear_arith)
            requires
                n < t,
        ;
    }
}

/// Magnitudes of silent samples sum to zero.
proof fn lemma_silent_abs_sum(s: Seq<i32>, lo: int, hi: int)
    requires
        forall|i: int| 0 <= i < s.len() ==> s[i] == 0,
        0 <= lo,
        hi <= s.len(),
    ensures
        abs_sum(s, lo, hi) == 0,
    decreases hi - lo,
{
    if hi > lo {
        lemma_silent_abs_sum(s, lo, hi - 1);
    }
}

/// No boundary of a silent signal is an edit candidate.
proof fn lemma_silent_cuts(s: Seq<i32>, w: nat, full_scale: nat, jump_ppm: nat, floor_ppm: nat, k: nat)
    requires
        forall|i: int| 0 <= i < s.len() ==> s[i] == 0,
        w >= 1,
        k * w < s.len() || k == 0,
    ensures
        cuts_upto(s, w, full_scale, jump_ppm, floor_ppm, k) == Seq::<int>::empty(),
    decreases k,
{
    if k > 0 {
        let i = (k * w) as int;
        assert((k - 1) * w < s.len() || k - 1 == 0) by (nonlinear_arith)
            requires
                k * w < s.len(),
                w >= 1,
                k >= 1,
        ;
        assert(i >= w) by (nonlinear_arith)
            requires
                i == k * w,
                k >= 1,
        ;
        lemma_silent_cuts(s, w, full_scale, jump_ppm, floor_ppm, (k - 1) as nat);
        lemma_silent_abs_sum(s, i - w, i);
        assert(floor_ppm * w * full_scale >= 0) by (nonlinear_arith);
        assert(!is_cut(s, w, full_scale, jump_ppm, floor_ppm, i));
    }
}

/// A silent signal, every sample zero, has no energy and no peak, every
/// sample is quiet (for a positive threshold), and it has no edit candidate.
pub proof fn lemma_silent_signal(s: Seq<i32>, sample_rate: nat, full_scale: nat, cfg: DetectorConfig)
    requires
        forall|i: int| 0 <= i < s.len() ==> s[i] == 0,
        full_scale > 0,
        cfg.quiet_ppm > 0,
        cfg.wf(),
    ensures
        square_sum(s) == 0,
        peak_of(s) == 0,
        quiet_count(s, full_scale, cfg.quiet_ppm as nat) == s.len(),
        edit_candidates(s, sample_rate, full_scale, cfg) == Seq::<int>::empty(),
    decreases s.len(),
{
    if s.len() > 0 {
        let t = s.drop_last();
        assert forall|i: int| 0 <= i < t.len() implies t[i] == 0 by {
            assert(t[i] == s[i]);
        }
        lemma_silent_signal(t, sample_rate, full_scale, cfg);
        assert(s.last() == s[s.len() - 1]);
        assert(mag(s.last()) == 0);
        assert(mag(s.last()) * mag(s.last()) == 0);
        assert(cfg.quiet_ppm as nat * full_scale > 0) by (nonlinear_arith)
            requires
                cfg.quiet_ppm > 0,
                full_scale > 0,
        ;
        let w = window_len(sample_rate, cfg.windows_per_second as nat);
        let k = boundary_count(s.len(), w);
        assert(k * w < s.len() || k == 0) by (nonlinear_arith)
            requires
                w >= 1,
                s.len() >= 1,
                k == (s.len() - 1) / (w as int),
        ;
        lemma_silent_cuts(s, w, full_scale, cfg.jump_ppm as nat, cfg.energy_floor_ppm as nat, k);
    }
}

} // verus!
