//! The integer side of recording and playback: combining oversampled ADC
//! readings, calibration and saturation statistics, debug captures, the
//! control decisions of the sample loops, and the human-readable names of the
//! hardware modes.

use vstd::prelude::*;
use vstd::relations::{sorted_by, total_ordering};

use crate::button::ButtonEvent;
use crate::pcm::trunc_div;

verus! {

/// ADC readings at or below this value count as saturated low.
pub const ADC_SATURATION_LOW: i32 = 8;

/// ADC readings at or above this value count as saturated high.
pub const ADC_SATURATION_HIGH: i32 = 4087;

/// Samples between two polls of the button while recording.
pub const BUTTON_POLL_EVERY_SAMPLES: usize = 32;

/// Samples between two yields to the scheduler.
pub const YIELD_EVERY_SAMPLES: usize = 128;

/// One stored sample of the microphone input: the (trimmed) means of the two
/// ADC channels and of the signal derived from them.
#[derive(Debug, Clone, Copy, PartialEq, Eq, Structural)]
pub struct RawSample {
    pub raw_a: i32,
    pub raw_b: i32,
    pub signal: i32,
}

// ---------------------------------------------------------------------------
// Microphone modes
// ---------------------------------------------------------------------------

/// Modes 4, 6 and 7 take the difference of the two ADC channels.
pub open spec fn diff_mode(mode: u8) -> bool {
    mode == 4 || mode == 6 || mode == 7
}

/// Whether `mode` is a pseudo-differential mode.
pub fn is_diff_mode(mode: u8) -> (r: bool)
    ensures
        r == diff_mode(mode),
{
    mode == 4 || mode == 6 || mode == 7
}

/// The signal a mode derives from one pair of ADC readings.
pub open spec fn signal_spec(mode: u8, raw_a: i32, raw_b: i32) -> int {
    if mode == 3 {
        raw_b as int
    } else if diff_mode(mode) {
        raw_a - raw_b
    } else {
        raw_a as int
    }
}

/// Mode 3 reads GPIO5 (channel B), the differential modes read A minus B and
/// all other modes read GPIO4 (channel A).
pub fn signal_from_pair(mode: u8, raw_a: i32, raw_b: i32) -> (s: i32)
    requires
        diff_mode(mode) ==> i32::MIN <= raw_a - raw_b <= i32::MAX,
    ensures
        s == signal_spec(mode, raw_a, raw_b),
        mode != 3 && mode != 4 && mode != 6 && mode != 7 ==> s == raw_a,
        mode == 3 ==> s == raw_b,
        mode == 4 || mode == 6 || mode == 7 ==> s == raw_a - raw_b,
{
    match mode {
        3 => raw_b,
        4 | 6 | 7 => raw_a - raw_b,
        _ => raw_a,
    }
}

// ---------------------------------------------------------------------------
// Oversampling
// ---------------------------------------------------------------------------

pub open spec fn seq_sum(s: Seq<i32>) -> int
    decreases s.len(),
{
    if s.len() == 0 {
        0
    } else {
        seq_sum(s.drop_last()) + s.last()
    }
}

/// The values that a trimmed mean averages: from six values on, the first
/// and the last are left out.
pub open spec fn trimmed(s: Seq<i32>) -> Seq<i32> {
    if s.len() >= 6 {
        s.subrange(1, s.len() - 1)
    } else {
        s
    }
}

/// The mean (rounded toward zero) of the trimmed values.
pub open spec fn trimmed_mean_spec(s: Seq<i32>) -> int {
    trunc_div(seq_sum(trimmed(s)), trimmed(s).len() as int)
}

pub open spec fn leq_i32() -> spec_fn(i32, i32) -> bool {
    |x: i32, y: i32| x <= y
}

/// The values in ascending order.
pub open spec fn sorted_values(s: Seq<i32>) -> Seq<i32> {
    s.sort_by(leq_i32())
}

proof fn lemma_leq_total()
    ensures
        total_ordering(leq_i32()),
{
    let f = leq_i32();
    assert(vstd::relations::reflexive(f));
    assert(vstd::relations::antisymmetric(f));
    assert(vstd::relations::transitive(f));
    assert(vstd::relations::strongly_connected(f));
}

proof fn lemma_sum_first(s: Seq<i32>)
    requires
        s.len() > 0,
    ensures
        seq_sum(s) == s[0] + seq_sum(s.drop_first()),
    decreases s.len(),
{
    if s.len() > 1 {
        lemma_sum_first(s.drop_last());
        assert(s.drop_last().drop_first() =~= s.drop_first().drop_last());
    } else {
        assert(s.drop_first() =~= Seq::<i32>::empty());
        assert(s.drop_last() =~= Seq::<i32>::empty());
    }
}

/// What the trimmed mean averages: all values when there are fewer than
/// six, otherwise all but the first and the last, so that its sum is the
/// total minus those two.
pub proof fn lemma_trimmed_drops_first_and_last(s: Seq<i32>)
    ensures
        s.len() < 6 ==> trimmed(s) == s,
        s.len() >= 6 ==> trimmed(s).len() == s.len() - 2 && seq_sum(trimmed(s)) == seq_sum(s)
            - s[0] - s[s.len() - 1],
{
    if s.len() >= 6 {
        lemma_sum_first(s);
        let d = s.drop_first();
        assert(d.drop_last() =~= s.subrange(1, s.len() - 1));
        assert(d.last() == s[s.len() - 1]);
    }
}

/// Mean of the values, leaving out the first and the last from six values on.
pub fn trimmed_mean(values: &[i32]) -> (m: i32)
    requires
        1 <= values@.len() <= i32::MAX,
    ensures
        m == trimmed_mean_spec(values@),
{
    let (from, to) = if values.len() >= 6 {
        (1, values.len() - 1)
    } else {
        (0, values.len())
    };
    let slice = &values[from..to];
    assert(slice@ =~= trimmed(values@));
    let mut sum: i64 = 0;
    let mut i: usize = 0;
    while i < slice.len()
        invariant
            i <= slice@.len(),
            slice@.len() <= i32::MAX,
            sum == seq_sum(slice@.subrange(0, i as int)),
            i * i32::MIN <= sum <= i * i32::MAX,
        decreases slice.len() - i,
    {
        proof {
            let next = slice@.subrange(0, i + 1);
            assert(next.drop_last() =~= slice@.subrange(0, i as int));
        }
        sum = sum + slice[i] as i64;
        i = i + 1;
    }
    assert(slice@.subrange(0, slice@.len() as int) =~= slice@);
    let n = slice.len() as i64;
    let q = sum / n;
    proof {
        assert(q == trunc_div(sum as int, n as int));
        let s = sum as int;
        let nn = n as int;
        if s >= 0 {
            assert(s / nn <= i32::MAX) by (nonlinear_arith)
                requires
                    0 <= s <= nn * i32::MAX,
                    nn >= 1,
            ;
        } else {
            assert((-s) / nn <= -(i32::MIN as int)) by (nonlinear_arith)
                requires
                    0 < -s <= nn * (-(i32::MIN as int)),
                    nn >= 1,
            ;
        }
    }
    q as i32
}

/// Sorts the values in ascending order.
fn sort_values(v: &mut Vec<i32>)
    ensures
        sorted_by(final(v)@, leq_i32()),
        final(v)@.to_multiset() == old(v)@.to_multiset(),
        final(v)@.len() == old(v)@.len(),
{
    broadcast use vstd::seq_lib::group_to_multiset_ensures;

    let n = v.len();
    let mut i: usize = 1;
    if n == 0 {
        assert(sorted_by(v@, leq_i32()));
        return ;
    }
    while i < n
        invariant
            n == v@.len(),
            1 <= i <= n,
            v@.to_multiset() == old(v)@.to_multiset(),
            forall|a: int, b: int| 0 <= a < b < i ==> v@[a] <= v@[b],
        decreases n - i,
    {
        let mut j = i;
        while j > 0 && v[j - 1] > v[j]
            invariant
                n == v@.len(),
                1 <= i < n,
                j <= i,
                v@.to_multiset() == old(v)@.to_multiset(),
                forall|a: int, b: int| 0 <= a < b <= i && b != j ==> v@[a] <= v@[b],
                forall|a: int, b: int| 0 <= a < j && j < b <= i ==> v@[a] <= v@[b],
            decreases j,
        {
            let x = v[j - 1];
            let y = v[j];
            proof {
                let before = v@;
                let after = before.update(j - 1, y).update(j as int, x);
                let mid = before.update(j - 1, y);
                vstd::seq_lib::to_multiset_update(before, j - 1, y);
                vstd::seq_lib::to_multiset_update(mid, j as int, x);
                assert(before.to_multiset().count(x) > 0) by {
                    broadcast use vstd::seq_lib::group_to_multiset_ensures;

                    assert(before.contains(x)) by {
                        assert(before[j - 1] == x);
                    }
                }
                assert(after.to_multiset() =~= before.to_multiset()) by {
                    broadcast use vstd::multiset::group_multiset_axioms;

                    let m = before.to_multiset();
                    assert forall|w: i32| #[trigger] after.to_multiset().count(w) == m.count(w) by {
                    }
                }
            }
            v.set(j - 1, y);
            v.set(j, x);
            j = j - 1;
        }
        i = i + 1;
    }
    assert(sorted_by(v@, leq_i32()));
}

pub open spec fn firsts(reads: Seq<(i32, i32)>) -> Seq<i32> {
    reads.map_values(|p: (i32, i32)| p.0)
}

pub open spec fn seconds(reads: Seq<(i32, i32)>) -> Seq<i32> {
    reads.map_values(|p: (i32, i32)| p.1)
}

pub open spec fn signals(mode: u8, reads: Seq<(i32, i32)>) -> Seq<i32> {
    reads.map_values(|p: (i32, i32)| signal_spec(mode, p.0, p.1) as i32)
}

/// Which channel a mode records: in modes 0, 1, 2, 5 (and every mode other
/// than 3, 4, 6, 7) the signal of each reading pair is its channel-A reading,
/// in mode 3 its channel-B reading, and in modes 4, 6, 7 channel A minus
/// channel B.
pub proof fn lemma_signals_per_mode(mode: u8, reads: Seq<(i32, i32)>)
    requires
        forall|i: int|
            0 <= i < reads.len() && (mode == 4 || mode == 6 || mode == 7) ==> i32::MIN
                <= #[trigger] reads[i].0 - reads[i].1 <= i32::MAX,
    ensures
        signals(mode, reads).len() == reads.len(),
        mode != 3 && mode != 4 && mode != 6 && mode != 7 ==> signals(mode, reads) == firsts(reads),
        mode == 3 ==> signals(mode, reads) == seconds(reads),
        mode == 4 || mode == 6 || mode == 7 ==> forall|i: int|
            0 <= i < reads.len() ==> #[trigger] signals(mode, reads)[i] == reads[i].0 - reads[i].1,
{
    if mode != 3 && mode != 4 && mode != 6 && mode != 7 {
        assert(signals(mode, reads) =~= firsts(reads));
    }
    if mode == 3 {
        assert(signals(mode, reads) =~= seconds(reads));
    }
}

/// One stored sample from several ADC reading pairs taken in a row: each
/// channel and the derived signal are sorted and reduced to their trimmed mean,
/// so that single outliers are dropped.
pub fn oversampled_raw(mode: u8, reads: &[(i32, i32)]) -> (r: RawSample)
    requires
        1 <= reads@.len() <= i32::MAX,
        forall|i: int|
            0 <= i < reads@.len() && diff_mode(mode) ==> i32::MIN <= #[trigger] reads@[i].0
                - reads@[i].1 <= i32::MAX,
    ensures
        r.raw_a == trimmed_mean_spec(sorted_values(firsts(reads@))),
        r.raw_b == trimmed_mean_spec(sorted_values(seconds(reads@))),
        r.signal == trimmed_mean_spec(sorted_values(signals(mode, reads@))),
        mode != 3 && mode != 4 && mode != 6 && mode != 7 ==> r.signal == r.raw_a,
        mode == 3 ==> r.signal == r.raw_b,
{
    let mut raw_a: Vec<i32> = Vec::new();
    let mut raw_b: Vec<i32> = Vec::new();
    let mut signal: Vec<i32> = Vec::new();
    let mut i: usize = 0;
    while i < reads.len()
        invariant
            i <= reads@.len(),
            forall|k: int|
                0 <= k < reads@.len() && diff_mode(mode) ==> i32::MIN <= #[trigger] reads@[k].0
                    - reads@[k].1 <= i32::MAX,
            raw_a@ =~= firsts(reads@).subrange(0, i as int),
            raw_b@ =~= seconds(reads@).subrange(0, i as int),
            signal@ =~= signals(mode, reads@).subrange(0, i as int),
        decreases reads.len() - i,
    {
        let (a, b) = reads[i];
        raw_a.push(a);
        raw_b.push(b);
        signal.push(signal_from_pair(mode, a, b));
        i = i + 1;
    }
    proof {
        assert(firsts(reads@).subrange(0, reads@.len() as int) =~= firsts(reads@));
        assert(seconds(reads@).subrange(0, reads@.len() as int) =~= seconds(reads@));
        assert(signals(mode, reads@).subrange(0, reads@.len() as int) =~= signals(mode, reads@));
    }
    let ghost a0 = raw_a@;
    let ghost b0 = raw_b@;
    let ghost s0 = signal@;
    sort_values(&mut raw_a);
    sort_values(&mut raw_b);
    sort_values(&mut signal);
    proof {
        lemma_leq_total();
        a0.lemma_sort_by_ensures(leq_i32());
        b0.lemma_sort_by_ensures(leq_i32());
        s0.lemma_sort_by_ensures(leq_i32());
        vstd::seq_lib::lemma_sorted_unique(raw_a@, a0.sort_by(leq_i32()), leq_i32());
        vstd::seq_lib::lemma_sorted_unique(raw_b@, b0.sort_by(leq_i32()), leq_i32());
        vstd::seq_lib::lemma_sorted_unique(signal@, s0.sort_by(leq_i32()), leq_i32());
    }
    proof {
        lemma_signals_per_mode(mode, reads@);
    }
    RawSample {
        raw_a: trimmed_mean(raw_a.as_slice()),
        raw_b: trimmed_mean(raw_b.as_slice()),
        signal: trimmed_mean(signal.as_slice()),
    }
}

// ---------------------------------------------------------------------------
// Calibration and saturation statistics
// ---------------------------------------------------------------------------

pub open spec fn min_i32(a: i32, b: i32) -> i32 {
    if a <= b {
        a
    } else {
        b
    }
}

pub open spec fn max_i32(a: i32, b: i32) -> i32 {
    if a >= b {
        a
    } else {
        b
    }
}

/// The smallest value, `i32::MAX` for no values.
pub open spec fn seq_min(s: Seq<i32>) -> i32
    decreases s.len(),
{
    if s.len() == 0 {
        i32::MAX
    } else {
        min_i32(seq_min(s.drop_last()), s.last())
    }
}

/// The largest value, `i32::MIN` for no values.
pub open spec fn seq_max(s: Seq<i32>) -> i32
    decreases s.len(),
{
    if s.len() == 0 {
        i32::MIN
    } else {
        max_i32(seq_max(s.drop_last()), s.last())
    }
}

pub open spec fn raw_as(s: Seq<RawSample>) -> Seq<i32> {
    s.map_values(|r: RawSample| r.raw_a)
}

pub open spec fn raw_bs(s: Seq<RawSample>) -> Seq<i32> {
    s.map_values(|r: RawSample| r.raw_b)
}

pub open spec fn raw_signals(s: Seq<RawSample>) -> Seq<i32> {
    s.map_values(|r: RawSample| r.signal)
}

/// Extremes and sum of the samples taken in silence before a recording; the
/// DC offset is `signal_sum / samples` and the noise floor is measured
/// around it.
#[derive(Debug, Clone, Copy, PartialEq, Eq, Structural)]
pub struct Calibration {
    pub raw_a_min: i32,
    pub raw_a_max: i32,
    pub raw_b_min: i32,
    pub raw_b_max: i32,
    pub diff_min: i32,
    pub diff_max: i32,
    pub signal_sum: i64,
    pub samples: u32,
}

impl Calibration {
    /// The calibration of a series of samples.
    pub fn from_samples(samples: &[RawSample]) -> (c: Calibration)
        requires
            samples@.len() <= u32::MAX,
        ensures
            c.raw_a_min == seq_min(raw_as(samples@)),
            c.raw_a_max == seq_max(raw_as(samples@)),
            c.raw_b_min == seq_min(raw_bs(samples@)),
            c.raw_b_max == seq_max(raw_bs(samples@)),
            c.diff_min == seq_min(raw_signals(samples@)),
            c.diff_max == seq_max(raw_signals(samples@)),
            c.signal_sum == seq_sum(raw_signals(samples@)),
            c.samples == samples@.len(),
    {
        let mut c = Calibration {
            raw_a_min: i32::MAX,
            raw_a_max: i32::MIN,
            raw_b_min: i32::MAX,
            raw_b_max: i32::MIN,
            diff_min: i32::MAX,
            diff_max: i32::MIN,
            signal_sum: 0,
            samples: 0,
        };
        let mut i: usize = 0;
        while i < samples.len()
            invariant
                i <= samples@.len() <= u32::MAX,
                c.raw_a_min == seq_min(raw_as(samples@.subrange(0, i as int))),
                c.raw_a_max == seq_max(raw_as(samples@.subrange(0, i as int))),
                c.raw_b_min == seq_min(raw_bs(samples@.subrange(0, i as int))),
                c.raw_b_max == seq_max(raw_bs(samples@.subrange(0, i as int))),
                c.diff_min == seq_min(raw_signals(samples@.subrange(0, i as int))),
                c.diff_max == seq_max(raw_signals(samples@.subrange(0, i as int))),
                c.signal_sum == seq_sum(raw_signals(samples@.subrange(0, i as int))),
                i * i32::MIN <= c.signal_sum <= i * i32::MAX,
                c.samples == i,
            decreases samples.len() - i,
        {
            let r = samples[i];
            proof {
                let pre = samples@.subrange(0, i as int);
                let next = samples@.subrange(0, i + 1);
                assert(next.drop_last() =~= pre);
                assert(raw_as(next).drop_last() =~= raw_as(pre));
                assert(raw_bs(next).drop_last() =~= raw_bs(pre));
                assert(raw_signals(next).drop_last() =~= raw_signals(pre));
            }
            c.raw_a_min = if r.raw_a < c.raw_a_min { r.raw_a } else { c.raw_a_min };
            c.raw_a_max = if r.raw_a > c.raw_a_max { r.raw_a } else { c.raw_a_max };
            c.raw_b_min = if r.raw_b < c.raw_b_min { r.raw_b } else { c.raw_b_min };
            c.raw_b_max = if r.raw_b > c.raw_b_max { r.raw_b } else { c.raw_b_max };
            c.diff_min = if r.signal < c.diff_min { r.signal } else { c.diff_min };
            c.diff_max = if r.signal > c.diff_max { r.signal } else { c.diff_max };
            c.signal_sum = c.signal_sum + r.signal as i64;
            c.samples = c.samples + 1;
            i = i + 1;
        }
        assert(samples@.subrange(0, samples@.len() as int) =~= samples@);
        c
    }
}

/// Whether an ADC reading is at the bottom of the range.
pub fn is_low_saturated(raw: i32) -> (r: bool)
    ensures
        r == (raw <= ADC_SATURATION_LOW),
{
    raw <= ADC_SATURATION_LOW
}

/// Whether an ADC reading is at the top of the range.
pub fn is_high_saturated(raw: i32) -> (r: bool)
    ensures
        r == (raw >= ADC_SATURATION_HIGH),
{
    raw >= ADC_SATURATION_HIGH
}

pub open spec fn low_saturated(r: RawSample) -> bool {
    r.raw_a <= ADC_SATURATION_LOW || r.raw_b <= ADC_SATURATION_LOW
}

pub open spec fn high_saturated(r: RawSample) -> bool {
    r.raw_a >= ADC_SATURATION_HIGH || r.raw_b >= ADC_SATURATION_HIGH
}

/// Running statistics of the raw input during a recording.
#[derive(Debug, Clone, Copy, PartialEq, Eq, Structural)]
pub struct RecordStats {
    pub mode: u8,
    pub samples: u32,
    pub raw_a_min: i32,
    pub raw_a_max: i32,
    pub raw_b_min: i32,
    pub raw_b_max: i32,
    pub diff_min: i32,
    pub diff_max: i32,
    pub saturation_low_a_count: u32,
    pub saturation_high_a_count: u32,
    pub saturation_low_b_count: u32,
    pub saturation_high_b_count: u32,
    pub low_saturation_sample_count: u32,
    pub high_saturation_sample_count: u32,
    pub saturation_sample_count: u32,
}

impl RecordStats {
    /// No counter exceeds the number of samples; a sample counts as saturated
    /// exactly when it is saturated low or high; each channel's low (high)
    /// count is at most the number of samples saturated low (high); and once
    /// a sample was seen, every minimum is at most its maximum.
    pub open spec fn wf(self) -> bool {
        &&& self.saturation_low_a_count <= self.low_saturation_sample_count
        &&& self.saturation_low_b_count <= self.low_saturation_sample_count
        &&& self.saturation_high_a_count <= self.high_saturation_sample_count
        &&& self.saturation_high_b_count <= self.high_saturation_sample_count
        &&& self.low_saturation_sample_count <= self.saturation_sample_count
        &&& self.high_saturation_sample_count <= self.saturation_sample_count
        &&& self.saturation_sample_count <= self.low_saturation_sample_count
            + self.high_saturation_sample_count
        &&& self.saturation_sample_count <= self.samples
        &&& self.samples > 0 ==> {
            &&& self.raw_a_min <= self.raw_a_max
            &&& self.raw_b_min <= self.raw_b_max
            &&& self.diff_min <= self.diff_max
        }
    }

    /// The statistics after one more sample.
    pub open spec fn observed(self, raw: RawSample) -> RecordStats {
        let low_a = raw.raw_a <= ADC_SATURATION_LOW;
        let high_a = raw.raw_a >= ADC_SATURATION_HIGH;
        let low_b = raw.raw_b <= ADC_SATURATION_LOW;
        let high_b = raw.raw_b >= ADC_SATURATION_HIGH;
        RecordStats {
            mode: self.mode,
            samples: (self.samples + 1) as u32,
            raw_a_min: min_i32(self.raw_a_min, raw.raw_a),
            raw_a_max: max_i32(self.raw_a_max, raw.raw_a),
            raw_b_min: min_i32(self.raw_b_min, raw.raw_b),
            raw_b_max: max_i32(self.raw_b_max, raw.raw_b),
            diff_min: min_i32(self.diff_min, raw.signal),
            diff_max: max_i32(self.diff_max, raw.signal),
            saturation_low_a_count: (self.saturation_low_a_count + if low_a {
                1int
            } else {
                0int
            }) as u32,
            saturation_high_a_count: (self.saturation_high_a_count + if high_a {
                1int
            } else {
                0int
            }) as u32,
            saturation_low_b_count: (self.saturation_low_b_count + if low_b {
                1int
            } else {
                0int
            }) as u32,
            saturation_high_b_count: (self.saturation_high_b_count + if high_b {
                1int
            } else {
                0int
            }) as u32,
            low_saturation_sample_count: (self.low_saturation_sample_count + if low_a || low_b {
                1int
            } else {
                0int
            }) as u32,
            high_saturation_sample_count: (self.high_saturation_sample_count + if high_a
                || high_b {
                1int
            } else {
                0int
            }) as u32,
            saturation_sample_count: (self.saturation_sample_count + if low_a || high_a || low_b
                || high_b {
                1int
            } else {
                0int
            }) as u32,
        }
    }

    /// Empty statistics for a recording in microphone mode `mode`.
    pub fn new(mode: u8) -> (s: Self)
        ensures
            s == empty_stats(mode),
            s.wf(),
    {
        RecordStats {
            mode,
            samples: 0,
            raw_a_min: i32::MAX,
            raw_a_max: i32::MIN,
            raw_b_min: i32::MAX,
            raw_b_max: i32::MIN,
            diff_min: i32::MAX,
            diff_max: i32::MIN,
            saturation_low_a_count: 0,
            saturation_high_a_count: 0,
            saturation_low_b_count: 0,
            saturation_high_b_count: 0,
            low_saturation_sample_count: 0,
            high_saturation_sample_count: 0,
            saturation_sample_count: 0,
        }
    }

    /// Adds one sample to the statistics.
    pub fn observe_raw(&mut self, raw: RawSample)
        requires
            old(self).wf(),
            old(self).samples < u32::MAX,
        ensures
            *final(self) == old(self).observed(raw),
            final(self).wf(),
            final(self).samples == old(self).samples + 1,
            final(self).raw_a_min <= raw.raw_a <= final(self).raw_a_max,
            final(self).raw_b_min <= raw.raw_b <= final(self).raw_b_max,
            final(self).diff_min <= raw.signal <= final(self).diff_max,
            final(self).raw_a_min == old(self).raw_a_min || final(self).raw_a_min == raw.raw_a,
            final(self).raw_a_max == old(self).raw_a_max || final(self).raw_a_max == raw.raw_a,
            final(self).raw_b_min == old(self).raw_b_min || final(self).raw_b_min == raw.raw_b,
            final(self).raw_b_max == old(self).raw_b_max || final(self).raw_b_max == raw.raw_b,
            final(self).diff_min == old(self).diff_min || final(self).diff_min == raw.signal,
            final(self).diff_max == old(self).diff_max || final(self).diff_max == raw.signal,
            final(self).raw_a_min <= old(self).raw_a_min,
            final(self).raw_b_min <= old(self).raw_b_min,
            final(self).diff_min <= old(self).diff_min,
            final(self).raw_a_max >= old(self).raw_a_max,
            final(self).raw_b_max >= old(self).raw_b_max,
            final(self).diff_max >= old(self).diff_max,
    {
        self.samples = self.samples + 1;
        self.raw_a_min = if raw.raw_a < self.raw_a_min { raw.raw_a } else { self.raw_a_min };
        self.raw_a_max = if raw.raw_a > self.raw_a_max { raw.raw_a } else { self.raw_a_max };
        self.raw_b_min = if raw.raw_b < self.raw_b_min { raw.raw_b } else { self.raw_b_min };
        self.raw_b_max = if raw.raw_b > self.raw_b_max { raw.raw_b } else { self.raw_b_max };
        self.diff_min = if raw.signal < self.diff_min { raw.signal } else { self.diff_min };
        self.diff_max = if raw.signal > self.diff_max { raw.signal } else { self.diff_max };
        let low_a = is_low_saturated(raw.raw_a);
        let high_a = is_high_saturated(raw.raw_a);
        let low_b = is_low_saturated(raw.raw_b);
        let high_b = is_high_saturated(raw.raw_b);
        if low_a {
            self.saturation_low_a_count = self.saturation_low_a_count + 1;
        }
        if high_a {
            self.saturation_high_a_count = self.saturation_high_a_count + 1;
        }
        if low_b {
            self.saturation_low_b_count = self.saturation_low_b_count + 1;
        }
        if high_b {
            self.saturation_high_b_count = self.saturation_high_b_count + 1;
        }
        if low_a || low_b {
            self.low_saturation_sample_count = self.low_saturation_sample_count + 1;
        }
        if high_a || high_b {
            self.high_saturation_sample_count = self.high_saturation_sample_count + 1;
        }
        if low_a || high_a || low_b || high_b {
            self.saturation_sample_count = self.saturation_sample_count + 1;
        }
    }
}

/// Observing a sample keeps the statistics consistent: counters stay within
/// the sample count, and a sample counts as saturated exactly when it counts
/// as saturated low or high.
pub proof fn lemma_observe_keeps_wf(s: RecordStats, raw: RawSample)
    requires
        s.wf(),
        s.samples < u32::MAX,
    ensures
        s.observed(raw).wf(),
        s.observed(raw).samples == s.samples + 1,
        s.observed(raw).saturation_sample_count == s.saturation_sample_count + if low_saturated(
            raw,
        ) || high_saturated(raw) {
            1int
        } else {
            0int
        },
{
}

/// The statistics after observing `raws` in order.
pub open spec fn observe_all(s: RecordStats, raws: Seq<RawSample>) -> RecordStats
    decreases raws.len(),
{
    if raws.len() == 0 {
        s
    } else {
        observe_all(s, raws.drop_last()).observed(raws.last())
    }
}

/// Empty statistics for microphone mode `mode`.
pub open spec fn empty_stats(mode: u8) -> RecordStats {
    RecordStats {
        mode,
        samples: 0,
        raw_a_min: i32::MAX,
        raw_a_max: i32::MIN,
        raw_b_min: i32::MAX,
        raw_b_max: i32::MIN,
        diff_min: i32::MAX,
        diff_max: i32::MIN,
        saturation_low_a_count: 0,
        saturation_high_a_count: 0,
        saturation_low_b_count: 0,
        saturation_high_b_count: 0,
        low_saturation_sample_count: 0,
        high_saturation_sample_count: 0,
        saturation_sample_count: 0,
    }
}

/// After any series of samples observed from empty statistics, the
/// statistics count every sample, keep the mode, are consistent (see
/// `RecordStats::wf`: per-channel counts within the per-sample counts, the
/// saturated count between the larger of the low and high counts and their
/// sum and the sample count, minimum at most maximum), and the low and high
/// counts are the numbers of samples saturated low and high.
pub proof fn lemma_observe_many(mode: u8, raws: Seq<RawSample>)
    requires
        raws.len() <= u32::MAX,
    ensures
        ({
            let s = observe_all(empty_stats(mode), raws);
            &&& s.wf()
            &&& s.samples == raws.len()
            &&& s.mode == mode
            &&& s.low_saturation_sample_count == count_low(raws)
            &&& s.high_saturation_sample_count == count_high(raws)
            &&& (raws.len() > 0 ==> s.raw_a_min == seq_min(raw_as(raws)) && s.raw_a_max == seq_max(
                raw_as(raws),
            ))
            &&& (raws.len() > 0 ==> s.raw_b_min == seq_min(raw_bs(raws)) && s.raw_b_max == seq_max(
                raw_bs(raws),
            ))
            &&& (raws.len() > 0 ==> s.diff_min == seq_min(raw_signals(raws)) && s.diff_max
                == seq_max(raw_signals(raws)))
            &&& forall|i: int|
                0 <= i < raws.len() ==> {
                    &&& s.raw_a_min <= #[trigger] raws[i].raw_a <= s.raw_a_max
                    &&& s.raw_b_min <= raws[i].raw_b <= s.raw_b_max
                    &&& s.diff_min <= raws[i].signal <= s.diff_max
                }
        }),
    decreases raws.len(),
{
    if raws.len() > 0 {
        let pre = raws.drop_last();
        lemma_observe_many(mode, pre);
        lemma_observe_keeps_wf(observe_all(empty_stats(mode), pre), raws.last());
        assert(raw_as(raws).drop_last() =~= raw_as(pre));
        assert(raw_bs(raws).drop_last() =~= raw_bs(pre));
        assert(raw_signals(raws).drop_last() =~= raw_signals(pre));
        if pre.len() == 0 {
            assert(raw_as(pre) =~= Seq::<i32>::empty());
            assert(raw_bs(pre) =~= Seq::<i32>::empty());
            assert(raw_signals(pre) =~= Seq::<i32>::empty());
        }
        assert forall|i: int| 0 <= i < raws.len() implies {
            let s = observe_all(empty_stats(mode), raws);
            &&& s.raw_a_min <= #[trigger] raws[i].raw_a <= s.raw_a_max
            &&& s.raw_b_min <= raws[i].raw_b <= s.raw_b_max
            &&& s.diff_min <= raws[i].signal <= s.diff_max
        } by {
            let s0 = observe_all(empty_stats(mode), pre);
            if i < raws.len() - 1 {
                assert(raws[i] == pre[i]);
                assert(s0.raw_a_min <= pre[i].raw_a <= s0.raw_a_max);
            }
        }
        let s0 = observe_all(empty_stats(mode), pre);
        let s1 = observe_all(empty_stats(mode), raws);
        assert(s1 == s0.observed(raws.last()));
        let r = raws.last();
        assert(raw_as(raws).last() == r.raw_a);
        assert(raw_bs(raws).last() == r.raw_b);
        assert(raw_signals(raws).last() == r.signal);
        assert(seq_min(raw_as(raws)) == min_i32(seq_min(raw_as(pre)), r.raw_a));
        assert(seq_max(raw_as(raws)) == max_i32(seq_max(raw_as(pre)), r.raw_a));
        assert(seq_min(raw_bs(raws)) == min_i32(seq_min(raw_bs(pre)), r.raw_b));
        assert(seq_max(raw_bs(raws)) == max_i32(seq_max(raw_bs(pre)), r.raw_b));
        assert(seq_min(raw_signals(raws)) == min_i32(seq_min(raw_signals(pre)), r.signal));
        assert(seq_max(raw_signals(raws)) == max_i32(seq_max(raw_signals(pre)), r.signal));
    }
}

pub open spec fn count_low(s: Seq<RawSample>) -> nat
    decreases s.len(),
{
    if s.len() == 0 {
        0
    } else {
        count_low(s.drop_last()) + if low_saturated(s.last()) {
            1nat
        } else {
            0nat
        }
    }
}

pub open spec fn count_high(s: Seq<RawSample>) -> nat
    decreases s.len(),
{
    if s.len() == 0 {
        0
    } else {
        count_high(s.drop_last()) + if high_saturated(s.last()) {
            1nat
        } else {
            0nat
        }
    }
}

proof fn lemma_counts_bounded(s: Seq<RawSample>)
    ensures
        count_low(s) <= s.len(),
        count_high(s) <= s.len(),
    decreases s.len(),
{
    if s.len() > 0 {
        lemma_counts_bounded(s.drop_last());
    }
}

/// The number of samples in which either channel is saturated low, and the
/// number in which either channel is saturated high.
pub fn saturation_counts(samples: &[RawSample]) -> (r: (u32, u32))
    requires
        samples@.len() <= u32::MAX,
    ensures
        r.0 == count_low(samples@),
        r.1 == count_high(samples@),
{
    let mut low: u32 = 0;
    let mut high: u32 = 0;
    let mut i: usize = 0;
    while i < samples.len()
        invariant
            i <= samples@.len() <= u32::MAX,
            low == count_low(samples@.subrange(0, i as int)),
            high == count_high(samples@.subrange(0, i as int)),
        decreases samples.len() - i,
    {
        let r = samples[i];
        proof {
            let pre = samples@.subrange(0, i as int);
            let next = samples@.subrange(0, i + 1);
            assert(next.drop_last() =~= pre);
            lemma_counts_bounded(pre);
        }
        if is_low_saturated(r.raw_a) || is_low_saturated(r.raw_b) {
            low = low + 1;
        }
        if is_high_saturated(r.raw_a) || is_high_saturated(r.raw_b) {
            high = high + 1;
        }
        i = i + 1;
    }
    assert(samples@.subrange(0, samples@.len() as int) =~= samples@);
    (low, high)
}

// ---------------------------------------------------------------------------
// Debug captures
// ---------------------------------------------------------------------------

pub open spec fn clamp_int(x: int, lo: int, hi: int) -> int {
    if x < lo {
        lo
    } else if x > hi {
        hi
    } else {
        x
    }
}

/// A 12-bit ADC reading scaled to an 8-bit unsigned sample.
pub fn raw_to_debug_u8(raw: i32) -> (r: u8)
    ensures
        r == clamp_int(raw as int, 0, 4095) / 16,
{
    let c = if raw < 0 {
        0
    } else if raw > 4095 {
        4095
    } else {
        raw
    };
    (c / 16) as u8
}

/// A signed difference signal scaled by 1/32 (toward zero) and centred on 128.
pub fn diff_to_debug_u8(diff: i32) -> (r: u8)
    ensures
        r == clamp_int(trunc_div(diff as int, 32) + 128, 0, 255),
{
    let v = diff / 32 + 128;
    let c = if v < 0 {
        0
    } else if v > 255 {
        255
    } else {
        v
    };
    c as u8
}

/// A signed level in `-128..=127` (clamped) as an 8-bit unsigned PCM sample.
pub fn pcm_u8_from_level(level: i32) -> (r: u8)
    ensures
        r == clamp_int(level + 128, 0, 255),
{
    if level < -128 {
        0
    } else if level > 127 {
        255
    } else {
        (level + 128) as u8
    }
}

/// Optional buffers of the raw channels, the derived signal and the processed
/// output of a recording, kept for diagnosis when debug files are enabled.
pub struct DebugCapture {
    pub raw_a: Option<Vec<u8>>,
    pub raw_b: Option<Vec<u8>>,
    pub diff: Option<Vec<u8>>,
    pub proc: Option<Vec<u8>>,
}

impl DebugCapture {
    /// Empty buffers when debug files are enabled, none otherwise.
    pub fn new() -> (d: Self)
        ensures
            crate::config::WRITE_DEBUG_RAW_WAV <==> d.raw_a is Some,
            crate::config::WRITE_DEBUG_RAW_WAV <==> d.raw_b is Some,
            crate::config::WRITE_DEBUG_RAW_WAV <==> d.diff is Some,
            crate::config::WRITE_DEBUG_RAW_WAV <==> d.proc is Some,
            d.raw_a is Some ==> d.raw_a->0@.len() == 0,
            d.raw_b is Some ==> d.raw_b->0@.len() == 0,
            d.diff is Some ==> d.diff->0@.len() == 0,
            d.proc is Some ==> d.proc->0@.len() == 0,
    {
        if crate::config::WRITE_DEBUG_RAW_WAV {
            DebugCapture {
                raw_a: Some(Vec::new()),
                raw_b: Some(Vec::new()),
                diff: Some(Vec::new()),
                proc: Some(Vec::new()),
            }
        } else {
            DebugCapture { raw_a: None, raw_b: None, diff: None, proc: None }
        }
    }

    /// Appends one sample to each enabled buffer: the scaled raw channels, the
    /// scaled signal and the processed output.
    pub fn push(&mut self, raw: RawSample, processed: u8)
        ensures
            final(self).raw_a is Some <==> old(self).raw_a is Some,
            final(self).raw_b is Some <==> old(self).raw_b is Some,
            final(self).diff is Some <==> old(self).diff is Some,
            final(self).proc is Some <==> old(self).proc is Some,
            old(self).raw_a is Some ==> final(self).raw_a->0@ == old(self).raw_a->0@.push(
                (clamp_int(raw.raw_a as int, 0, 4095) / 16) as u8,
            ),
            old(self).raw_b is Some ==> final(self).raw_b->0@ == old(self).raw_b->0@.push(
                (clamp_int(raw.raw_b as int, 0, 4095) / 16) as u8,
            ),
            old(self).diff is Some ==> final(self).diff->0@ == old(self).diff->0@.push(
                clamp_int(trunc_div(raw.signal as int, 32) + 128, 0, 255) as u8,
            ),
            old(self).proc is Some ==> final(self).proc->0@ == old(self).proc->0@.push(
                processed,
            ),
    {
        if let Some(buf) = self.raw_a.as_mut() {
            buf.push(raw_to_debug_u8(raw.raw_a));
        }
        if let Some(buf) = self.raw_b.as_mut() {
            buf.push(raw_to_debug_u8(raw.raw_b));
        }
        if let Some(buf) = self.diff.as_mut() {
            buf.push(diff_to_debug_u8(raw.signal));
        }
        if let Some(buf) = self.proc.as_mut() {
            buf.push(processed);
        }
    }
}

// ---------------------------------------------------------------------------
// Names of the hardware modes
// ---------------------------------------------------------------------------

/// What a microphone mode connects.
pub fn mic_mode_description(mode: u8) -> (d: &'static str)
    ensures
        mode == 0 ==> d@ == "GPIO4 ADC, GPIO5 schwacher Pulldown"@,
        mode == 1 ==> d@ == "GPIO4 ADC, GPIO5 High-Z"@,
        mode == 2 ==> d@ == "GPIO4 ADC, GPIO5 schwacher Pullup"@,
        mode == 3 ==> d@ == "GPIO5 ADC, GPIO4 schwacher Pulldown"@,
        mode == 4 ==> d@ == "PSEUDO_DIFF GPIO4 ADC minus GPIO5 ADC, beide High-Z"@,
        mode == 5 ==> d@ == "AUTO_SCAN Modi 0..7"@,
        mode == 6 ==> d@ == "BIASED_DIFF_INTERNAL_PULLS GPIO4 Pullup, GPIO5 Pulldown"@,
        mode == 7 ==> d@ == "REVERSE_BIASED_DIFF_INTERNAL_PULLS GPIO4 Pulldown, GPIO5 Pullup"@,
        mode > 7 ==> d@ == "ungueltig"@,
{
    match mode {
        0 => "GPIO4 ADC, GPIO5 schwacher Pulldown",
        1 => "GPIO4 ADC, GPIO5 High-Z",
        2 => "GPIO4 ADC, GPIO5 schwacher Pullup",
        3 => "GPIO5 ADC, GPIO4 schwacher Pulldown",
        4 => "PSEUDO_DIFF GPIO4 ADC minus GPIO5 ADC, beide High-Z",
        5 => "AUTO_SCAN Modi 0..7",
        6 => "BIASED_DIFF_INTERNAL_PULLS GPIO4 Pullup, GPIO5 Pulldown",
        7 => "REVERSE_BIASED_DIFF_INTERNAL_PULLS GPIO4 Pulldown, GPIO5 Pullup",
        _ => "ungueltig",
    }
}

/// The ADC attenuation of an attenuation mode.
pub fn adc_atten_description(mode: u8) -> (d: &'static str)
    ensures
        mode == 0 ==> d@ == "ADC_ATTEN_DB_0"@,
        mode == 1 ==> d@ == "ADC_ATTEN_DB_2_5"@,
        mode == 2 ==> d@ == "ADC_ATTEN_DB_6"@,
        mode == 3 ==> d@ == "ADC_ATTEN_DB_12"@,
        mode > 3 ==> d@ == "ADC_ATTEN_DB_0(default)"@,
{
    match mode {
        0 => "ADC_ATTEN_DB_0",
        1 => "ADC_ATTEN_DB_2_5",
        2 => "ADC_ATTEN_DB_6",
        3 => "ADC_ATTEN_DB_12",
        _ => "ADC_ATTEN_DB_0(default)",
    }
}

/// The output stage of a playback mode.
pub fn playback_mode_description(mode: u8) -> (d: &'static str)
    ensures
        mode == 0 ==> d@ == "LEDC normal 62.5 kHz"@,
        mode == 1 ==> d@ == "MAX_LOUD_LEDC 31.25 kHz"@,
        mode == 2 ==> d@ == "EXPERIMENTAL_SDM_PDM requested, native fallback to MAX_LOUD_LEDC"@,
        mode > 2 ==> d@ == "unknown, native fallback"@,
{
    match mode {
        0 => "LEDC normal 62.5 kHz",
        1 => "MAX_LOUD_LEDC 31.25 kHz",
        2 => "EXPERIMENTAL_SDM_PDM requested, native fallback to MAX_LOUD_LEDC",
        _ => "unknown, native fallback",
    }
}

/// The PWM carrier frequency of a frequency mode.
pub fn playback_pwm_freq_description(mode: u8) -> (d: &'static str)
    ensures
        mode == 0 ==> d@ == "62500 Hz"@,
        mode == 1 ==> d@ == "31250 Hz"@,
        mode == 2 ==> d@ == "15625 Hz very experimental"@,
        mode > 2 ==> d@ == "native default"@,
{
    match mode {
        0 => "62500 Hz",
        1 => "31250 Hz",
        2 => "15625 Hz very experimental",
        _ => "native default",
    }
}

// ---------------------------------------------------------------------------
// Timing of the sample loops
// ---------------------------------------------------------------------------

/// Microseconds between two recorded samples: one period at 8 kHz.
pub const SAMPLE_PERIOD_US: u64 = 125;

/// What to do while waiting for the next sample instant.
#[derive(Debug, Clone, Copy, PartialEq, Eq, Structural)]
pub enum WaitStep {
    /// The target time has been reached.
    Reached,
    /// Sleep this many microseconds, then check again.
    Delay(u32),
    /// Less than 80 µs remain: check the clock again at once.
    Spin,
}

/// One step of waiting until `target_us` when the clock reads `now_us`:
/// sleep until 40 µs before the target while more than 80 µs remain, and
/// spin for the rest.
pub fn wait_step(now_us: u64, target_us: u64) -> (w: WaitStep)
    ensures
        now_us >= target_us ==> w == WaitStep::Reached,
        now_us < target_us && target_us - now_us > 80 ==> w == WaitStep::Delay(
            if target_us - now_us - 40 > u32::MAX {
                u32::MAX
            } else {
                (target_us - now_us - 40) as u32
            },
        ),
        now_us < target_us && target_us - now_us <= 80 ==> w == WaitStep::Spin,
{
    if now_us >= target_us {
        return WaitStep::Reached;
    }
    let remain = target_us - now_us;
    if remain > 80 {
        let d = remain - 40;
        WaitStep::Delay(
            if d > u32::MAX as u64 {
                u32::MAX
            } else {
                d as u32
            },
        )
    } else {
        WaitStep::Spin
    }
}

/// A sleep while waiting never reaches the target: it ends at least 40 µs
/// before it, so the sample instant is not overshot.
pub proof fn lemma_wait_never_oversleeps(now_us: u64, target_us: u64, d: u32)
    requires
        ({
            let remain = target_us - now_us;
            now_us < target_us && remain > 80 && d == (if remain - 40 > u32::MAX {
                u32::MAX as int
            } else {
                remain - 40
            })
        }),
    ensures
        now_us + d + 40 <= target_us,
{
}

/// Microseconds between two played samples at `sample_rate_hz` (a rate of 0
/// counts as 1 Hz), at least 1.
pub fn playback_period_us(sample_rate_hz: u32) -> (p: u64)
    ensures
        p == (if sample_rate_hz == 0 {
            1_000_000
        } else if 1_000_000nat / (sample_rate_hz as nat) == 0 {
            1
        } else {
            1_000_000nat / (sample_rate_hz as nat)
        }),
        p >= 1,
{
    let rate = if sample_rate_hz < 1 {
        1
    } else {
        sample_rate_hz
    };
    let p = 1_000_000u64 / rate as u64;
    assert(p == 1_000_000nat / (rate as nat));
    if p < 1 {
        1
    } else {
        p
    }
}

/// Frames to read for the next playback block: the remaining frames, at most
/// one block.
pub fn playback_block_frames(remaining_frames: usize) -> (n: usize)
    ensures
        n == (if remaining_frames < crate::config::PLAYBACK_BLOCK_SAMPLES {
            remaining_frames
        } else {
            crate::config::PLAYBACK_BLOCK_SAMPLES
        }),
{
    if remaining_frames < crate::config::PLAYBACK_BLOCK_SAMPLES {
        remaining_frames
    } else {
        crate::config::PLAYBACK_BLOCK_SAMPLES
    }
}

/// The frames left to play after a block of `decoded` frames was read, or
/// `None` when the block came back empty and playback ends.
pub fn playback_remaining_after(remaining_frames: usize, decoded: usize) -> (r: Option<usize>)
    requires
        decoded <= remaining_frames,
    ensures
        decoded == 0 ==> r is None,
        decoded > 0 ==> r == Some((remaining_frames - decoded) as usize),
{
    if decoded == 0 {
        None
    } else {
        Some(remaining_frames - decoded)
    }
}

/// Number of samples in a measurement of `ms` milliseconds at the recording
/// rate, at least 16.
pub fn measurement_sample_count(ms: u32) -> (n: usize)
    requires
        8000 * ms / 1000 <= usize::MAX,
    ensures
        n == (if 8000 * ms / 1000 < 16 {
            16
        } else {
            8000 * ms / 1000
        }),
{
    let count = (crate::config::RECORD_SAMPLE_RATE as u64 * ms as u64) / 1000;
    assert(count == 8000 * ms / 1000);
    let count = if count < 16 {
        16
    } else {
        count
    };
    count as usize
}

// ---------------------------------------------------------------------------
// The recording loop
// ---------------------------------------------------------------------------

/// What the recording loop does after storing a sample.
#[derive(Debug, Clone, Copy, PartialEq, Eq, Structural)]
pub enum RecordStep {
    /// The maximum length is reached: stop.
    StopMaxSeconds,
    /// Go on, polling the button and yielding to the scheduler where asked.
    Continue { poll_button: bool, yield_now: bool },
}

/// The sample count of a recording and its limit.
#[derive(Debug, Clone, Copy, PartialEq, Eq, Structural)]
pub struct RecordSession {
    pub samples: usize,
    pub max_samples: usize,
}

impl RecordSession {
    /// A recording with no samples yet, limited to the maximum recording time.
    pub fn new() -> (s: Self)
        ensures
            s.samples == 0,
            s.max_samples == crate::config::RECORD_SAMPLE_RATE
                * crate::config::RECORD_MAX_SECONDS,
    {
        RecordSession {
            samples: 0,
            max_samples: (crate::config::RECORD_SAMPLE_RATE * crate::config::RECORD_MAX_SECONDS) as usize,
        }
    }

    /// Counts a stored sample and decides how the loop goes on: stop at the
    /// limit, poll the button every 32 samples and yield every 128.
    pub fn after_sample(&mut self) -> (step: RecordStep)
        requires
            old(self).samples < usize::MAX,
        ensures
            final(self).samples == old(self).samples + 1,
            final(self).max_samples == old(self).max_samples,
            final(self).samples >= final(self).max_samples ==> step == RecordStep::StopMaxSeconds,
            final(self).samples < final(self).max_samples ==> step == (RecordStep::Continue {
                poll_button: final(self).samples % 32 == 0,
                yield_now: final(self).samples % 128 == 0,
            }),
    {
        self.samples = self.samples + 1;
        if self.samples >= self.max_samples {
            RecordStep::StopMaxSeconds
        } else {
            RecordStep::Continue {
                poll_button: self.samples % BUTTON_POLL_EVERY_SAMPLES == 0,
                yield_now: self.samples % YIELD_EVERY_SAMPLES == 0,
            }
        }
    }

    /// Whether a button event ends the recording: a short press does, a long
    /// press is ignored.
    pub fn stops_on(event: Option<ButtonEvent>) -> (stop: bool)
        ensures
            stop == (event == Some(ButtonEvent::ShortPress)),
    {
        match event {
            Some(ButtonEvent::ShortPress) => true,
            _ => false,
        }
    }
}

// ---------------------------------------------------------------------------
// Names of debug files
// ---------------------------------------------------------------------------

/// The bytes of `.WAV`.
pub open spec fn wav_upper_suffix() -> Seq<u8> {
    seq![0x2Eu8, 0x57u8, 0x41u8, 0x56u8]
}

/// `s` with every occurrence of `.WAV` removed, scanning from the left.
pub open spec fn without_wav(s: Seq<u8>) -> Seq<u8>
    decreases s.len(),
{
    if s.len() == 0 {
        s
    } else if s.len() >= 4 && s.subrange(0, 4) == wav_upper_suffix() {
        without_wav(s.subrange(4, s.len() as int))
    } else {
        seq![s[0]] + without_wav(s.subrange(1, s.len() as int))
    }
}

/// The name of a debug file: `PREFIX_STEM.WAV`, where the stem is the name of
/// the recording with every `.WAV` removed.
pub open spec fn debug_file_name_spec(prefix: Seq<u8>, record_name: Seq<u8>) -> Seq<u8> {
    prefix + seq![0x5Fu8] + without_wav(record_name) + wav_upper_suffix()
}

/// The name of the debug file with prefix `prefix` (such as `RAW_A`) that
/// belongs to the recording named `record_name`.
pub fn debug_file_name(prefix: &[u8], record_name: &[u8]) -> (name: Vec<u8>)
    ensures
        name@ == debug_file_name_spec(prefix@, record_name@),
{
    let mut out: Vec<u8> = Vec::new();
    let mut i: usize = 0;
    while i < prefix.len()
        invariant
            i <= prefix@.len(),
            out@ == prefix@.subrange(0, i as int),
        decreases prefix.len() - i,
    {
        out.push(prefix[i]);
        i = i + 1;
        assert(out@ =~= prefix@.subrange(0, i as int));
    }
    assert(prefix@.subrange(0, prefix@.len() as int) =~= prefix@);
    out.push(0x5F);
    let ghost head = out@;
    assert(head == prefix@ + seq![0x5Fu8]);
    let n = record_name.len();
    let mut i: usize = 0;
    assert(record_name@.subrange(0, n as int) =~= record_name@);
    while i < n
        invariant
            n == record_name@.len(),
            i <= n,
            head + without_wav(record_name@) == out@ + without_wav(
                record_name@.subrange(i as int, n as int),
            ),
        decreases n - i,
    {
        let ghost rest = record_name@.subrange(i as int, n as int);
        if n - i >= 4 && record_name[i] == 0x2E && record_name[i + 1] == 0x57 && record_name[i
            + 2] == 0x41 && record_name[i + 3] == 0x56 {
            proof {
                assert(rest.subrange(0, 4) =~= wav_upper_suffix());
                assert(rest.subrange(4, rest.len() as int) =~= record_name@.subrange(
                    i + 4,
                    n as int,
                ));
            }
            i = i + 4;
        } else {
            proof {
                if rest.len() >= 4 {
                    assert(rest.subrange(0, 4) != wav_upper_suffix()) by {
                        let t = rest.subrange(0, 4);
                        if record_name@[i as int] != 0x2E {
                            assert(t[0] != wav_upper_suffix()[0]);
                        } else if record_name@[i + 1] != 0x57 {
                            assert(t[1] != wav_upper_suffix()[1]);
                        } else if record_name@[i + 2] != 0x41 {
                            assert(t[2] != wav_upper_suffix()[2]);
                        } else {
                            assert(t[3] != wav_upper_suffix()[3]);
                        }
                    }
                }
                assert(rest.subrange(1, rest.len() as int) =~= record_name@.subrange(
                    i + 1,
                    n as int,
                ));
                assert(out@.push(record_name@[i as int]) + without_wav(
                    record_name@.subrange(i + 1, n as int),
                ) =~= out@ + (seq![rest[0]] + without_wav(rest.subrange(1, rest.len() as int))));
            }
            out.push(record_name[i]);
            i = i + 1;
        }
    }
    proof {
        assert(record_name@.subrange(n as int, n as int) =~= Seq::<u8>::empty());
        assert(without_wav(Seq::<u8>::empty()) =~= Seq::<u8>::empty());
        assert(out@ + Seq::<u8>::empty() =~= out@);
    }
    let ghost mid = out@;
    out.push(0x2E);
    out.push(0x57);
    out.push(0x41);
    out.push(0x56);
    assert(out@ =~= mid + wav_upper_suffix());
    out
}

/// The combined value of oversampled readings does not depend on the order in
/// which the readings came: only on which values were read.
pub proof fn lemma_oversampling_ignores_order(s1: Seq<i32>, s2: Seq<i32>)
    requires
        s1.to_multiset() == s2.to_multiset(),
    ensures
        trimmed_mean_spec(sorted_values(s1)) == trimmed_mean_spec(sorted_values(s2)),
{
    lemma_leq_total();
    s1.lemma_sort_by_ensures(leq_i32());
    s2.lemma_sort_by_ensures(leq_i32());
    vstd::seq_lib::lemma_sorted_unique(sorted_values(s1), sorted_values(s2), leq_i32());
}

/// Every value lies between the smallest and the largest value.
pub proof fn lemma_values_within_extremes(s: Seq<i32>, i: int)
    requires
        0 <= i < s.len(),
    ensures
        seq_min(s) <= s[i] <= seq_max(s),
    decreases s.len(),
{
    if i < s.len() - 1 {
        lemma_values_within_extremes(s.drop_last(), i);
    }
}

proof fn lemma_without_wav_after_plain_stem(stem: Seq<u8>)
    requires
        forall|i: int| 0 <= i < stem.len() ==> #[trigger] stem[i] != 0x2E,
    ensures
        without_wav(stem + wav_upper_suffix()) == stem,
    decreases stem.len(),
{
    let t = stem + wav_upper_suffix();
    if stem.len() == 0 {
        assert(t =~= wav_upper_suffix());
        assert(t.subrange(0, 4) =~= wav_upper_suffix());
        assert(t.subrange(4, t.len() as int) =~= Seq::<u8>::empty());
        assert(without_wav(t.subrange(4, t.len() as int)) == Seq::<u8>::empty());
        assert(without_wav(t) == without_wav(t.subrange(4, t.len() as int)));
        assert(stem =~= Seq::<u8>::empty());
    } else {
        assert(t.subrange(0, 4)[0] == stem[0]);
        assert(t.subrange(0, 4) != wav_upper_suffix());
        let rest = stem.drop_first();
        assert(t.subrange(1, t.len() as int) =~= rest + wav_upper_suffix());
        lemma_without_wav_after_plain_stem(rest);
        assert(t[0] == stem[0]);
        assert(without_wav(t) == seq![t[0]] + without_wav(t.subrange(1, t.len() as int)));
        assert(seq![stem[0]] + rest =~= stem);
    }
}

/// The debug file of a recording `STEM.WAV` whose stem has no dot, such as
/// `REC_0001.WAV`, is `PREFIX_STEM.WAV`: the recording's name with the prefix
/// and an underscore in front.
pub proof fn lemma_debug_name_of_recording(prefix: Seq<u8>, stem: Seq<u8>)
    requires
        forall|i: int| 0 <= i < stem.len() ==> #[trigger] stem[i] != 0x2E,
    ensures
        debug_file_name_spec(prefix, stem + seq![0x2Eu8, 0x57u8, 0x41u8, 0x56u8]) == prefix + seq![
            0x5Fu8,
        ] + stem + seq![0x2Eu8, 0x57u8, 0x41u8, 0x56u8],
{
    assert(seq![0x2Eu8, 0x57u8, 0x41u8, 0x56u8] =~= wav_upper_suffix());
    lemma_without_wav_after_plain_stem(stem);
}

} // verus!
