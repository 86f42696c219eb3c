//! Decoding of PCM frames into mono 16-bit samples, and their peak level.

use vstd::prelude::*;

use crate::wav::{WavError, WavInfo};

verus! {

/// Division rounding toward zero, as integer division does in Rust.
pub open spec fn trunc_div(a: int, b: int) -> int {
    if a >= 0 {
        a / b
    } else {
        -((-a) / b)
    }
}

/// The signed 16-bit value of the little-endian bytes `lo`, `hi`.
pub open spec fn i16_le(lo: u8, hi: u8) -> int {
    let v = lo + 256 * hi;
    if v >= 32768 {
        v - 65536
    } else {
        v
    }
}

/// The value of channel `ch` of `frame` on the 16-bit scale: an 8-bit
/// unsigned sample is centred on 128 and scaled by 256; a 16-bit sample is
/// taken as it is.
pub open spec fn channel_value(frame: Seq<u8>, bits: u16, ch: int) -> int {
    if bits == 8 {
        (frame[ch] - 128) * 256
    } else {
        i16_le(frame[2 * ch], frame[2 * ch + 1])
    }
}

/// The sum of the first `n` channel values of `frame`.
pub open spec fn channel_sum(frame: Seq<u8>, bits: u16, n: int) -> int
    decreases n,
{
    if n <= 0 {
        0
    } else {
        channel_sum(frame, bits, n - 1) + channel_value(frame, bits, n - 1)
    }
}

pub open spec fn clamp_i16(x: int) -> i16 {
    if x < -32768 {
        i16::MIN
    } else if x > 32767 {
        i16::MAX
    } else {
        x as i16
    }
}

/// The mono sample of a frame: the mean of its channel values (rounded toward
/// zero), clamped to the 16-bit range.
pub open spec fn mono_sample(frame: Seq<u8>, bits: u16, channels: u16) -> i16 {
    clamp_i16(trunc_div(channel_sum(frame, bits, channels as int), channels as int))
}

proof fn lemma_channel_value_bounds(frame: Seq<u8>, bits: u16, ch: int)
    ensures
        -32768 <= channel_value(frame, bits, ch) <= 32767,
{
}

fn channel_value_exec(frame: &[u8], bits: u16, ch: usize) -> (v: i32)
    requires
        bits == 8 ==> ch < frame@.len(),
        bits != 8 ==> 2 * ch + 1 < frame@.len(),
    ensures
        v == channel_value(frame@, bits, ch as int),
{
    if bits == 8 {
        (frame[ch] as i32 - 128) * 256
    } else {
        assert(frame@.len() == frame.len());
        let lo = frame[2 * ch] as i32;
        let hi = frame[2 * ch + 1] as i32;
        let v = lo + 256 * hi;
        if v >= 32768 {
            v - 65536
        } else {
            v
        }
    }
}

fn trunc_div_exec(a: i32, b: i32) -> (q: i32)
    requires
        b > 0,
    ensures
        q == trunc_div(a as int, b as int),
{
    a / b
}

/// Decodes one frame into a mono sample: the channels are averaged.
pub fn decode_frame_to_mono_i16(frame: &[u8], info: WavInfo) -> (r: Result<i16, WavError>)
    requires
        info.bits_per_sample == 8 ==> info.channels >= 1 && frame@.len() >= info.channels,
        info.bits_per_sample == 16 ==> info.channels >= 1 && frame@.len() >= 2 * info.channels,
    ensures
        info.bits_per_sample == 8 || info.bits_per_sample == 16 ==> r == Ok::<i16, WavError>(
            mono_sample(frame@, info.bits_per_sample, info.channels),
        ),
        info.bits_per_sample != 8 && info.bits_per_sample != 16 ==> r == Err::<i16, WavError>(
            WavError::UnsupportedBitDepth(info.bits_per_sample),
        ),
{
    let bits = info.bits_per_sample;
    if bits != 8 && bits != 16 {
        return Err(WavError::UnsupportedBitDepth(bits));
    }
    let channels = info.channels as usize;
    let mut sum: i32 = 0;
    let mut ch: usize = 0;
    while ch < channels
        invariant
            bits == info.bits_per_sample,
            bits == 8 || bits == 16,
            channels == info.channels,
            bits == 8 ==> frame@.len() >= channels,
            bits == 16 ==> frame@.len() >= 2 * channels,
            ch <= channels,
            sum == channel_sum(frame@, bits, ch as int),
            -32768 * ch <= sum <= 32767 * ch,
        decreases channels - ch,
    {
        proof {
            lemma_channel_value_bounds(frame@, bits, ch as int);
        }
        let v = channel_value_exec(frame, bits, ch);
        sum = sum + v;
        ch = ch + 1;
    }
    let mean = trunc_div_exec(sum, channels as i32);
    let clamped = if mean < -32768 {
        -32768
    } else if mean > 32767 {
        32767
    } else {
        mean
    };
    Ok(clamped as i16)
}

/// Decodes a block of whole frames, `bytes.len() / bytes_per_frame` of them.
pub fn decode_pcm_block(bytes: &[u8], info: WavInfo) -> (r: Result<Vec<i16>, WavError>)
    requires
        info.bits_per_sample == 8 || info.bits_per_sample == 16 ==> info.channels >= 1,
    ensures
        match info.bytes_per_frame_spec() {
            Some(bpf) => {
                &&& r is Ok
                &&& r->Ok_0@.len() == bytes@.len() / bpf
                &&& forall|k: int|
                    0 <= k < r->Ok_0@.len() ==> #[trigger] r->Ok_0@[k] == mono_sample(
                        bytes@.subrange(k * bpf, (k + 1) * bpf),
                        info.bits_per_sample,
                        info.channels,
                    )
            },
            None => r == Err::<Vec<i16>, WavError>(
                WavError::UnsupportedBitDepth(info.bits_per_sample),
            ),
        },
{
    let bpf = match info.bytes_per_frame() {
        Ok(n) => n,
        Err(e) => {
            return Err(e);
        },
    };
    let ghost bpf_n = info.bytes_per_frame_spec()->0;
    assert(bpf == bpf_n);
    let count = bytes.len() / bpf;
    let mut samples: Vec<i16> = Vec::new();
    let mut k: usize = 0;
    let mut off: usize = 0;
    while k < count
        invariant
            bpf == bpf_n,
            bpf >= 1,
            count == bytes@.len() / bpf_n,
            info.bits_per_sample == 8 ==> bpf == info.channels,
            info.bits_per_sample == 16 ==> bpf == 2 * info.channels,
            info.bits_per_sample == 8 || info.bits_per_sample == 16,
            info.channels >= 1,
            k <= count,
            off == k * bpf,
            samples@.len() == k,
            forall|j: int|
                0 <= j < k ==> #[trigger] samples@[j] == mono_sample(
                    bytes@.subrange(j * bpf_n, (j + 1) * bpf_n),
                    info.bits_per_sample,
                    info.channels,
                ),
        decreases count - k,
    {
        proof {
            assert((k + 1) * bpf <= count * bpf) by (nonlinear_arith)
                requires
                    k < count,
                    bpf >= 1,
            ;
            assert(count * bpf <= bytes@.len()) by (nonlinear_arith)
                requires
                    count == bytes@.len() / (bpf as nat),
                    bpf >= 1,
            ;
            assert((k + 1) * bpf == off + bpf) by (nonlinear_arith)
                requires
                    off == k * bpf,
            ;
            assert(off + bpf <= bytes.len());
        }
        let frame = &bytes[off..off + bpf];
        let s = match decode_frame_to_mono_i16(frame, info) {
            Ok(s) => s,
            Err(e) => {
                return Err(e);
            },
        };
        samples.push(s);
        off = off + bpf;
        k = k + 1;
    }
    Ok(samples)
}

/// The largest magnitude among `samples`, 0 for no samples.
pub open spec fn is_peak(samples: Seq<i16>, peak: int) -> bool {
    &&& forall|i: int| 0 <= i < samples.len() ==> abs(samples[i] as int) <= peak
    &&& (samples.len() == 0 ==> peak == 0)
    &&& (samples.len() > 0 ==> exists|i: int|
        0 <= i < samples.len() && abs(samples[i] as int) == peak)
}

pub open spec fn abs(x: int) -> int {
    if x < 0 {
        -x
    } else {
        x
    }
}

/// The peak magnitude of a block of samples, on the 16-bit scale (32768 for
/// the most negative sample).
pub fn peak_abs(samples: &[i16]) -> (peak: i32)
    ensures
        is_peak(samples@, peak as int),
{
    let mut peak: i32 = 0;
    let mut i: usize = 0;
    while i < samples.len()
        invariant
            i <= samples@.len(),
            0 <= peak <= 32768,
            forall|j: int| 0 <= j < i ==> abs(samples@[j] as int) <= peak,
            i == 0 ==> peak == 0,
            i > 0 ==> exists|j: int| 0 <= j < i && abs(samples@[j] as int) == peak,
        decreases samples.len() - i,
    {
        let s = samples[i] as i32;
        let a = if s < 0 {
            -s
        } else {
            s
        };
        if a > peak {
            peak = a;
        }
        proof {
            if i == 0 {
                assert(abs(samples@[0] as int) == peak);
            }
        }
        i = i + 1;
    }
    peak
}

/// An 8-bit mono frame, as the recorder writes it, decodes to its distance
/// from the midpoint 128 scaled to the 16-bit range.
pub proof fn lemma_recorded_frame_decodes(u: u8)
    ensures
        mono_sample(seq![u], 8, 1) == (u - 128) * 256,
{
    let f = seq![u];
    assert(channel_sum(f, 8, 1) == channel_sum(f, 8, 0) + channel_value(f, 8, 0));
    assert(channel_sum(f, 8, 1) == (u - 128) * 256);
}

/// Division rounding toward zero: the quotient times the divisor lies
/// between zero and the dividend, less than one divisor away from it.
pub proof fn lemma_trunc_div_rounds_toward_zero(a: int, b: int)
    requires
        b > 0,
    ensures
        a >= 0 ==> 0 <= trunc_div(a, b) * b <= a < trunc_div(a, b) * b + b,
        a < 0 ==> a <= trunc_div(a, b) * b <= 0 && trunc_div(a, b) * b - b < a,
{
    let x = if a >= 0 {
        a
    } else {
        -a
    };
    let q = x / b;
    let r = x % b;
    vstd::arithmetic::div_mod::lemma_fundamental_div_mod(x, b);
    vstd::arithmetic::div_mod::lemma_mod_bound(x, b);
    vstd::arithmetic::div_mod::lemma_div_pos_is_pos(x, b);
    vstd::arithmetic::mul::lemma_mul_nonnegative(q, b);
    assert(x == b * q + r);
    assert(q * b == b * q) by (nonlinear_arith);
    if a < 0 {
        assert(trunc_div(a, b) == -q);
        assert(trunc_div(a, b) * b == -(q * b)) by (nonlinear_arith)
            requires
                trunc_div(a, b) == -q,
        ;
    }
}

/// A 16-bit mono frame decodes to its two bytes read as a little-endian
/// two's-complement number.
pub proof fn lemma_16bit_frame_decodes(lo: u8, hi: u8)
    ensures
        mono_sample(seq![lo, hi], 16, 1) == lo + 256 * hi - if hi >= 128 {
            65536int
        } else {
            0int
        },
{
    let f = seq![lo, hi];
    assert(channel_sum(f, 16, 1) == channel_sum(f, 16, 0) + channel_value(f, 16, 0));
}

/// The peak is a magnitude: no sample lies outside `-peak..=peak`, and some
/// sample is `peak` or `-peak` (0 for no samples).
pub proof fn lemma_peak_bounds_samples(samples: Seq<i16>, peak: int)
    requires
        is_peak(samples, peak),
    ensures
        peak >= 0,
        forall|i: int| 0 <= i < samples.len() ==> -peak <= #[trigger] samples[i] <= peak,
        samples.len() > 0 ==> exists|i: int|
            0 <= i < samples.len() && (samples[i] == peak || samples[i] == -peak),
{
    if samples.len() > 0 {
        let i = choose|i: int| 0 <= i < samples.len() && abs(samples[i] as int) == peak;
        assert(samples[i] == peak || samples[i] == -peak);
    }
}

} // verus!
