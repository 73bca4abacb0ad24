//! Audio samples and how loud they are.
//!
//! A sample is a 32-bit IEEE 754 number, held here as its bit pattern: the sign
//! is the topmost bit, and the rest, read as an integer, is the *magnitude*.
//! Magnitudes order the numbers by absolute value, so a comparison of loudness
//! is a comparison of integers. A magnitude above that of infinity is no number
//! at all and counts as no sound.

use vstd::prelude::*;

verus! {

/// Samples per second that the speech model expects.
pub const WHISPER_SAMPLE_RATE: usize = 16_000;

/// Magnitude below which a chunk counts as silence: the bit pattern of 0.02,
/// where full scale is 1; about -34 dBFS, above room noise.
/// The model hallucinates confident phrases on silence, so silence is not
/// decoded.
pub const SILENCE_PEAK: u32 = 0x3ca3_d70a;

/// The magnitude of infinity.
pub const INFINITE_MAGNITUDE: u32 = 0x7f80_0000;

/// The magnitude of a sample: its bit pattern without the sign.
pub open spec fn magnitude(sample: u32) -> u32 {
    sample % 0x8000_0000
}

/// How loud a sample is: its magnitude, or 0 where it is no number.
pub open spec fn loudness(sample: u32) -> u32 {
    if magnitude(sample) > INFINITE_MAGNITUDE {
        0
    } else {
        magnitude(sample)
    }
}

/// The loudness of the loudest sample; 0 where there is none.
pub open spec fn peak(samples: Seq<u32>) -> u32
    decreases samples.len(),
{
    if samples.len() == 0 {
        0
    } else {
        let rest = peak(samples.drop_last());
        if loudness(samples.last()) > rest {
            loudness(samples.last())
        } else {
            rest
        }
    }
}

/// Whether a chunk holds voice: its peak reaches `SILENCE_PEAK`.
pub open spec fn is_voiced(samples: Seq<u32>) -> bool {
    peak(samples) >= SILENCE_PEAK
}

/// No sample is louder than the peak, and where the peak is not 0 some sample
/// is as loud as that.
pub proof fn law_peak_is_the_loudest(samples: Seq<u32>)
    ensures
        forall|i: int| 0 <= i < samples.len() ==> loudness(#[trigger] samples[i]) <= peak(samples),
        peak(samples) > 0 ==> exists|i: int|
            0 <= i < samples.len() && loudness(#[trigger] samples[i]) == peak(samples),
    decreases samples.len(),
{
    if samples.len() > 0 {
        let rest = samples.drop_last();
        law_peak_is_the_loudest(rest);
        assert forall|i: int| 0 <= i < samples.len() implies loudness(#[trigger] samples[i]) <= peak(
            samples,
        ) by {
            if i < rest.len() {
                assert(loudness(rest[i]) <= peak(rest));
            }
        }
        if loudness(samples.last()) > peak(rest) {
            assert(loudness(samples[samples.len() - 1]) == peak(samples));
        } else if peak(rest) > 0 {
            let i = choose|i: int| 0 <= i < rest.len() && loudness(#[trigger] rest[i]) == peak(rest);
            assert(loudness(samples[i]) == peak(samples));
        }
    }
}

/// A chunk is voiced exactly where one of its samples is at least as loud as
/// `SILENCE_PEAK`.
pub proof fn law_voiced_iff_a_sample_is_loud(samples: Seq<u32>)
    ensures
        is_voiced(samples) <==> exists|i: int|
            0 <= i < samples.len() && loudness(#[trigger] samples[i]) >= SILENCE_PEAK,
{
    law_peak_is_the_loudest(samples);
    if is_voiced(samples) {
        let i = choose|i: int|
            0 <= i < samples.len() && loudness(#[trigger] samples[i]) == peak(samples);
        assert(loudness(samples[i]) >= SILENCE_PEAK);
    }
}

/// The sign of a sample does not bear on its loudness.
pub proof fn law_loudness_ignores_the_sign(sample: u32)
    requires
        sample < 0x8000_0000,
    ensures
        loudness((sample + 0x8000_0000) as u32) == loudness(sample),
{
}

/// Number of samples in `ms` milliseconds of audio.
pub fn ms_to_samples(ms: u64) -> (samples: usize)
    requires
        ms * WHISPER_SAMPLE_RATE <= usize::MAX,
    ensures
        samples == ms * WHISPER_SAMPLE_RATE / 1000,
{
    ((ms as usize) * WHISPER_SAMPLE_RATE) / 1000
}

/// The loudness of one sample.
pub fn sample_loudness(sample: u32) -> (loud: u32)
    ensures
        loud == loudness(sample),
{
    assert(sample & 0x7fff_ffff == sample % 0x8000_0000) by (bit_vector);
    let size: u32 = sample & 0x7fff_ffff;
    if size > INFINITE_MAGNITUDE {
        0
    } else {
        size
    }
}

/// The loudness of the loudest sample of a chunk.
pub fn chunk_peak(samples: &[u32]) -> (loudest: u32)
    ensures
        loudest == peak(samples@),
{
    let mut loudest: u32 = 0;
    for i in 0..samples.len()
        invariant
            loudest == peak(samples@.take(i as int)),
    {
        assert(samples@.take(i + 1).drop_last() =~= samples@.take(i as int));
        let loud: u32 = sample_loudness(samples[i]);
        if loud > loudest {
            loudest = loud;
        }
    }
    assert(samples@.take(samples@.len() as int) =~= samples@);
    loudest
}

/// A sample that is a number counts with its absolute value, so that of two
/// numbers the one with the greater absolute value is the louder; one that is no
/// number counts as silence. In bit patterns: 0 to 0x7f80_0000 are the numbers
/// that are not negative, in order.
pub proof fn law_loudness_is_the_absolute_value(sample: u32)
    ensures
        sample <= 0x7f80_0000 ==> loudness(sample) == sample,
        0x7f80_0000 < sample < 0x8000_0000 ==> loudness(sample) == 0,
        0x8000_0000 <= sample <= 0xff80_0000 ==> loudness(sample) == sample - 0x8000_0000,
        0xff80_0000 < sample ==> loudness(sample) == 0,
{
}

/// The peak of two chunks together is the greater of their peaks.
pub proof fn law_peak_of_both_is_the_greater(a: Seq<u32>, b: Seq<u32>)
    ensures
        peak(a + b) == if peak(a) > peak(b) {
            peak(a)
        } else {
            peak(b)
        },
    decreases b.len(),
{
    if b.len() == 0 {
        assert(a + b =~= a);
    } else {
        assert((a + b).drop_last() =~= a + b.drop_last());
        law_peak_of_both_is_the_greater(a, b.drop_last());
    }
}

} // verus!
