//! Decoded audio: payloads turned into PCM, its peak, and where the samples of a
//! higher rate lie between those of a lower one.

use vstd::prelude::*;
use vstd::slice::slice_to_vec;

use crate::adpcm::{
    decode_samples, decoder_after, ima_adpcm4_decode, law_pcm_round_trip, pcm_bytes, pcm_samples,
    unpack, ImaAdpcmState, Predictor,
};
use crate::bytes::i16_from_le;
use crate::frame::{AudioFrameHeader, Codec};

verus! {

pub const OUTPUT_SAMPLE_RATE: u32 = 48_000;

/// The PCM bytes that a payload holds for a decoder in state `p`.
pub open spec fn payload_pcm(codec: Codec, payload: Seq<u8>, p: Predictor) -> Seq<u8> {
    match codec {
        Codec::PcmS16Le => payload,
        Codec::ImaAdpcm4 => pcm_bytes(decode_samples(unpack(payload, 2 * payload.len()), p)),
    }
}

/// The state of that decoder afterwards.
pub open spec fn predictor_after(codec: Codec, payload: Seq<u8>, p: Predictor) -> Predictor {
    match codec {
        Codec::PcmS16Le => p,
        Codec::ImaAdpcm4 => decoder_after(unpack(payload, 2 * payload.len()), p),
    }
}

/// The PCM bytes of a payload. PCM is passed on as it is; ADPCM is decoded.
pub fn decode_audio_payload(
    header: &AudioFrameHeader,
    payload: &[u8],
    adpcm_state: &mut ImaAdpcmState,
) -> (pcm: Vec<u8>)
    requires
        old(adpcm_state).wf(),
        header.codec == Codec::ImaAdpcm4 ==> 4 * payload@.len() <= usize::MAX,
    ensures
        final(adpcm_state).wf(),
        pcm@ == payload_pcm(header.codec, payload@, old(adpcm_state)@),
        final(adpcm_state)@ == predictor_after(header.codec, payload@, old(adpcm_state)@),
{
    match header.codec {
        Codec::PcmS16Le => slice_to_vec(payload),
        Codec::ImaAdpcm4 => {
            let sample_count: usize = payload.len() * 2;
            let mut pcm: Vec<u8> = vec![0u8; sample_count * 2];
            let ghost before = pcm@;
            let decoded = ima_adpcm4_decode(
                payload,
                sample_count,
                pcm.as_mut_slice(),
                adpcm_state,
            );
            assert(before.skip(before.len() as int) =~= Seq::<u8>::empty());
            assert(pcm@ =~= payload_pcm(header.codec, payload@, old(adpcm_state)@));
            pcm
        },
    }
}

/// The samples of `payload` as numbers.
pub fn pcm_sample_values(payload: &[u8]) -> (samples: Vec<i16>)
    ensures
        samples@ == pcm_samples(payload@),
{
    let mut samples: Vec<i16> = Vec::new();
    let mut i: usize = 0;
    let total: usize = payload.len();
    while i < total / 2
        invariant
            total == payload@.len(),
            i <= total / 2,
            samples@ == pcm_samples(payload@).take(i as int),
        decreases total / 2 - i,
    {
        let sample: i16 = i16_from_le(payload[2 * i], payload[2 * i + 1]);
        samples.push(sample);
        assert(pcm_samples(payload@).take(i + 1) =~= pcm_samples(payload@).take(i as int).push(
            sample,
        ));
        i += 1;
    }
    assert(pcm_samples(payload@).take(i as int) =~= pcm_samples(payload@));
    samples
}

pub open spec fn amplitude(sample: i16) -> int {
    if sample < 0 {
        -sample
    } else {
        sample as int
    }
}

/// The largest amplitude among `samples`; zero if there are none.
pub open spec fn peak(samples: Seq<i16>) -> int
    decreases samples.len(),
{
    if samples.len() == 0 {
        0
    } else if amplitude(samples.last()) > peak(samples.drop_last()) {
        amplitude(samples.last())
    } else {
        peak(samples.drop_last())
    }
}

/// The peak is the amplitude of some sample, and no sample exceeds it.
pub proof fn law_peak_is_the_maximum(samples: Seq<i16>)
    ensures
        0 <= peak(samples) <= 32_768,
        forall|i: int| 0 <= i < samples.len() ==> amplitude(#[trigger] samples[i]) <= peak(samples),
        samples.len() > 0 ==> exists|i: int|
            0 <= i < samples.len() && amplitude(#[trigger] samples[i]) == peak(samples),
    decreases samples.len(),
{
    if samples.len() > 0 {
        let shorter = samples.drop_last();
        law_peak_is_the_maximum(shorter);
        assert forall|i: int| 0 <= i < samples.len() implies amplitude(#[trigger] samples[i])
            <= peak(samples) by {
            if i < shorter.len() {
                assert(shorter[i] == samples[i]);
            }
        }
        assert(amplitude(samples[samples.len() - 1]) == amplitude(samples.last()));
        if amplitude(samples.last()) <= peak(shorter) && shorter.len() > 0 {
            let i = choose|i: int|
                0 <= i < shorter.len() && amplitude(#[trigger] shorter[i]) == peak(shorter);
            assert(samples[i] == shorter[i]);
        }
    }
}

/// The peak of PCM bytes, in percent of the largest amplitude.
pub open spec fn peak_percent(pcm: Seq<u8>) -> int {
    peak(pcm_samples(pcm)) * 100 / 32_768
}

pub fn pcm_peak_percent(pcm: &[u8]) -> (percent: u8)
    ensures
        percent == peak_percent(pcm@),
        percent <= 100,
{
    let mut loudest: i32 = 0;
    let mut i: usize = 0;
    let total: usize = pcm.len();
    let ghost samples = pcm_samples(pcm@);
    assert(samples.take(0) =~= Seq::<i16>::empty());
    while i < total / 2
        invariant
            total == pcm@.len(),
            i <= total / 2,
            samples == pcm_samples(pcm@),
            0 <= loudest <= 32_768,
            loudest == peak(samples.take(i as int)),
        decreases total / 2 - i,
    {
        let value: i32 = i16_from_le(pcm[2 * i], pcm[2 * i + 1]) as i32;
        let amplitude: i32 = if value < 0 {
            -value
        } else {
            value
        };
        assert(samples.take(i + 1).drop_last() =~= samples.take(i as int));
        if amplitude > loudest {
            loudest = amplitude;
        }
        i += 1;
    }
    assert(samples.take(i as int) =~= samples);
    ((loudest * 100) / 32_768) as u8
}

/// How many samples at the output rate cover `input_samples` at `rate`.
pub open spec fn samples_at_output_rate(input_samples: int, rate: int) -> int {
    if input_samples == 0 || rate == 0 {
        0
    } else {
        (input_samples * OUTPUT_SAMPLE_RATE + rate - 1) / rate
    }
}

pub fn resampled_len(input_samples: usize, input_sample_rate: u32) -> (len: u64)
    requires
        input_samples * 48_000 + input_sample_rate <= u64::MAX,
    ensures
        len == samples_at_output_rate(input_samples as int, input_sample_rate as int),
{
    if input_samples == 0 || input_sample_rate == 0 {
        return 0;
    }
    (input_samples as u64 * 48_000 + input_sample_rate as u64 - 1) / input_sample_rate as u64
}

/// An output sample as a point between two input samples: it lies
/// `remainder / 48000` of the way from `current` to `next`.
#[derive(Debug, Clone, Copy, PartialEq, Eq, Structural)]
pub struct ResamplePoint {
    pub current: i16,
    pub next: i16,
    pub remainder: u32,
}

/// `samples[i]`, or the last sample where `i` is past the end.
pub open spec fn sample_at_or_last(samples: Seq<i16>, i: int) -> i16 {
    if i < samples.len() {
        samples[i]
    } else {
        samples.last()
    }
}

/// Where output sample `i` lies among `samples` of rate `rate`.
pub open spec fn resample_point(samples: Seq<i16>, rate: int, i: int) -> ResamplePoint {
    let position = i * rate;
    ResamplePoint {
        current: sample_at_or_last(samples, position / 48_000),
        next: sample_at_or_last(samples, position / 48_000 + 1),
        remainder: (position % 48_000) as u32,
    }
}

/// Where the first `len` output samples lie among those of `pcm`; without input
/// there are none.
pub fn resample_points(pcm: &[u8], input_sample_rate: u32, len: usize) -> (points: Vec<
    ResamplePoint,
>)
    requires
        pcm@.len() >= 2 ==> (len - 1) * input_sample_rate <= u64::MAX,
    ensures
        points@ == Seq::new(
            if pcm@.len() >= 2 {
                len as nat
            } else {
                0
            },
            |i: int| resample_point(pcm_samples(pcm@), input_sample_rate as int, i),
        ),
{
    let samples = pcm_sample_values(pcm);
    let mut points: Vec<ResamplePoint> = Vec::new();
    if samples.len() == 0 {
        assert(points@ =~= Seq::new(
            0,
            |i: int| resample_point(pcm_samples(pcm@), input_sample_rate as int, i),
        ));
        return points;
    }
    let last: usize = samples.len() - 1;
    let mut i: usize = 0;
    while i < len
        invariant
            i <= len,
            (len - 1) * input_sample_rate <= u64::MAX,
            samples@ == pcm_samples(pcm@),
            last == samples@.len() - 1,
            points@ == Seq::new(
                i as nat,
                |i: int| resample_point(pcm_samples(pcm@), input_sample_rate as int, i),
            ),
        decreases len - i,
    {
        assert(0 <= i * input_sample_rate <= (len - 1) * input_sample_rate) by (nonlinear_arith)
            requires
                0 <= i <= len - 1,
                0 <= input_sample_rate,
        ;
        let position: u64 = i as u64 * input_sample_rate as u64;
        let base: u64 = position / 48_000;
        let current: usize = if base < last as u64 {
            base as usize
        } else {
            last
        };
        let next: usize = if base + 1 < last as u64 {
            (base + 1) as usize
        } else {
            last
        };
        points.push(
            ResamplePoint {
                current: samples[current],
                next: samples[next],
                remainder: (position % 48_000) as u32,
            },
        );
        assert(points@[i as int] == resample_point(
            pcm_samples(pcm@),
            input_sample_rate as int,
            i as int,
        ));
        i += 1;
        assert(points@ =~= Seq::new(
            i as nat,
            |i: int| resample_point(pcm_samples(pcm@), input_sample_rate as int, i),
        ));
    }
    points
}

/// An output sample of a feed at three times the input rate: it lies `thirds / 3`
/// of the way from `current` to `next`.
#[derive(Debug, Clone, Copy, PartialEq, Eq, Structural)]
pub struct TripledPoint {
    pub current: i16,
    pub next: i16,
    pub thirds: u8,
}

/// Output sample `i` at three times the rate of `samples`.
pub open spec fn tripled_point(samples: Seq<i16>, i: int) -> TripledPoint {
    TripledPoint {
        current: samples[i / 3],
        next: sample_at_or_last(samples, i / 3 + 1),
        thirds: (i % 3) as u8,
    }
}

/// The output samples at three times the rate of `payload`.
pub fn triple_rate_points(payload: &[u8]) -> (points: Vec<TripledPoint>)
    ensures
        points@ == Seq::new(
            3 * pcm_samples(payload@).len(),
            |i: int| tripled_point(pcm_samples(payload@), i),
        ),
{
    let samples = pcm_sample_values(payload);
    let mut points: Vec<TripledPoint> = Vec::new();
    let mut index: usize = 0;
    while index < samples.len()
        invariant
            index <= samples@.len(),
            samples@ == pcm_samples(payload@),
            points@.len() == 3 * index,
            forall|i: int|
                0 <= i < 3 * index ==> #[trigger] points@[i] == tripled_point(samples@, i),
        decreases samples@.len() - index,
    {
        let current: i16 = samples[index];
        let next: i16 = if index + 1 < samples.len() {
            samples[index + 1]
        } else {
            current
        };
        let ghost before = points@;
        points.push(TripledPoint { current, next, thirds: 0 });
        points.push(TripledPoint { current, next, thirds: 1 });
        points.push(TripledPoint { current, next, thirds: 2 });
        assert forall|i: int| 0 <= i < 3 * (index + 1) implies #[trigger] points@[i]
            == tripled_point(samples@, i) by {
            if i < 3 * index {
                assert(points@[i] == before[i]);
            } else {
                assert(i / 3 == index);
            }
        }
        index += 1;
    }
    assert(points@ =~= Seq::new(
        3 * pcm_samples(payload@).len(),
        |i: int| tripled_point(pcm_samples(payload@), i),
    ));
    points
}

/// At 16 kHz the general resampling lands on the same points as tripling the
/// rate: a third of the output period is 16000 of 48000.
pub proof fn law_resampling_16k_triples_the_rate(samples: Seq<i16>, i: int)
    requires
        0 <= i < 3 * samples.len(),
    ensures
        samples_at_output_rate(samples.len() as int, 16_000) == 3 * samples.len(),
        ({
            let general = resample_point(samples, 16_000, i);
            let tripled = tripled_point(samples, i);
            &&& general.current == tripled.current
            &&& general.next == tripled.next
            &&& general.remainder == 16_000 * tripled.thirds
        }),
{
}

/// An output sample lies between the two input samples around its time: if its time,
/// in units of one input period over 48000, falls into period `k`, it lies as far
/// behind input sample `k` as it comes later, on the way to the input sample directly
/// after it. Past the last input sample it stays there.
pub proof fn law_points_lie_between_their_neighbours(samples: Seq<i16>, rate: int, i: int, k: int)
    requires
        samples.len() > 0,
        0 <= k,
        48_000 * k <= i * rate < 48_000 * (k + 1),
    ensures
        ({
            let point = resample_point(samples, rate, i);
            &&& k < samples.len() ==> point.current == samples[k]
            &&& k + 1 < samples.len() ==> point.next == samples[k + 1]
            &&& k + 1 >= samples.len() ==> point.next == samples[samples.len() - 1]
            &&& k >= samples.len() ==> point.current == samples[samples.len() - 1]
            &&& point.remainder == i * rate - 48_000 * k
        }),
{
    let position = i * rate;
    assert(position / 48_000 == k);
    assert(position % 48_000 == position - 48_000 * k);
}

/// A ramp of input samples is resampled to a ramp: output sample `i`, as far from
/// `current` to `next` as it lies, has the value of the ramp at its time.
pub proof fn law_a_ramp_is_resampled_to_a_ramp(
    samples: Seq<i16>,
    first: int,
    slope: int,
    rate: int,
    i: int,
)
    requires
        forall|k: int| 0 <= k < samples.len() ==> #[trigger] samples[k] == first + k * slope,
        0 <= i * rate < 48_000 * (samples.len() - 1),
    ensures
        ({
            let point = resample_point(samples, rate, i);
            48_000 * point.current + point.remainder * (point.next - point.current) == 48_000
                * first + (i * rate) * slope
        }),
{
    let position = i * rate;
    let k = position / 48_000;
    let remainder = position % 48_000;
    law_points_lie_between_their_neighbours(samples, rate, i, k);
    assert(samples[k] == first + k * slope);
    assert(samples[k + 1] == first + (k + 1) * slope);
    assert((k + 1) * slope == k * slope + slope) by (nonlinear_arith);
    assert(position * slope == 48_000 * (k * slope) + remainder * slope) by (nonlinear_arith)
        requires
            position == 48_000 * k + remainder,
    ;
}

/// At three times the rate, the three output samples of input period `k` lie none, one
/// and two thirds of the way from input sample `k` to the one directly after it; behind
/// the last input sample they stay there.
pub proof fn law_tripled_points_lie_between_their_neighbours(samples: Seq<i16>, i: int, k: int)
    requires
        0 <= k < samples.len(),
        3 * k <= i < 3 * (k + 1),
    ensures
        ({
            let point = tripled_point(samples, i);
            &&& point.current == samples[k]
            &&& k + 1 < samples.len() ==> point.next == samples[k + 1]
            &&& k + 1 == samples.len() ==> point.next == samples[k]
            &&& point.thirds == i - 3 * k
        }),
{
    assert(i / 3 == k);
}

/// A ramp is a ramp at three times the rate, too.
pub proof fn law_a_ramp_is_tripled_to_a_ramp(samples: Seq<i16>, first: int, slope: int, i: int)
    requires
        forall|k: int| 0 <= k < samples.len() ==> #[trigger] samples[k] == first + k * slope,
        0 <= i < 3 * (samples.len() - 1),
    ensures
        ({
            let point = tripled_point(samples, i);
            3 * point.current + point.thirds * (point.next - point.current) == 3 * first + i
                * slope
        }),
{
    let k = i / 3;
    let thirds = i % 3;
    law_tripled_points_lie_between_their_neighbours(samples, i, k);
    assert(samples[k] == first + k * slope);
    assert(samples[k + 1] == first + (k + 1) * slope);
    assert((k + 1) * slope == k * slope + slope) by (nonlinear_arith);
    assert(i * slope == 3 * (k * slope) + thirds * slope) by (nonlinear_arith)
        requires
            i == 3 * k + thirds,
    ;
}

/// The output samples cover the time of the input samples, and one less would not.
pub proof fn law_the_output_lasts_as_long_as_the_input(input_samples: int, rate: int)
    requires
        input_samples > 0,
        rate > 0,
    ensures
        ({
            let len = samples_at_output_rate(input_samples, rate);
            &&& 0 < len
            &&& (len - 1) * rate < input_samples * 48_000 <= len * rate
        }),
{
    let total = input_samples * 48_000;
    let sum = total + rate - 1;
    let len = sum / rate;
    vstd::arithmetic::div_mod::lemma_fundamental_div_mod(sum, rate);
    vstd::arithmetic::div_mod::lemma_mod_bound(sum, rate);
    assert(len * rate == rate * len) by (nonlinear_arith);
    assert((len - 1) * rate == len * rate - rate) by (nonlinear_arith);
    assert(len > 0) by (nonlinear_arith)
        requires
            len * rate > 0,
            rate > 0,
    ;
}

/// The level is the peak in percent of the largest amplitude, rounded down.
pub proof fn law_the_level_is_the_peak_in_percent(samples: Seq<i16>)
    ensures
        ({
            let percent = peak_percent(pcm_bytes(samples));
            &&& 32_768 * percent <= 100 * peak(samples) < 32_768 * (percent + 1)
            &&& percent == 100 <==> exists|i: int|
                0 <= i < samples.len() && #[trigger] samples[i] == i16::MIN
            &&& (forall|i: int| 0 <= i < samples.len() ==> #[trigger] samples[i] == 0) ==> percent
                == 0
        }),
{
    law_pcm_round_trip(samples);
    law_peak_is_the_maximum(samples);
    if exists|i: int| 0 <= i < samples.len() && #[trigger] samples[i] == i16::MIN {
        let i = choose|i: int| 0 <= i < samples.len() && #[trigger] samples[i] == i16::MIN;
        assert(amplitude(samples[i]) == 32_768);
    }
    if samples.len() > 0 {
        let i = choose|i: int|
            0 <= i < samples.len() && amplitude(#[trigger] samples[i]) == peak(samples);
        assert(samples[i] == samples[i]);
    }
}

/// A payload of PCM is heard as it is, and one of ADPCM gives four bytes for each of
/// its own.
pub proof fn law_payloads_give_all_their_samples(codec: Codec, payload: Seq<u8>, p: Predictor)
    ensures
        codec == Codec::PcmS16Le ==> payload_pcm(codec, payload, p) == payload && predictor_after(
            codec,
            payload,
            p,
        ) == p,
        codec == Codec::ImaAdpcm4 ==> payload_pcm(codec, payload, p).len() == 4 * payload.len(),
{
}

} // verus!
