//! IMA ADPCM with four bits per sample, and 16-bit PCM as bytes.

use vstd::prelude::*;

use crate::bytes::{i16_from_le, i16_to_le, le_i16, le_i16_bytes, lemma_i16_round_trip};
use crate::frame::ProtocolError;

verus! {

pub const IMA_ADPCM4_SAMPLES_PER_BYTE: usize = 2;

pub const IMA_ADPCM_INDEX_TABLE: [i8; 16] = [
    -1, -1, -1, -1, 2, 4, 6, 8, -1, -1, -1, -1, 2, 4, 6, 8,
];

pub const IMA_ADPCM_STEP_TABLE: [i16; 89] = [
    7, 8, 9, 10, 11, 12, 13, 14, 16, 17, 19, 21, 23, 25, 28, 31, 34, 37, 41, 45, 50, 55, 60, 66,
    73, 80, 88, 97, 107, 118, 130, 143, 157, 173, 190, 209, 230, 253, 279, 307, 337, 371, 408, 449,
    494, 544, 598, 658, 724, 796, 876, 963, 1060, 1166, 1282, 1411, 1552, 1707, 1878, 2066, 2272,
    2499, 2749, 3024, 3327, 3660, 4026, 4428, 4871, 5358, 5894, 6484, 7132, 7845, 8630, 9493,
    10442, 11487, 12635, 13899, 15289, 16818, 18500, 20350, 22385, 24623, 27086, 29794, 32767,
];

/// What the coder remembers between samples: the last value it produced and
/// where it stands in the step table.
pub ghost struct Predictor {
    pub value: int,
    pub index: int,
}

impl Predictor {
    pub open spec fn wf(self) -> bool {
        &&& i16::MIN <= self.value <= i16::MAX
        &&& 0 <= self.index < IMA_ADPCM_STEP_TABLE@.len()
    }

    pub open spec fn step(self) -> int {
        IMA_ADPCM_STEP_TABLE@[self.index] as int
    }
}

#[derive(Debug, Clone, Copy, PartialEq, Eq, Structural)]
pub struct ImaAdpcmState {
    predictor: i16,
    step_index: u8,
}

impl View for ImaAdpcmState {
    type V = Predictor;

    closed spec fn view(&self) -> Predictor {
        Predictor { value: self.predictor as int, index: self.step_index as int }
    }
}

/// The state before the first sample of a stream.
pub open spec fn initial_predictor() -> Predictor {
    Predictor { value: 0, index: 0 }
}

impl ImaAdpcmState {
    pub open spec fn wf(self) -> bool {
        self@.wf()
    }

    pub fn new() -> (state: ImaAdpcmState)
        ensures
            state@ == initial_predictor(),
            state.wf(),
    {
        ImaAdpcmState { predictor: 0, step_index: 0 }
    }

    pub fn reset(&mut self)
        ensures
            final(self)@ == initial_predictor(),
            final(self).wf(),
    {
        *self = ImaAdpcmState::new();
    }
}

impl Default for ImaAdpcmState {
    fn default() -> (state: ImaAdpcmState)
        ensures
            state@ == initial_predictor(),
            state.wf(),
    {
        ImaAdpcmState::new()
    }
}

/// `value` moved into the range from `low` to `high`.
pub open spec fn clamped(value: int, low: int, high: int) -> int {
    if value < low {
        low
    } else if value > high {
        high
    } else {
        value
    }
}

/// How far `nibble` moves the predictor: its three low bits are worth a whole,
/// a half and a quarter step, and an eighth is always added.
pub open spec fn nibble_distance(step: int, nibble: int) -> int {
    step / 8 + (if (nibble / 4) % 2 == 1 {
        step
    } else {
        0
    }) + (if (nibble / 2) % 2 == 1 {
        step / 2
    } else {
        0
    }) + (if nibble % 2 == 1 {
        step / 4
    } else {
        0
    })
}

/// The state after decoding `nibble`; its bit of value eight is the sign.
#[verifier::opaque]
pub open spec fn decode_step(p: Predictor, nibble: int) -> Predictor {
    let distance = nibble_distance(p.step(), nibble);
    let moved = if nibble >= 8 {
        p.value - distance
    } else {
        p.value + distance
    };
    Predictor {
        value: clamped(moved, i16::MIN as int, i16::MAX as int),
        index: clamped(
            p.index + IMA_ADPCM_INDEX_TABLE@[nibble],
            0,
            IMA_ADPCM_STEP_TABLE@.len() - 1,
        ),
    }
}

/// The number of whole, half and quarter steps, as three bits, that fit into
/// `distance` one after the other.
pub open spec fn quantized(step: int, distance: int) -> int {
    let whole: int = if distance >= step {
        1
    } else {
        0
    };
    let after_whole = distance - whole * step;
    let half: int = if after_whole >= step / 2 {
        1
    } else {
        0
    };
    let after_half = after_whole - half * (step / 2);
    let quarter: int = if after_half >= step / 4 {
        1
    } else {
        0
    };
    4 * whole + 2 * half + quarter
}

/// The nibble that encodes `sample`.
#[verifier::opaque]
pub open spec fn encode_nibble(p: Predictor, sample: int) -> int {
    if sample < p.value {
        8 + quantized(p.step(), p.value - sample)
    } else {
        quantized(p.step(), sample - p.value)
    }
}

/// The state after encoding `samples`.
pub open spec fn encoder_after(samples: Seq<i16>, p: Predictor) -> Predictor
    decreases samples.len(),
{
    if samples.len() == 0 {
        p
    } else {
        let before = encoder_after(samples.drop_last(), p);
        decode_step(before, encode_nibble(before, samples.last() as int))
    }
}

/// The nibbles that encode `samples`.
pub open spec fn encode_nibbles(samples: Seq<i16>, p: Predictor) -> Seq<u8>
    decreases samples.len(),
{
    if samples.len() == 0 {
        Seq::empty()
    } else {
        let before = encoder_after(samples.drop_last(), p);
        encode_nibbles(samples.drop_last(), p).push(
            encode_nibble(before, samples.last() as int) as u8,
        )
    }
}

/// The state after decoding `nibbles`.
pub open spec fn decoder_after(nibbles: Seq<u8>, p: Predictor) -> Predictor
    decreases nibbles.len(),
{
    if nibbles.len() == 0 {
        p
    } else {
        decode_step(decoder_after(nibbles.drop_last(), p), nibbles.last() as int)
    }
}

/// The samples that `nibbles` decode to.
pub open spec fn decode_samples(nibbles: Seq<u8>, p: Predictor) -> Seq<i16> {
    Seq::new(nibbles.len(), |i: int| decoder_after(nibbles.take(i + 1), p).value as i16)
}

/// Two nibbles to a byte, the earlier one in the low half; an odd one out leaves
/// the high half of the last byte zero.
pub open spec fn pack(nibbles: Seq<u8>) -> Seq<u8> {
    Seq::new(
        (nibbles.len() + 1) / 2,
        |i: int|
            (nibbles[2 * i] + 16 * (if 2 * i + 1 < nibbles.len() {
                nibbles[2 * i + 1] as int
            } else {
                0
            })) as u8,
    )
}

/// The first `count` nibbles of `bytes`.
pub open spec fn unpack(bytes: Seq<u8>, count: nat) -> Seq<u8> {
    Seq::new(
        count,
        |i: int|
            if i % 2 == 0 {
                bytes[i / 2] % 16
            } else {
                bytes[i / 2] / 16
            },
    )
}

/// The 16-bit samples in `bytes`; an odd last byte belongs to none.
pub open spec fn pcm_samples(bytes: Seq<u8>) -> Seq<i16> {
    Seq::new(bytes.len() / 2, |i: int| le_i16(bytes[2 * i], bytes[2 * i + 1]))
}

/// The bytes of `samples`, each least significant first.
pub open spec fn pcm_bytes(samples: Seq<i16>) -> Seq<u8> {
    Seq::new(2 * samples.len(), |i: int| le_i16_bytes(samples[i / 2])[i % 2])
}

/// PCM bytes hold the samples they were made from.
pub proof fn law_pcm_round_trip(samples: Seq<i16>)
    ensures
        pcm_samples(pcm_bytes(samples)) == samples,
{
    assert forall|i: int| 0 <= i < samples.len() implies pcm_samples(pcm_bytes(samples))[i]
        == samples[i] by {
        lemma_i16_round_trip(samples[i]);
    }
    assert(pcm_samples(pcm_bytes(samples)) =~= samples);
}

/// Writing a sample's bytes behind those of `done` appends the sample.
proof fn lemma_pcm_bytes_push(done: Seq<i16>, sample: i16, before: Seq<u8>)
    requires
        2 * done.len() + 2 <= before.len(),
    ensures
        ({
            let at = 2 * done.len() as int;
            let pair = le_i16_bytes(sample);
            (pcm_bytes(done) + before.skip(at)).update(at, pair[0]).update(at + 1, pair[1])
                == pcm_bytes(done.push(sample)) + before.skip(at + 2)
        }),
{
    let at = 2 * done.len() as int;
    let pair = le_i16_bytes(sample);
    let left = (pcm_bytes(done) + before.skip(at)).update(at, pair[0]).update(at + 1, pair[1]);
    let right = pcm_bytes(done.push(sample)) + before.skip(at + 2);
    assert forall|k: int| 0 <= k < left.len() implies left[k] == right[k] by {
        if k < at {
            assert(done.push(sample)[k / 2] == done[k / 2]);
        }
    }
    assert(left =~= right);
}

proof fn lemma_step_table_range()
    ensures
        forall|i: int| 0 <= i < 89 ==> 7 <= #[trigger] IMA_ADPCM_STEP_TABLE@[i],
{
}

proof fn lemma_index_table_range()
    ensures
        forall|i: int| 0 <= i < 16 ==> -1 <= #[trigger] IMA_ADPCM_INDEX_TABLE@[i] <= 8,
{
}

proof fn lemma_encode_nibble_range(p: Predictor, sample: int)
    ensures
        0 <= encode_nibble(p, sample) < 16,
{
    reveal(encode_nibble);
}

pub proof fn lemma_decode_step_wf(p: Predictor, nibble: int)
    requires
        p.wf(),
        0 <= nibble < 16,
    ensures
        decode_step(p, nibble).wf(),
{
    reveal(decode_step);
}

pub proof fn lemma_encoder_after_wf(samples: Seq<i16>, p: Predictor)
    requires
        p.wf(),
    ensures
        encoder_after(samples, p).wf(),
    decreases samples.len(),
{
    if samples.len() > 0 {
        let before = encoder_after(samples.drop_last(), p);
        lemma_encoder_after_wf(samples.drop_last(), p);
        lemma_encode_nibble_range(before, samples.last() as int);
        lemma_decode_step_wf(before, encode_nibble(before, samples.last() as int));
    }
}

pub proof fn lemma_encode_nibbles(samples: Seq<i16>, p: Predictor)
    ensures
        encode_nibbles(samples, p).len() == samples.len(),
        forall|i: int|
            0 <= i < samples.len() ==> 0 <= #[trigger] encode_nibbles(samples, p)[i] < 16,
        forall|i: int|
            0 <= i <= samples.len() ==> #[trigger] encode_nibbles(samples, p).take(i)
                == encode_nibbles(samples.take(i), p),
    decreases samples.len(),
{
    let nibbles = encode_nibbles(samples, p);
    if samples.len() > 0 {
        let before = encoder_after(samples.drop_last(), p);
        lemma_encode_nibbles(samples.drop_last(), p);
        lemma_encode_nibble_range(before, samples.last() as int);
        assert forall|i: int| 0 <= i <= samples.len() implies #[trigger] nibbles.take(i)
            == encode_nibbles(samples.take(i), p) by {
            if i == samples.len() {
                assert(samples.take(i) =~= samples);
                assert(nibbles.take(i) =~= nibbles);
            } else {
                let shorter = encode_nibbles(samples.drop_last(), p);
                assert(samples.take(i) =~= samples.drop_last().take(i));
                assert(nibbles.take(i) =~= shorter.take(i));
            }
        }
    } else {
        assert(samples.take(0) =~= samples);
        assert(nibbles.take(0) =~= nibbles);
    }
}

/// Encoding a stream in two pieces, the first with an even number of samples,
/// gives the bytes and the final state of encoding it in one.
pub proof fn law_streaming_encode_matches_one_pass(a: Seq<i16>, b: Seq<i16>, p: Predictor)
    requires
        a.len() % 2 == 0,
    ensures
        encoder_after(a + b, p) == encoder_after(b, encoder_after(a, p)),
        pack(encode_nibbles(a + b, p)) == pack(encode_nibbles(a, p)) + pack(
            encode_nibbles(b, encoder_after(a, p)),
        ),
{
    lemma_encode_concat(a, b, p);
    assert(encode_nibbles(a, p).len() == a.len()) by {
        lemma_encode_nibbles(a, p);
    }
    lemma_pack_concat(encode_nibbles(a, p), encode_nibbles(b, encoder_after(a, p)));
}

proof fn lemma_pack_concat(left: Seq<u8>, right: Seq<u8>)
    requires
        left.len() % 2 == 0,
    ensures
        pack(left + right) == pack(left) + pack(right),
{
    let half = left.len() as int / 2;
    assert forall|i: int| 0 <= i < pack(left + right).len() implies #[trigger] pack(left + right)[i]
        == (pack(left) + pack(right))[i] by {
        if i >= half {
            assert((left + right)[2 * i] == right[2 * (i - half)]);
            if 2 * i + 1 < (left + right).len() {
                assert((left + right)[2 * i + 1] == right[2 * (i - half) + 1]);
            }
        }
    }
    assert(pack(left + right) =~= pack(left) + pack(right));
}

proof fn lemma_encode_concat(a: Seq<i16>, b: Seq<i16>, p: Predictor)
    ensures
        encoder_after(a + b, p) == encoder_after(b, encoder_after(a, p)),
        encode_nibbles(a + b, p) == encode_nibbles(a, p) + encode_nibbles(b, encoder_after(a, p)),
    decreases b.len(),
{
    if b.len() == 0 {
        assert(a + b =~= a);
        assert(encode_nibbles(a, p) + encode_nibbles(b, encoder_after(a, p)) =~= encode_nibbles(
            a,
            p,
        ));
    } else {
        lemma_encode_concat(a, b.drop_last(), p);
        assert((a + b).drop_last() =~= a + b.drop_last());
        assert((a + b).last() == b.last());
        assert(encode_nibbles(a + b, p) =~= encode_nibbles(a, p) + encode_nibbles(
            b,
            encoder_after(a, p),
        ));
    }
}

/// Decoding what was encoded keeps the decoder in step with the encoder: the
/// nibbles survive packing, each decoded sample is the encoder's prediction after
/// the same sample, and both end in the same state.
pub proof fn law_decoder_tracks_encoder(samples: Seq<i16>, p: Predictor)
    requires
        p.wf(),
    ensures
        unpack(pack(encode_nibbles(samples, p)), samples.len()) == encode_nibbles(samples, p),
        decoder_after(encode_nibbles(samples, p), p) == encoder_after(samples, p),
        decode_samples(encode_nibbles(samples, p), p).len() == samples.len(),
        forall|i: int|
            0 <= i < samples.len() ==> #[trigger] decode_samples(encode_nibbles(samples, p), p)[i]
                == encoder_after(samples.take(i + 1), p).value,
{
    let nibbles = encode_nibbles(samples, p);
    lemma_encode_nibbles(samples, p);
    lemma_decoder_in_step(samples, p);
    lemma_unpack_pack(nibbles);
    assert forall|i: int| 0 <= i < samples.len() implies #[trigger] decode_samples(nibbles, p)[i]
        == encoder_after(samples.take(i + 1), p).value by {
        assert(nibbles.take(i + 1) == encode_nibbles(samples.take(i + 1), p));
        lemma_decoder_in_step(samples.take(i + 1), p);
        lemma_encoder_after_wf(samples.take(i + 1), p);
    }
}

proof fn lemma_unpack_pack(nibbles: Seq<u8>)
    requires
        forall|i: int| 0 <= i < nibbles.len() ==> #[trigger] nibbles[i] < 16,
    ensures
        unpack(pack(nibbles), nibbles.len()) == nibbles,
{
    let bytes = pack(nibbles);
    assert forall|i: int| 0 <= i < nibbles.len() implies #[trigger] unpack(bytes, nibbles.len())[i]
        == nibbles[i] by {
        let low = nibbles[2 * (i / 2)];
        assert(low < 16);
        if i % 2 == 0 {
            assert(2 * (i / 2) == i);
            if i + 1 < nibbles.len() {
                assert(nibbles[i + 1] < 16);
            }
        } else {
            assert(2 * (i / 2) + 1 == i);
            assert(nibbles[i] < 16);
        }
    }
    assert(unpack(bytes, nibbles.len()) =~= nibbles);
}

proof fn lemma_decoder_in_step(samples: Seq<i16>, p: Predictor)
    ensures
        decoder_after(encode_nibbles(samples, p), p) == encoder_after(samples, p),
    decreases samples.len(),
{
    if samples.len() > 0 {
        let before = encoder_after(samples.drop_last(), p);
        lemma_decoder_in_step(samples.drop_last(), p);
        lemma_encode_nibble_range(before, samples.last() as int);
        let nibbles = encode_nibbles(samples, p);
        assert(nibbles.drop_last() =~= encode_nibbles(samples.drop_last(), p));
    }
}

pub open spec fn distance_between(a: int, b: int) -> int {
    if a < b {
        b - a
    } else {
        a - b
    }
}

/// Encoding a sample never takes the prediction farther from it than it was,
/// unless it was closer than an eighth of a step.
pub proof fn law_prediction_error_does_not_grow(p: Predictor, sample: i16)
    requires
        p.wf(),
    ensures
        ({
            let before = distance_between(sample as int, p.value);
            let after = distance_between(
                sample as int,
                decode_step(p, encode_nibble(p, sample as int)).value,
            );
            after <= before || after <= p.step() / 8
        }),
{
    reveal(decode_step);
    reveal(encode_nibble);
    lemma_step_table_range();
}

/// Each step size is about a tenth larger than the one before, from the smallest to
/// the largest that a sample can need.
pub proof fn law_steps_grow_by_a_tenth(i: int)
    requires
        0 <= i < 88,
    ensures
        IMA_ADPCM_STEP_TABLE@.len() == 89,
        IMA_ADPCM_STEP_TABLE@[0] == 7,
        IMA_ADPCM_STEP_TABLE@[88] == i16::MAX,
        IMA_ADPCM_STEP_TABLE@[i] < IMA_ADPCM_STEP_TABLE@[i + 1],
        11 * IMA_ADPCM_STEP_TABLE@[i] - 64 <= 10 * IMA_ADPCM_STEP_TABLE@[i + 1] <= 11
            * IMA_ADPCM_STEP_TABLE@[i] + 10,
{
}

/// A small nibble, of less than a whole step, takes the next step down by one size;
/// a large one takes it up by two sizes, and by two more for each quarter of a step
/// beyond the whole one. There is no step below the smallest and none above the
/// largest.
pub proof fn law_the_nibble_sets_the_next_step(p: Predictor, nibble: int)
    requires
        p.wf(),
        0 <= nibble < 16,
    ensures
        ({
            let after = decode_step(p, nibble).index;
            let quarters = nibble % 8;
            &&& quarters < 4 && p.index > 0 ==> after == p.index - 1
            &&& quarters < 4 && p.index == 0 ==> after == 0
            &&& quarters >= 4 && p.index + 2 * (quarters - 3) <= 88 ==> after == p.index + 2 * (
            quarters - 3)
            &&& quarters >= 4 && p.index + 2 * (quarters - 3) > 88 ==> after == 88
        }),
{
    reveal(decode_step);
}

/// A nibble moves the prediction by its number of quarter steps and half a quarter
/// more, less than four units of which are lost to rounding: down if it is eight or
/// more, up if it is less, and not past what a sample can be.
pub proof fn law_the_nibble_moves_the_prediction(p: Predictor, nibble: int)
    requires
        p.wf(),
        0 <= nibble < 16,
    ensures
        ({
            let after = decode_step(p, nibble).value;
            let eighths = 2 * (nibble % 8) + 1;
            let moved = if nibble < 8 {
                after - p.value
            } else {
                p.value - after
            };
            let limit: int = if nibble < 8 {
                i16::MAX as int
            } else {
                i16::MIN as int
            };
            &&& i16::MIN <= after <= i16::MAX
            &&& 0 <= 8 * moved <= eighths * p.step()
            &&& 8 * moved > eighths * p.step() - 32 || after == limit
        }),
{
    reveal(decode_step);
    lemma_step_table_range();
    let step = p.step();
    assert(nibble % 8 == 0 || nibble % 8 == 1 || nibble % 8 == 2 || nibble % 8 == 3 || nibble % 8
        == 4 || nibble % 8 == 5 || nibble % 8 == 6 || nibble % 8 == 7);
    assert((2 * 0 + 1) * step == step && (2 * 1 + 1) * step == 3 * step && (2 * 2 + 1) * step == 5
        * step && (2 * 3 + 1) * step == 7 * step && (2 * 4 + 1) * step == 9 * step && (2 * 5 + 1)
        * step == 11 * step && (2 * 6 + 1) * step == 13 * step && (2 * 7 + 1) * step == 15 * step)
        by (nonlinear_arith);
}

/// A sample less than two steps away is reached to within an eighth of a step and two
/// units; one that is farther away comes nearer by fifteen eighths of a step, less
/// four units at most.
pub proof fn law_encoding_comes_near_the_sample(p: Predictor, sample: i16)
    requires
        p.wf(),
    ensures
        ({
            let before = distance_between(sample as int, p.value);
            let after = distance_between(
                sample as int,
                decode_step(p, encode_nibble(p, sample as int)).value,
            );
            &&& before < 2 * p.step() ==> after <= p.step() / 8 + 2
            &&& before >= 2 * p.step() ==> 8 * (before - after) > 15 * p.step() - 32
        }),
{
    reveal(decode_step);
    reveal(encode_nibble);
    lemma_step_table_range();
}

/// The state after `sample` has been encoded `n` times.
spec fn held(p: Predictor, sample: i16, n: nat) -> Predictor
    decreases n,
{
    if n == 0 {
        p
    } else {
        let before = held(p, sample, (n - 1) as nat);
        decode_step(before, encode_nibble(before, sample as int))
    }
}

/// That the prediction is less than a step away.
spec fn within(p: Predictor, sample: i16) -> bool {
    distance_between(sample as int, p.value) < p.step()
}

proof fn lemma_next_step_is_near(i: int)
    requires
        0 < i < 89,
    ensures
        IMA_ADPCM_STEP_TABLE@[i] / 8 + 2 < IMA_ADPCM_STEP_TABLE@[i - 1],
{
    law_steps_grow_by_a_tenth(i - 1);
    lemma_step_table_range();
}

proof fn lemma_held_once(p: Predictor, sample: i16)
    requires
        p.wf(),
    ensures
        ({
            let next = decode_step(p, encode_nibble(p, sample as int));
            &&& next.wf()
            &&& within(p, sample) ==> within(next, sample) && next.index == if p.index > 0 {
                p.index - 1
            } else {
                0
            }
            &&& !within(p, sample) ==> next.index >= p.index + 2 || next.index == 88
            &&& !within(p, sample) && p.index == 88 ==> within(next, sample)
            &&& p.index == 0 && within(p, sample) ==> distance_between(sample as int, next.value)
                <= 2
            &&& p.index == 0 && distance_between(sample as int, p.value) <= 2
                ==> distance_between(sample as int, next.value) == if distance_between(
                sample as int,
                p.value,
            ) == 2 {
                1int
            } else {
                0
            }
        }),
{
    let nibble = encode_nibble(p, sample as int);
    lemma_encode_nibble_range(p, sample as int);
    lemma_decode_step_wf(p, nibble);
    law_the_nibble_sets_the_next_step(p, nibble);
    law_encoding_comes_near_the_sample(p, sample);
    lemma_step_table_range();
    law_steps_grow_by_a_tenth(0);
    if p.index > 0 {
        lemma_next_step_is_near(p.index);
    }
    let next = decode_step(p, nibble);
    assert(within(p, sample) <==> nibble % 8 < 4) by {
        reveal(encode_nibble);
    }
    if p.index == 0 {
        reveal(decode_step);
        reveal(encode_nibble);
    }
    if within(p, sample) {
        assert(next.step() > p.step() / 8 + 2);
    }
    if !within(p, sample) && p.index == 88 {
        assert(next.index == 88);
        assert(p.step() == 32767);
    }
}

proof fn lemma_held_catches_up(p: Predictor, sample: i16, n: nat)
    requires
        p.wf(),
        2 * n >= 90 - p.index,
    ensures
        held(p, sample, n).wf(),
        within(held(p, sample, n), sample),
    decreases n,
{
    lemma_held_not_yet(p, sample, n);
}

/// While the prediction has not come within a step, the index has risen by two for
/// each sample.
proof fn lemma_held_not_yet(p: Predictor, sample: i16, n: nat)
    requires
        p.wf(),
    ensures
        held(p, sample, n).wf(),
        within(held(p, sample, n), sample) || held(p, sample, n).index >= p.index + 2 * n || (
        held(p, sample, n).index == 88 && 2 * n < 90 - p.index),
    decreases n,
{
    if n > 0 {
        let before = held(p, sample, (n - 1) as nat);
        lemma_held_not_yet(p, sample, (n - 1) as nat);
        lemma_held_once(before, sample);
    }
}

proof fn lemma_held_falls(p: Predictor, sample: i16, n: nat)
    requires
        p.wf(),
        within(p, sample),
    ensures
        held(p, sample, n).wf(),
        within(held(p, sample, n), sample),
        held(p, sample, n).index == if p.index > n {
            p.index - n
        } else {
            0
        },
    decreases n,
{
    if n > 0 {
        lemma_held_falls(p, sample, (n - 1) as nat);
        lemma_held_once(held(p, sample, (n - 1) as nat), sample);
    }
}

proof fn lemma_held_in_two(p: Predictor, sample: i16, m: nat, n: nat)
    ensures
        held(p, sample, m + n) == held(held(p, sample, m), sample, n),
    decreases n,
{
    if n > 0 {
        lemma_held_in_two(p, sample, m, (n - 1) as nat);
    }
}

proof fn lemma_held_settles(p: Predictor, sample: i16, n: nat)
    requires
        p.wf(),
        p.index == 0,
        within(p, sample),
        n >= 3,
    ensures
        held(p, sample, n).value == sample,
        held(p, sample, n).index == 0,
    decreases n,
{
    lemma_held_falls(p, sample, (n - 1) as nat);
    lemma_held_once(held(p, sample, (n - 1) as nat), sample);
    if n == 3 {
        reveal_with_fuel(held, 4);
        lemma_held_once(p, sample);
        lemma_held_falls(p, sample, 1);
        lemma_held_once(held(p, sample, 1), sample);
    } else {
        lemma_held_settles(p, sample, (n - 1) as nat);
    }
}

proof fn lemma_held_is_encoding(p: Predictor, sample: i16, n: nat)
    ensures
        held(p, sample, n) == encoder_after(Seq::new(n, |i: int| sample), p),
    decreases n,
{
    let samples = Seq::new(n, |i: int| sample);
    if n > 0 {
        lemma_held_is_encoding(p, sample, (n - 1) as nat);
        assert(samples.drop_last() =~= Seq::new((n - 1) as nat, |i: int| sample));
    }
}

proof fn lemma_last_decoded(samples: Seq<i16>, p: Predictor)
    requires
        p.wf(),
        samples.len() > 0,
    ensures
        decode_samples(encode_nibbles(samples, p), p).len() == samples.len(),
        decode_samples(encode_nibbles(samples, p), p).last() == encoder_after(samples, p).value,
{
    law_decoder_tracks_encoder(samples, p);
    let last = samples.len() - 1;
    assert(samples.take(last + 1) =~= samples);
    assert(decode_samples(encode_nibbles(samples, p), p)[last] == encoder_after(
        samples.take(last + 1),
        p,
    ).value);
}

proof fn lemma_held_is_reached(p: Predictor, sample: i16, n: nat)
    requires
        p.wf(),
        n >= 136,
    ensures
        held(p, sample, n).value == sample,
{
    lemma_held_in_two(p, sample, 45, (n - 45) as nat);
    lemma_held_catches_up(p, sample, 45);
    let near = held(p, sample, 45);
    lemma_held_in_two(near, sample, 88, (n - 133) as nat);
    lemma_held_falls(near, sample, 88);
    lemma_held_settles(held(near, sample, 88), sample, (n - 133) as nat);
}

/// Wherever the coder stands, and whatever was heard before, a sample that is held is
/// decoded exactly from the 136th time on: loud noise does not outlast itself, and
/// silence is silent.
pub proof fn law_a_held_sample_is_reached(before: Seq<i16>, sample: i16, n: nat, p: Predictor)
    requires
        p.wf(),
        n >= 136,
    ensures
        ({
            let samples = before + Seq::new(n, |i: int| sample);
            let decoded = decode_samples(encode_nibbles(samples, p), p);
            &&& decoded.len() == samples.len()
            &&& decoded.last() == sample
        }),
{
    let run = Seq::new(n, |i: int| sample);
    let samples = before + run;
    let start = encoder_after(before, p);
    lemma_encoder_after_wf(before, p);
    lemma_held_is_encoding(start, sample, n);
    lemma_encode_concat(before, run, p);
    lemma_held_is_reached(start, sample, n);
    lemma_last_decoded(samples, p);
}

/// A byte holds two samples, the earlier one in its low half.
pub proof fn law_a_byte_holds_two_samples(nibbles: Seq<u8>, i: int)
    requires
        forall|k: int| 0 <= k < nibbles.len() ==> #[trigger] nibbles[k] < 16,
        0 <= i < nibbles.len(),
    ensures
        pack(nibbles).len() == (nibbles.len() + 1) / 2,
        i % 2 == 0 ==> pack(nibbles)[i / 2] as int % 16 == nibbles[i],
        i % 2 == 1 ==> pack(nibbles)[i / 2] as int / 16 == nibbles[i],
        i % 2 == 0 && i + 1 == nibbles.len() ==> pack(nibbles)[i / 2] as int / 16 == 0,
        unpack(pack(nibbles), nibbles.len())[i] == nibbles[i],
{
    lemma_unpack_pack(nibbles);
    let low = nibbles[2 * (i / 2)];
    assert(low < 16);
    if 2 * (i / 2) + 1 < nibbles.len() {
        assert(nibbles[2 * (i / 2) + 1] < 16);
    }
}

pub open spec fn encoded_len(pcm_len: int) -> int {
    (pcm_len / 2 + 1) / 2
}

/// A frame of whole pairs of samples shrinks to a quarter.
pub proof fn law_encoded_len_is_a_quarter(pcm_len: nat)
    requires
        pcm_len % 4 == 0,
    ensures
        4 * encoded_len(pcm_len as int) == pcm_len,
{
}

pub fn ima_adpcm4_encoded_len(pcm_s16le_len: usize) -> (len: usize)
    ensures
        len == encoded_len(pcm_s16le_len as int),
{
    let samples: usize = pcm_s16le_len / 2;
    samples / IMA_ADPCM4_SAMPLES_PER_BYTE + samples % IMA_ADPCM4_SAMPLES_PER_BYTE
}

pub fn ima_adpcm4_encode_sample(sample: i16, state: &mut ImaAdpcmState) -> (nibble: u8)
    requires
        old(state).wf(),
    ensures
        nibble == encode_nibble(old(state)@, sample as int),
        nibble < 16,
        final(state)@ == decode_step(old(state)@, nibble as int),
        final(state).wf(),
{
    proof {
        reveal(encode_nibble);
        lemma_step_table_range();
    }
    let step: i32 = IMA_ADPCM_STEP_TABLE[state.step_index as usize] as i32;
    let mut diff: i32 = sample as i32 - state.predictor as i32;
    let mut nibble: u8 = 0;
    if diff < 0 {
        nibble = 8;
        diff = -diff;
    }
    let mut temp_step: i32 = step;
    if diff >= temp_step {
        nibble = nibble + 4;
        diff = diff - temp_step;
    }
    temp_step = temp_step / 2;
    if diff >= temp_step {
        nibble = nibble + 2;
        diff = diff - temp_step;
    }
    temp_step = temp_step / 2;
    if diff >= temp_step {
        nibble = nibble + 1;
    }
    ima_adpcm4_decode_sample(nibble, state);
    nibble
}

pub fn ima_adpcm4_decode_sample(nibble: u8, state: &mut ImaAdpcmState) -> (sample: i16)
    requires
        old(state).wf(),
    ensures
        final(state)@ == decode_step(old(state)@, nibble as int % 16),
        final(state).wf(),
        sample == final(state)@.value,
{
    proof {
        reveal(decode_step);
        lemma_step_table_range();
        lemma_index_table_range();
    }
    let nibble: u8 = nibble % 16;
    let step: i32 = IMA_ADPCM_STEP_TABLE[state.step_index as usize] as i32;
    let mut diff: i32 = step / 8;
    if (nibble / 4) % 2 == 1 {
        diff = diff + step;
    }
    if (nibble / 2) % 2 == 1 {
        diff = diff + step / 2;
    }
    if nibble % 2 == 1 {
        diff = diff + step / 4;
    }
    let predictor: i32 = if nibble >= 8 {
        state.predictor as i32 - diff
    } else {
        state.predictor as i32 + diff
    };
    let predictor: i16 = if predictor < -0x8000 {
        i16::MIN
    } else if predictor > 0x7fff {
        i16::MAX
    } else {
        predictor as i16
    };
    let next_index: i16 = state.step_index as i16 + IMA_ADPCM_INDEX_TABLE[nibble as usize] as i16;
    let step_index: u8 = if next_index < 0 {
        0
    } else if next_index > 88 {
        88
    } else {
        next_index as u8
    };
    *state = ImaAdpcmState { predictor, step_index };
    predictor
}

/// Encodes the samples of `pcm_s16le` into the first bytes of `out`; returns how
/// many it wrote.
pub fn ima_adpcm4_encode(pcm_s16le: &[u8], out: &mut [u8], state: &mut ImaAdpcmState) -> (result:
    Result<usize, ProtocolError>)
    requires
        old(state).wf(),
    ensures
        final(state).wf(),
        match result {
            Ok(len) => {
                let samples = pcm_samples(pcm_s16le@);
                &&& pcm_s16le@.len() % 2 == 0
                &&& len == encoded_len(pcm_s16le@.len() as int)
                &&& len <= old(out)@.len()
                &&& final(out)@ == pack(encode_nibbles(samples, old(state)@)) + old(out)@.skip(
                    len as int,
                )
                &&& final(state)@ == encoder_after(samples, old(state)@)
            },
            Err(error) => {
                &&& *final(state) == *old(state)
                &&& final(out)@ == old(out)@
                &&& error == if pcm_s16le@.len() % 2 != 0 {
                    ProtocolError::InvalidPcmLength
                } else {
                    ProtocolError::OutputTooSmall
                }
                &&& pcm_s16le@.len() % 2 != 0 || old(out)@.len() < encoded_len(
                    pcm_s16le@.len() as int,
                )
            },
        },
{
    if pcm_s16le.len() % 2 != 0 {
        return Err(ProtocolError::InvalidPcmLength);
    }
    let encoded: usize = ima_adpcm4_encoded_len(pcm_s16le.len());
    if out.len() < encoded {
        return Err(ProtocolError::OutputTooSmall);
    }
    let total: usize = pcm_s16le.len();
    let count: usize = total / 2;
    let mut i: usize = 0;
    let ghost before = out@;
    let ghost start = state@;
    let ghost samples = pcm_samples(pcm_s16le@);
    proof {
        assert(samples.take(0) =~= Seq::<i16>::empty());
    }
    while i < count
        invariant
            i <= count,
            count == samples.len(),
            pcm_s16le@.len() == total == 2 * count,
            samples == pcm_samples(pcm_s16le@),
            encoded == (count + 1) / 2,
            encoded <= before.len(),
            out@.len() == before.len(),
            state.wf(),
            state@ == encoder_after(samples.take(i as int), start),
            out@ == pack(encode_nibbles(samples.take(i as int), start)) + before.skip(
                (i + 1) / 2,
            ),
        decreases count - i,
    {
        let ghost nibbles = encode_nibbles(samples.take(i as int), start);
        let ghost filled = out@;
        let sample: i16 = i16_from_le(pcm_s16le[2 * i], pcm_s16le[2 * i + 1]);
        let nibble: u8 = ima_adpcm4_encode_sample(sample, state);
        proof {
            lemma_encode_nibbles(samples.take(i as int), start);
            assert(samples.take(i + 1).drop_last() =~= samples.take(i as int));
            assert(samples.take(i + 1).last() == sample);
            assert(encode_nibbles(samples.take(i + 1), start) == nibbles.push(nibble));
        }
        if i % 2 == 0 {
            out[i / 2] = nibble;
            assert(out@ =~= pack(nibbles.push(nibble)) + before.skip((i + 2) / 2));
        } else {
            assert(filled[(i / 2) as int] == pack(nibbles)[(i / 2) as int]);
            assert(nibbles[2 * ((i / 2) as int)] < 16);
            out[i / 2] = out[i / 2] + 16 * nibble;
            assert(out@ =~= pack(nibbles.push(nibble)) + before.skip((i + 2) / 2));
        }
        i += 1;
    }
    assert(samples.take(count as int) =~= samples);
    Ok(encoded)
}

/// Decodes the first `sample_count` samples of `adpcm` into the first bytes of
/// `out_pcm_s16le`; returns how many bytes it wrote.
pub fn ima_adpcm4_decode(
    adpcm: &[u8],
    sample_count: usize,
    out_pcm_s16le: &mut [u8],
    state: &mut ImaAdpcmState,
) -> (result: Result<usize, ProtocolError>)
    requires
        old(state).wf(),
    ensures
        final(state).wf(),
        match result {
            Ok(len) => {
                let nibbles = unpack(adpcm@, sample_count as nat);
                &&& sample_count <= 2 * adpcm@.len()
                &&& len == 2 * sample_count
                &&& len <= old(out_pcm_s16le)@.len()
                &&& final(out_pcm_s16le)@ == pcm_bytes(decode_samples(nibbles, old(state)@)) + old(
                    out_pcm_s16le,
                )@.skip(len as int)
                &&& final(state)@ == decoder_after(nibbles, old(state)@)
            },
            Err(error) => {
                &&& *final(state) == *old(state)
                &&& final(out_pcm_s16le)@ == old(out_pcm_s16le)@
                &&& error == if sample_count > 2 * adpcm@.len() {
                    ProtocolError::BadAdpcmSampleCount
                } else {
                    ProtocolError::OutputTooSmall
                }
                &&& sample_count > 2 * adpcm@.len() || old(out_pcm_s16le)@.len() < 2
                    * sample_count
            },
        },
{
    if sample_count / 2 + sample_count % 2 > adpcm.len() {
        return Err(ProtocolError::BadAdpcmSampleCount);
    }
    if out_pcm_s16le.len() / 2 < sample_count {
        return Err(ProtocolError::OutputTooSmall);
    }
    let total: usize = out_pcm_s16le.len();
    let mut i: usize = 0;
    let ghost before = out_pcm_s16le@;
    let ghost start = state@;
    let ghost nibbles = unpack(adpcm@, sample_count as nat);
    let ghost samples = decode_samples(nibbles, start);
    proof {
        assert(nibbles.take(0) =~= Seq::<u8>::empty());
        assert(out_pcm_s16le@ =~= pcm_bytes(samples.take(0)) + before.skip(0));
    }
    while i < sample_count
        invariant
            i <= sample_count,
            sample_count <= 2 * adpcm@.len(),
            2 * sample_count <= total == before.len(),
            out_pcm_s16le@.len() == before.len(),
            nibbles == unpack(adpcm@, sample_count as nat),
            samples == decode_samples(nibbles, start),
            state.wf(),
            state@ == decoder_after(nibbles.take(i as int), start),
            samples.len() == sample_count,
            out_pcm_s16le@ == pcm_bytes(samples.take(i as int)) + before.skip(2 * i),
        decreases sample_count - i,
    {
        let packed: u8 = adpcm[i / 2];
        let nibble: u8 = if i % 2 == 0 {
            packed % 16
        } else {
            packed / 16
        };
        let sample: i16 = ima_adpcm4_decode_sample(nibble, state);
        let (low, high) = i16_to_le(sample);
        proof {
            assert(nibbles[i as int] == nibble);
            assert(nibbles.take(i + 1).drop_last() =~= nibbles.take(i as int));
            assert(samples[i as int] == sample);
            assert(samples.take(i + 1) =~= samples.take(i as int).push(sample));
            lemma_pcm_bytes_push(samples.take(i as int), sample, before);
            assert(le_i16_bytes(sample)[0] == low);
            assert(le_i16_bytes(sample)[1] == high);
        }
        out_pcm_s16le[2 * i] = low;
        out_pcm_s16le[2 * i + 1] = high;
        i += 1;
    }
    assert(nibbles.take(sample_count as int) =~= nibbles);
    assert(samples.take(sample_count as int) =~= samples);
    Ok(2 * sample_count)
}

} // verus!
