//! Audio frames cut into Bluetooth notifications, and put together again.

use vstd::prelude::*;
use vstd::slice::slice_to_vec;

use crate::bytes::{
    append_bytes, copy_into, le_bytes, lemma_le_bytes_len, lemma_le_round_trip,
    lemma_le_value_round_trip, lemma_pow256_values, push_le, read_le,
};
use crate::frame::{field, ProtocolError};

verus! {

pub const BLE_AUDIO_FRAGMENT_HEADER_LEN: usize = 8;

/// The largest notification that is sent.
pub const NOTIFICATION_BYTES: usize = 180;

#[derive(Debug, Clone, Copy, PartialEq, Eq, Structural)]
pub struct BleAudioFragmentHeader {
    pub frame_sequence: u32,
    pub fragment_index: u8,
    pub fragment_count: u8,
    pub payload_len: u16,
}

/// The bytes of a fragment header.
pub open spec fn fragment_header_bytes(header: BleAudioFragmentHeader) -> Seq<u8> {
    le_bytes(header.frame_sequence as nat, 4) + seq![header.fragment_index, header.fragment_count]
        + le_bytes(header.payload_len as nat, 2)
}

/// What a fragment's header says, or what is wrong with the fragment.
pub open spec fn decode_fragment(fragment: Seq<u8>) -> Result<
    BleAudioFragmentHeader,
    ProtocolError,
> {
    if fragment.len() < BLE_AUDIO_FRAGMENT_HEADER_LEN {
        Err(ProtocolError::FrameTooShort)
    } else if fragment[5] == 0 || fragment[4] >= fragment[5] {
        Err(ProtocolError::BadFragmentIndex)
    } else if fragment.len() < BLE_AUDIO_FRAGMENT_HEADER_LEN + field(fragment, 6, 8) {
        Err(ProtocolError::FrameTooShort)
    } else {
        Ok(
            BleAudioFragmentHeader {
                frame_sequence: field(fragment, 0, 4) as u32,
                fragment_index: fragment[4],
                fragment_count: fragment[5],
                payload_len: field(fragment, 6, 8) as u16,
            },
        )
    }
}

/// The payload of a fragment whose header is `header`.
pub open spec fn payload_in(header: BleAudioFragmentHeader, fragment: Seq<u8>) -> Seq<u8> {
    fragment.subrange(
        BLE_AUDIO_FRAGMENT_HEADER_LEN as int,
        BLE_AUDIO_FRAGMENT_HEADER_LEN + header.payload_len,
    )
}

proof fn lemma_fragment_header_bytes_len(header: BleAudioFragmentHeader)
    ensures
        fragment_header_bytes(header).len() == BLE_AUDIO_FRAGMENT_HEADER_LEN,
{
    lemma_le_bytes_len(header.frame_sequence as nat, 4);
    lemma_le_bytes_len(header.payload_len as nat, 2);
}

/// A fragment header with a valid index, written in front of at least as many
/// bytes as it announces, is read back unchanged.
pub proof fn law_fragment_header_round_trip(header: BleAudioFragmentHeader, rest: Seq<u8>)
    requires
        header.fragment_index < header.fragment_count,
        rest.len() >= header.payload_len,
    ensures
        decode_fragment(fragment_header_bytes(header) + rest) == Ok::<
            BleAudioFragmentHeader,
            ProtocolError,
        >(header),
        payload_in(header, fragment_header_bytes(header) + rest) == rest.take(
            header.payload_len as int,
        ),
{
    let fragment = fragment_header_bytes(header) + rest;
    lemma_pow256_values();
    lemma_fragment_header_bytes_len(header);
    lemma_le_round_trip(header.frame_sequence as nat, 4);
    lemma_le_round_trip(header.payload_len as nat, 2);
    assert(fragment.subrange(0, 4) =~= le_bytes(header.frame_sequence as nat, 4));
    assert(fragment.subrange(6, 8) =~= le_bytes(header.payload_len as nat, 2));
    assert(payload_in(header, fragment) =~= rest.take(header.payload_len as int));
}

/// A fragment that is understood begins with the bytes of the header read from it, so
/// that decoding loses nothing.
pub proof fn law_decoded_fragment_header_is_the_prefix(fragment: Seq<u8>)
    requires
        decode_fragment(fragment) is Ok,
    ensures
        fragment.take(BLE_AUDIO_FRAGMENT_HEADER_LEN as int) == fragment_header_bytes(
            decode_fragment(fragment)->Ok_0,
        ),
{
    lemma_pow256_values();
    lemma_le_value_round_trip(fragment.subrange(0, 4));
    lemma_le_value_round_trip(fragment.subrange(6, 8));
    assert(fragment.take(8) =~= fragment.subrange(0, 4) + seq![fragment[4], fragment[5]]
        + fragment.subrange(6, 8));
}

impl BleAudioFragmentHeader {
    pub fn new(
        frame_sequence: u32,
        fragment_index: u8,
        fragment_count: u8,
        payload_len: u16,
    ) -> (result: Result<BleAudioFragmentHeader, ProtocolError>)
        ensures
            result == if fragment_index < fragment_count {
                Ok(
                    BleAudioFragmentHeader {
                        frame_sequence,
                        fragment_index,
                        fragment_count,
                        payload_len,
                    },
                )
            } else {
                Err::<BleAudioFragmentHeader, ProtocolError>(ProtocolError::BadFragmentIndex)
            },
    {
        if fragment_count == 0 || fragment_index >= fragment_count {
            return Err(ProtocolError::BadFragmentIndex);
        }
        Ok(BleAudioFragmentHeader { frame_sequence, fragment_index, fragment_count, payload_len })
    }

    /// The bytes of the header, on their own.
    pub fn to_bytes(&self) -> (bytes: Vec<u8>)
        ensures
            bytes@ == fragment_header_bytes(*self),
    {
        let mut bytes: Vec<u8> = Vec::new();
        push_le(&mut bytes, self.frame_sequence as u64, 4);
        assert(bytes@ =~= le_bytes(self.frame_sequence as nat, 4));
        bytes.push(self.fragment_index);
        bytes.push(self.fragment_count);
        assert(bytes@ =~= le_bytes(self.frame_sequence as nat, 4) + seq![
            self.fragment_index,
            self.fragment_count,
        ]);
        push_le(&mut bytes, self.payload_len as u64, 2);
        bytes
    }

    /// Writes the header over the first bytes of `out` and leaves the rest as it is.
    pub fn encode_into(&self, out: &mut [u8]) -> (result: Result<(), ProtocolError>)
        ensures
            match result {
                Ok(()) => old(out)@.len() >= BLE_AUDIO_FRAGMENT_HEADER_LEN && final(out)@
                    == fragment_header_bytes(*self) + old(out)@.skip(
                    BLE_AUDIO_FRAGMENT_HEADER_LEN as int,
                ),
                Err(error) => old(out)@.len() < BLE_AUDIO_FRAGMENT_HEADER_LEN && error
                    == ProtocolError::BufferTooSmall && final(out)@ == old(out)@,
            },
    {
        if out.len() < BLE_AUDIO_FRAGMENT_HEADER_LEN {
            return Err(ProtocolError::BufferTooSmall);
        }
        let bytes = self.to_bytes();
        proof {
            lemma_fragment_header_bytes_len(*self);
        }
        let ghost before = out@;
        copy_into(out, 0, bytes.as_slice());
        assert(out@ =~= fragment_header_bytes(*self) + before.skip(
            BLE_AUDIO_FRAGMENT_HEADER_LEN as int,
        ));
        Ok(())
    }

    pub fn decode(fragment: &[u8]) -> (result: Result<BleAudioFragmentHeader, ProtocolError>)
        ensures
            result == decode_fragment(fragment@),
    {
        if fragment.len() < BLE_AUDIO_FRAGMENT_HEADER_LEN {
            return Err(ProtocolError::FrameTooShort);
        }
        proof {
            lemma_pow256_values();
            lemma_le_value_round_trip(fragment@.subrange(0, 4));
            lemma_le_value_round_trip(fragment@.subrange(6, 8));
        }
        let header = BleAudioFragmentHeader {
            frame_sequence: read_le(fragment, 0, 4) as u32,
            fragment_index: fragment[4],
            fragment_count: fragment[5],
            payload_len: read_le(fragment, 6, 2) as u16,
        };
        if header.fragment_count == 0 || header.fragment_index >= header.fragment_count {
            return Err(ProtocolError::BadFragmentIndex);
        }
        if fragment.len() < BLE_AUDIO_FRAGMENT_HEADER_LEN + header.payload_len as usize {
            return Err(ProtocolError::FrameTooShort);
        }
        Ok(header)
    }

    pub fn payload<'a>(&self, fragment: &'a [u8]) -> (result: Result<&'a [u8], ProtocolError>)
        ensures
            match result {
                Ok(payload) => fragment@.len() >= BLE_AUDIO_FRAGMENT_HEADER_LEN + self.payload_len
                    && payload@ == payload_in(*self, fragment@),
                Err(error) => fragment@.len() < BLE_AUDIO_FRAGMENT_HEADER_LEN + self.payload_len
                    && error == ProtocolError::FrameTooShort,
            },
    {
        if fragment.len() < BLE_AUDIO_FRAGMENT_HEADER_LEN + self.payload_len as usize {
            return Err(ProtocolError::FrameTooShort);
        }
        Ok(
            &fragment[BLE_AUDIO_FRAGMENT_HEADER_LEN..BLE_AUDIO_FRAGMENT_HEADER_LEN
                + self.payload_len as usize],
        )
    }
}

pub open spec fn payload_capacity(notification_len: int) -> int {
    if notification_len >= BLE_AUDIO_FRAGMENT_HEADER_LEN {
        notification_len - BLE_AUDIO_FRAGMENT_HEADER_LEN
    } else {
        0
    }
}

pub fn ble_audio_fragment_payload_capacity(notification_payload_len: usize) -> (capacity: usize)
    ensures
        capacity == payload_capacity(notification_payload_len as int),
{
    if notification_payload_len >= BLE_AUDIO_FRAGMENT_HEADER_LEN {
        notification_payload_len - BLE_AUDIO_FRAGMENT_HEADER_LEN
    } else {
        0
    }
}

/// How many payload bytes a notification carries.
pub open spec fn chunk_len() -> int {
    payload_capacity(NOTIFICATION_BYTES as int)
}

/// How many fragments a frame of `len` bytes needs.
pub open spec fn fragments_needed(len: int) -> int {
    (len + chunk_len() - 1) / chunk_len()
}

/// Where fragment `i` of a frame of `len` bytes ends.
pub open spec fn chunk_end(len: int, i: int) -> int {
    if (i + 1) * chunk_len() < len {
        (i + 1) * chunk_len()
    } else {
        len
    }
}

/// The payload of fragment `i` of `frame`.
pub open spec fn chunk(frame: Seq<u8>, i: int) -> Seq<u8> {
    frame.subrange(i * chunk_len(), chunk_end(frame.len() as int, i))
}

/// The header of fragment `i` of `frame`.
pub open spec fn chunk_header(frame_sequence: u32, frame: Seq<u8>, i: int) -> BleAudioFragmentHeader {
    BleAudioFragmentHeader {
        frame_sequence,
        fragment_index: i as u8,
        fragment_count: fragments_needed(frame.len() as int) as u8,
        payload_len: chunk(frame, i).len() as u16,
    }
}

/// Fragment `i` of `frame`.
pub open spec fn fragment_of(frame_sequence: u32, frame: Seq<u8>, i: int) -> Seq<u8> {
    fragment_header_bytes(chunk_header(frame_sequence, frame, i)) + chunk(frame, i)
}

#[derive(Debug, Clone, Copy, PartialEq, Eq, Structural)]
pub enum FragmentError {
    TooManyFragments,
}

/// Cuts `frame` into the notifications that carry it.
pub fn fragment_frame(frame_sequence: u32, frame: &[u8]) -> (result: Result<
    Vec<Vec<u8>>,
    FragmentError,
>)
    ensures
        match result {
            Ok(fragments) => {
                &&& fragments_needed(frame@.len() as int) <= 255
                &&& fragments@.len() == fragments_needed(frame@.len() as int)
                &&& forall|i: int|
                    0 <= i < fragments@.len() ==> (#[trigger] fragments@[i])@ == fragment_of(
                        frame_sequence,
                        frame@,
                        i,
                    )
            },
            Err(error) => fragments_needed(frame@.len() as int) > 255 && error
                == FragmentError::TooManyFragments,
        },
{
    let capacity: usize = ble_audio_fragment_payload_capacity(NOTIFICATION_BYTES);
    let fragment_count: usize = frame.len() / capacity + if frame.len() % capacity == 0 {
        0
    } else {
        1
    };
    proof {
        let len = frame@.len() as int;
        assert(len / capacity as int == len / 172 && len % capacity as int == len % 172)
            by (nonlinear_arith)
            requires
                capacity == 172,
        ;
        assert(fragments_needed(len) == (len + 171) / 172);
    }
    if fragment_count > 255 {
        return Err(FragmentError::TooManyFragments);
    }
    let mut fragments: Vec<Vec<u8>> = Vec::new();
    let mut index: usize = 0;
    while index < fragment_count
        invariant
            capacity == chunk_len(),
            fragment_count == fragments_needed(frame@.len() as int),
            fragment_count <= 255,
            index <= fragment_count,
            fragments@.len() == index,
            forall|i: int|
                0 <= i < index ==> (#[trigger] fragments@[i])@ == fragment_of(
                    frame_sequence,
                    frame@,
                    i,
                ),
        decreases fragment_count - index,
    {
        let start: usize = index * capacity;
        let end: usize = if frame.len() - start > capacity {
            start + capacity
        } else {
            frame.len()
        };
        let payload = &frame[start..end];
        assert(payload@ =~= chunk(frame@, index as int));
        let header = BleAudioFragmentHeader {
            frame_sequence,
            fragment_index: index as u8,
            fragment_count: fragment_count as u8,
            payload_len: (end - start) as u16,
        };
        let mut fragment = header.to_bytes();
        append_bytes(&mut fragment, payload);
        fragments.push(fragment);
        index += 1;
    }
    Ok(fragments)
}

/// The fragments of one frame that have arrived so far.
#[verifier::ext_equal]
pub ghost struct Pending {
    pub frame_sequence: u32,
    pub slots: Seq<Option<Seq<u8>>>,
}

/// What is pending once `payload` has arrived under `header`: a fragment of the
/// frame at hand fills its slot, and any other starts its own frame over.
pub open spec fn absorb(
    pending: Option<Pending>,
    header: BleAudioFragmentHeader,
    payload: Seq<u8>,
) -> Pending {
    let empty = Seq::new(header.fragment_count as nat, |i: int| None::<Seq<u8>>);
    let slots = match pending {
        Some(p) => if p.frame_sequence == header.frame_sequence && p.slots.len()
            == header.fragment_count {
            p.slots
        } else {
            empty
        },
        None => empty,
    };
    Pending {
        frame_sequence: header.frame_sequence,
        slots: slots.update(header.fragment_index as int, Some(payload)),
    }
}

pub open spec fn complete(slots: Seq<Option<Seq<u8>>>) -> bool {
    forall|i: int| 0 <= i < slots.len() ==> (#[trigger] slots[i]) is Some
}

/// The payloads in `slots`, one after the other.
pub open spec fn joined(slots: Seq<Option<Seq<u8>>>) -> Seq<u8>
    decreases slots.len(),
{
    if slots.len() == 0 {
        Seq::empty()
    } else {
        joined(slots.drop_last()) + slots.last()->0
    }
}

/// What a reassembler holds after `fragment`, and the frame that it completes.
pub open spec fn reassemble(pending: Option<Pending>, fragment: Seq<u8>) -> (
    Option<Pending>,
    Result<Option<Seq<u8>>, ProtocolError>,
) {
    match decode_fragment(fragment) {
        Err(error) => (pending, Err(error)),
        Ok(header) => {
            let next = absorb(pending, header, payload_in(header, fragment));
            if complete(next.slots) {
                (None, Ok(Some(joined(next.slots))))
            } else {
                (Some(next), Ok(None))
            }
        },
    }
}

/// What a reassembler holds after `fragments`.
pub open spec fn reassemble_all(pending: Option<Pending>, fragments: Seq<Seq<u8>>) -> Option<
    Pending,
>
    decreases fragments.len(),
{
    if fragments.len() == 0 {
        pending
    } else {
        reassemble(reassemble_all(pending, fragments.drop_last()), fragments.last()).0
    }
}

/// A fragment of a frame that arrives.
pub ghost struct Arrival {
    pub index: int,
    pub payload: Seq<u8>,
}

/// The bytes of a fragment of a frame that comes in `count` of them.
pub open spec fn arrival_bytes(frame_sequence: u32, count: u8, arrival: Arrival) -> Seq<u8> {
    fragment_header_bytes(
        BleAudioFragmentHeader {
            frame_sequence,
            fragment_index: arrival.index as u8,
            fragment_count: count,
            payload_len: arrival.payload.len() as u16,
        },
    ) + arrival.payload
}

pub open spec fn arrivals_bytes(frame_sequence: u32, count: u8, arrivals: Seq<Arrival>) -> Seq<
    Seq<u8>,
> {
    Seq::new(arrivals.len(), |k: int| arrival_bytes(frame_sequence, count, arrivals[k]))
}

/// That the arrivals are fragments of a frame that comes in `count` of them.
pub open spec fn arrivals_fit(count: u8, arrivals: Seq<Arrival>) -> bool {
    forall|k: int|
        0 <= k < arrivals.len() ==> 0 <= (#[trigger] arrivals[k]).index < count
            && arrivals[k].payload.len() <= u16::MAX
}

/// The payload that arrived last for slot `i`.
pub open spec fn latest(arrivals: Seq<Arrival>, i: int) -> Option<Seq<u8>>
    decreases arrivals.len(),
{
    if arrivals.len() == 0 {
        None
    } else if arrivals.last().index == i {
        Some(arrivals.last().payload)
    } else {
        latest(arrivals.drop_last(), i)
    }
}

/// The slots that the arrivals fill.
pub open spec fn slots_after(count: u8, arrivals: Seq<Arrival>) -> Seq<Option<Seq<u8>>> {
    Seq::new(count as nat, |i: int| latest(arrivals, i))
}

/// That nothing is pending of the frame.
pub open spec fn is_new(pending: Option<Pending>, frame_sequence: u32, count: int) -> bool {
    pending matches Some(p) ==> p.frame_sequence != frame_sequence || p.slots.len() != count
}

proof fn lemma_latest(arrivals: Seq<Arrival>, i: int)
    ensures
        latest(arrivals, i) is Some <==> exists|k: int|
            0 <= k < arrivals.len() && (#[trigger] arrivals[k]).index == i,
    decreases arrivals.len(),
{
    if arrivals.len() > 0 {
        let before = arrivals.drop_last();
        lemma_latest(before, i);
        if arrivals.last().index == i {
            assert(arrivals[arrivals.len() - 1].index == i);
        } else if latest(before, i) is Some {
            let k = choose|k: int| 0 <= k < before.len() && (#[trigger] before[k]).index == i;
            assert(arrivals[k].index == i);
        } else if exists|k: int| 0 <= k < arrivals.len() && (#[trigger] arrivals[k]).index == i {
            let k = choose|k: int| 0 <= k < arrivals.len() && (#[trigger] arrivals[k]).index == i;
            assert(before[k].index == i);
        }
    }
}

/// Fragments of one frame, cut in whatever way, in whatever order they arrive and
/// however often some of them do, yield nothing until one has arrived for each slot.
/// The one that fills the last slot yields the payloads joined, for each slot the one
/// that arrived last, and leaves the reassembler empty. Fragments of another frame
/// that arrived before do not matter.
pub proof fn law_reassembly_joins_the_payloads(
    pending: Option<Pending>,
    frame_sequence: u32,
    count: u8,
    arrivals: Seq<Arrival>,
)
    requires
        is_new(pending, frame_sequence, count as int),
        arrivals_fit(count, arrivals),
        arrivals.len() > 0,
        complete(slots_after(count, arrivals)),
        latest(arrivals.drop_last(), arrivals.last().index) is None,
    ensures
        forall|k: int|
            0 <= k < arrivals.len() - 1 ==> reassemble(
                reassemble_all(
                    pending,
                    arrivals_bytes(frame_sequence, count, #[trigger] arrivals.take(k)),
                ),
                arrival_bytes(frame_sequence, count, arrivals[k]),
            ).1 == Ok::<Option<Seq<u8>>, ProtocolError>(None),
        reassemble(
            reassemble_all(
                pending,
                arrivals_bytes(frame_sequence, count, arrivals.drop_last()),
            ),
            arrival_bytes(frame_sequence, count, arrivals.last()),
        ) == (
            None::<Pending>,
            Ok::<Option<Seq<u8>>, ProtocolError>(Some(joined(slots_after(count, arrivals)))),
        ),
{
    let missing = arrivals.last().index;
    assert(arrivals[arrivals.len() - 1].index == missing);
    let before = arrivals.drop_last();
    lemma_latest(before, missing);
    assert forall|k: int| 0 <= k < arrivals.len() - 1 implies reassemble(
        reassemble_all(
            pending,
            arrivals_bytes(frame_sequence, count, #[trigger] arrivals.take(k)),
        ),
        arrival_bytes(frame_sequence, count, arrivals[k]),
    ).1 == Ok::<Option<Seq<u8>>, ProtocolError>(None) by {
        let next = arrivals.take(k + 1);
        assert forall|j: int| 0 <= j < next.len() implies (#[trigger] next[j]).index != missing by {
            assert(before[j] == next[j]);
        }
        assert(arrivals_fit(count, next)) by {
            assert forall|j: int| 0 <= j < next.len() implies 0 <= (#[trigger] next[j]).index
                < count && next[j].payload.len() <= u16::MAX by {
                assert(next[j] == arrivals[j]);
            }
        }
        assert(next.drop_last() =~= arrivals.take(k));
        lemma_partial(pending, frame_sequence, count, next, missing);
    }
    assert(arrivals_fit(count, before)) by {
        assert forall|j: int| 0 <= j < before.len() implies 0 <= (#[trigger] before[j]).index
            < count && before[j].payload.len() <= u16::MAX by {
            assert(before[j] == arrivals[j]);
        }
    }
    if before.len() > 0 {
        lemma_partial(pending, frame_sequence, count, before, missing);
    }
    lemma_one_more(pending, frame_sequence, count, arrivals);
}

/// With nothing yet for the slot `missing`, the fragments leave exactly their slots
/// filled, and the last of them yields nothing.
proof fn lemma_partial(
    pending: Option<Pending>,
    frame_sequence: u32,
    count: u8,
    arrivals: Seq<Arrival>,
    missing: int,
)
    requires
        is_new(pending, frame_sequence, count as int),
        arrivals_fit(count, arrivals),
        arrivals.len() > 0,
        0 <= missing < count,
        forall|k: int| 0 <= k < arrivals.len() ==> (#[trigger] arrivals[k]).index != missing,
    ensures
        reassemble_all(pending, arrivals_bytes(frame_sequence, count, arrivals)) == Some(
            Pending { frame_sequence, slots: slots_after(count, arrivals) },
        ),
        reassemble(
            reassemble_all(
                pending,
                arrivals_bytes(frame_sequence, count, arrivals.drop_last()),
            ),
            arrival_bytes(frame_sequence, count, arrivals.last()),
        ).1 == Ok::<Option<Seq<u8>>, ProtocolError>(None),
    decreases arrivals.len(),
{
    let before = arrivals.drop_last();
    if before.len() > 0 {
        assert forall|k: int| 0 <= k < before.len() implies 0 <= (#[trigger] before[k]).index
            < count && before[k].payload.len() <= u16::MAX && before[k].index != missing by {
            assert(before[k] == arrivals[k]);
        }
        lemma_partial(pending, frame_sequence, count, before, missing);
    }
    lemma_one_more(pending, frame_sequence, count, arrivals);
    lemma_latest(arrivals, missing);
    assert(slots_after(count, arrivals)[missing] is None);
    assert(arrivals_bytes(frame_sequence, count, arrivals).drop_last() =~= arrivals_bytes(
        frame_sequence,
        count,
        before,
    ));
}

/// If the fragments before the last left exactly their slots filled, so does the last.
proof fn lemma_one_more(
    pending: Option<Pending>,
    frame_sequence: u32,
    count: u8,
    arrivals: Seq<Arrival>,
)
    requires
        is_new(pending, frame_sequence, count as int),
        arrivals_fit(count, arrivals),
        arrivals.len() > 0,
        arrivals.len() > 1 ==> reassemble_all(
            pending,
            arrivals_bytes(frame_sequence, count, arrivals.drop_last()),
        ) == Some(Pending { frame_sequence, slots: slots_after(count, arrivals.drop_last()) }),
    ensures
        ({
            let slots = slots_after(count, arrivals);
            reassemble(
                reassemble_all(
                    pending,
                    arrivals_bytes(frame_sequence, count, arrivals.drop_last()),
                ),
                arrival_bytes(frame_sequence, count, arrivals.last()),
            ) == if complete(slots) {
                (None::<Pending>, Ok::<Option<Seq<u8>>, ProtocolError>(Some(joined(slots))))
            } else {
                (Some(Pending { frame_sequence, slots }), Ok(None))
            }
        }),
{
    let before = arrivals.drop_last();
    let last = arrivals.last();
    assert(arrivals[arrivals.len() - 1] == last);
    let header = BleAudioFragmentHeader {
        frame_sequence,
        fragment_index: last.index as u8,
        fragment_count: count,
        payload_len: last.payload.len() as u16,
    };
    law_fragment_header_round_trip(header, last.payload);
    assert(last.payload.take(header.payload_len as int) =~= last.payload);
    let held = reassemble_all(pending, arrivals_bytes(frame_sequence, count, before));
    if before.len() == 0 {
        assert(arrivals_bytes(frame_sequence, count, before) =~= Seq::<Seq<u8>>::empty());
        assert(held == pending);
    }
    let next = absorb(held, header, last.payload);
    assert forall|i: int| 0 <= i < count implies next.slots[i] == latest(arrivals, i) by {
        assert(latest(arrivals, i) == if last.index == i {
            Some(last.payload)
        } else {
            latest(before, i)
        });
        if before.len() == 0 {
            assert(latest(before, i) is None);
        } else {
            assert(slots_after(count, before)[i] == latest(before, i));
        }
    }
    assert(next.slots =~= slots_after(count, arrivals));
}

/// The fragments of `frame` with the indices `order`.
pub open spec fn fragments_in_order(
    frame_sequence: u32,
    frame: Seq<u8>,
    order: Seq<int>,
) -> Seq<Seq<u8>> {
    Seq::new(order.len(), |k: int| fragment_of(frame_sequence, frame, order[k]))
}

/// The fragments of a frame, in whatever order they arrive and however often
/// some of them do, yield nothing until the last one that was missing arrives;
/// that one yields the frame and leaves the reassembler empty. Fragments of
/// another frame that arrived before do not matter.
pub proof fn law_reassembly_gives_the_frame_back(
    pending: Option<Pending>,
    frame_sequence: u32,
    frame: Seq<u8>,
    order: Seq<int>,
)
    requires
        0 < frame.len(),
        fragments_needed(frame.len() as int) <= 255,
        is_new(pending, frame_sequence, fragments_needed(frame.len() as int)),
        forall|k: int|
            0 <= k < order.len() ==> 0 <= #[trigger] order[k] < fragments_needed(
                frame.len() as int,
            ),
        forall|i: int| 0 <= i < fragments_needed(frame.len() as int) ==> order.contains(i),
        order.len() > 0,
        !order.drop_last().contains(order.last()),
    ensures
        forall|k: int|
            0 <= k < order.len() - 1 ==> reassemble(
                reassemble_all(
                    pending,
                    fragments_in_order(frame_sequence, frame, #[trigger] order.take(k)),
                ),
                fragment_of(frame_sequence, frame, order[k]),
            ).1 == Ok::<Option<Seq<u8>>, ProtocolError>(None),
        reassemble(
            reassemble_all(pending, fragments_in_order(frame_sequence, frame, order.drop_last())),
            fragment_of(frame_sequence, frame, order.last()),
        ) == (
            None::<Pending>,
            Ok::<Option<Seq<u8>>, ProtocolError>(Some(frame)),
        ),
{
    let n = fragments_needed(frame.len() as int);
    let count = n as u8;
    let arrivals = chunk_arrivals(frame, order);
    let slots = slots_after(count, arrivals);
    assert forall|k: int| 0 <= k < arrivals.len() implies 0 <= (#[trigger] arrivals[k]).index
        < count && arrivals[k].payload.len() <= u16::MAX by {
        lemma_chunk_bounds(frame, order[k]);
    }
    assert forall|i: int| 0 <= i < n implies #[trigger] slots[i] == Some(chunk(frame, i)) by {
        assert(order.contains(i));
        lemma_latest_chunk(frame, order, i);
    }
    lemma_latest_chunk(frame, order.drop_last(), order.last());
    assert(chunk_arrivals(frame, order.drop_last()) =~= arrivals.drop_last());
    law_reassembly_joins_the_payloads(pending, frame_sequence, count, arrivals);
    assert forall|k: int| 0 <= k < order.len() - 1 implies reassemble(
        reassemble_all(
            pending,
            fragments_in_order(frame_sequence, frame, #[trigger] order.take(k)),
        ),
        fragment_of(frame_sequence, frame, order[k]),
    ).1 == Ok::<Option<Seq<u8>>, ProtocolError>(None) by {
        assert(arrivals_bytes(frame_sequence, count, arrivals.take(k)) =~= fragments_in_order(
            frame_sequence,
            frame,
            order.take(k),
        ));
    }
    assert(arrivals_bytes(frame_sequence, count, arrivals.drop_last()) =~= fragments_in_order(
        frame_sequence,
        frame,
        order.drop_last(),
    ));
    lemma_joined_chunks(frame, slots, n);
    assert(slots.take(n) =~= slots);
    assert(frame.take(chunk_end(frame.len() as int, n - 1)) =~= frame);
}

/// The fragments of `frame` with the indices `order`, as they arrive.
spec fn chunk_arrivals(frame: Seq<u8>, order: Seq<int>) -> Seq<Arrival> {
    Seq::new(order.len(), |k: int| Arrival { index: order[k], payload: chunk(frame, order[k]) })
}

proof fn lemma_latest_chunk(frame: Seq<u8>, order: Seq<int>, i: int)
    ensures
        latest(chunk_arrivals(frame, order), i) == if order.contains(i) {
            Some(chunk(frame, i))
        } else {
            None
        },
    decreases order.len(),
{
    if order.len() > 0 {
        let before = order.drop_last();
        lemma_latest_chunk(frame, before, i);
        assert(chunk_arrivals(frame, order).drop_last() =~= chunk_arrivals(frame, before));
        if order.last() == i {
            assert(order[order.len() - 1] == i);
        } else if before.contains(i) {
            let k = choose|k: int| 0 <= k < before.len() && before[k] == i;
            assert(order[k] == i);
        } else if order.contains(i) {
            let k = choose|k: int| 0 <= k < order.len() && order[k] == i;
            assert(before[k] == i);
        }
    }
}

proof fn lemma_chunk_bounds(frame: Seq<u8>, i: int)
    requires
        0 <= i < fragments_needed(frame.len() as int),
    ensures
        0 <= i * chunk_len() < chunk_end(frame.len() as int, i) <= frame.len(),
        0 < chunk(frame, i).len() <= chunk_len(),
{
    assert(i * chunk_len() == 172 * i && (i + 1) * chunk_len() == 172 * i + 172)
        by (nonlinear_arith)
        requires
            chunk_len() == 172,
    ;
}

proof fn lemma_joined_chunks(frame: Seq<u8>, slots: Seq<Option<Seq<u8>>>, n: int)
    requires
        0 <= n <= slots.len(),
        slots.len() == fragments_needed(frame.len() as int),
        forall|i: int| 0 <= i < slots.len() ==> #[trigger] slots[i] == Some(chunk(frame, i)),
    ensures
        n == 0 ==> joined(slots.take(n)) == Seq::<u8>::empty(),
        n > 0 ==> joined(slots.take(n)) == frame.take(chunk_end(frame.len() as int, n - 1)),
    decreases n,
{
    if n > 0 {
        lemma_joined_chunks(frame, slots, n - 1);
        assert(slots.take(n).drop_last() =~= slots.take(n - 1));
        assert(slots.take(n).last() == slots[n - 1]);
        if n == 1 {
            assert(joined(slots.take(n)) =~= frame.take(chunk_end(frame.len() as int, 0)));
        } else {
            assert(joined(slots.take(n)) =~= frame.take(chunk_end(frame.len() as int, n - 1)));
        }
    }
}

/// How many of `slots` are filled.
spec fn filled(slots: Seq<Option<Seq<u8>>>) -> nat
    decreases slots.len(),
{
    if slots.len() == 0 {
        0
    } else {
        filled(slots.drop_last()) + if slots.last() is Some {
            1nat
        } else {
            0
        }
    }
}

proof fn lemma_filled(slots: Seq<Option<Seq<u8>>>)
    ensures
        filled(slots) <= slots.len(),
        filled(slots) == slots.len() <==> complete(slots),
    decreases slots.len(),
{
    if slots.len() > 0 {
        lemma_filled(slots.drop_last());
        let shorter = slots.drop_last();
        assert(forall|i: int| 0 <= i < shorter.len() ==> #[trigger] shorter[i] == slots[i]);
        if complete(slots) {
            assert(slots[slots.len() - 1] is Some);
            assert(complete(shorter)) by {
                assert forall|i: int| 0 <= i < shorter.len() implies (
                #[trigger] shorter[i]) is Some by {
                    assert(slots[i] is Some);
                }
            }
        }
        if complete(shorter) && slots.last() is Some {
            assert forall|i: int| 0 <= i < slots.len() implies (#[trigger] slots[i]) is Some by {
                if i < shorter.len() {
                    assert(shorter[i] is Some);
                }
            }
        }
    }
}

proof fn lemma_filled_update(slots: Seq<Option<Seq<u8>>>, i: int, payload: Seq<u8>)
    requires
        0 <= i < slots.len(),
    ensures
        filled(slots.update(i, Some(payload))) == filled(slots) + if slots[i] is Some {
            0int
        } else {
            1
        },
    decreases slots.len(),
{
    let updated = slots.update(i, Some(payload));
    if i == slots.len() - 1 {
        assert(updated.drop_last() =~= slots.drop_last());
    } else {
        lemma_filled_update(slots.drop_last(), i, payload);
        assert(updated.drop_last() =~= slots.drop_last().update(i, Some(payload)));
    }
}

proof fn lemma_filled_empty(slots: Seq<Option<Seq<u8>>>)
    requires
        forall|i: int| 0 <= i < slots.len() ==> (#[trigger] slots[i]) is None,
    ensures
        filled(slots) == 0,
    decreases slots.len(),
{
    if slots.len() > 0 {
        let shorter = slots.drop_last();
        assert forall|i: int| 0 <= i < shorter.len() implies (#[trigger] shorter[i]) is None by {
            assert(slots[i] is None);
        }
        lemma_filled_empty(shorter);
        assert(slots[slots.len() - 1] is None);
    }
}

pub open spec fn payload_view(payload: Option<Vec<u8>>) -> Option<Seq<u8>> {
    match payload {
        Some(bytes) => Some(bytes@),
        None => None,
    }
}

pub open spec fn slots_view(fragments: Seq<Option<Vec<u8>>>) -> Seq<Option<Seq<u8>>> {
    Seq::new(fragments.len(), |i: int| payload_view(fragments[i]))
}

/// Puts the fragments of a frame together; the frame that comes out is a vector.
#[derive(Debug)]
pub struct BleFrameReassembler {
    frame_sequence: Option<u32>,
    fragment_count: u8,
    received_count: u8,
    fragments: Vec<Option<Vec<u8>>>,
}

impl View for BleFrameReassembler {
    type V = Option<Pending>;

    closed spec fn view(&self) -> Option<Pending> {
        match self.frame_sequence {
            Some(frame_sequence) => Some(
                Pending { frame_sequence, slots: slots_view(self.fragments@) },
            ),
            None => None,
        }
    }
}

impl BleFrameReassembler {
    /// The counts agree with what has arrived, and a frame that is complete is
    /// not kept.
    pub closed spec fn wf(self) -> bool {
        &&& self.fragments@.len() == self.fragment_count
        &&& self.frame_sequence is Some ==> self.received_count == filled(
            slots_view(self.fragments@),
        )
        &&& self.frame_sequence is Some ==> self.received_count < self.fragment_count
    }

    pub fn new() -> (reassembler: BleFrameReassembler)
        ensures
            reassembler.wf(),
            reassembler@ is None,
    {
        BleFrameReassembler {
            frame_sequence: None,
            fragment_count: 0,
            received_count: 0,
            fragments: Vec::new(),
        }
    }

    pub fn reset(&mut self)
        ensures
            final(self).wf(),
            final(self)@ is None,
    {
        self.frame_sequence = None;
        self.fragment_count = 0;
        self.received_count = 0;
        self.fragments.clear();
    }

    fn start_frame(&mut self, frame_sequence: u32, fragment_count: u8)
        ensures
            final(self).frame_sequence == Some(frame_sequence),
            final(self).fragment_count == fragment_count,
            final(self).received_count == 0,
            slots_view(final(self).fragments@) == Seq::new(
                fragment_count as nat,
                |i: int| None::<Seq<u8>>,
            ),
    {
        self.frame_sequence = Some(frame_sequence);
        self.fragment_count = fragment_count;
        self.received_count = 0;
        let mut fragments: Vec<Option<Vec<u8>>> = Vec::new();
        let mut i: u8 = 0;
        while i < fragment_count
            invariant
                i <= fragment_count,
                slots_view(fragments@) == Seq::new(i as nat, |i: int| None::<Seq<u8>>),
            decreases fragment_count - i,
        {
            let ghost before = slots_view(fragments@);
            fragments.push(None);
            assert(slots_view(fragments@) =~= before.push(None));
            i += 1;
            assert(slots_view(fragments@) =~= Seq::new(i as nat, |i: int| None::<Seq<u8>>));
        }
        self.fragments = fragments;
    }

    fn join(&self) -> (frame: Vec<u8>)
        requires
            complete(slots_view(self.fragments@)),
        ensures
            frame@ == joined(slots_view(self.fragments@)),
    {
        let ghost slots = slots_view(self.fragments@);
        let mut frame: Vec<u8> = Vec::new();
        let mut i: usize = 0;
        assert(slots.take(0) =~= Seq::<Option<Seq<u8>>>::empty());
        while i < self.fragments.len()
            invariant
                i <= self.fragments@.len(),
                slots == slots_view(self.fragments@),
                complete(slots),
                frame@ == joined(slots.take(i as int)),
            decreases self.fragments@.len() - i,
        {
            assert(slots[i as int] is Some);
            assert(slots.take(i + 1).drop_last() =~= slots.take(i as int));
            assert(slots.take(i + 1).last() == slots[i as int]);
            match &self.fragments[i] {
                Some(payload) => {
                    append_bytes(&mut frame, payload.as_slice());
                },
                None => {},
            }
            i += 1;
        }
        assert(slots.take(i as int) =~= slots);
        frame
    }

    /// Takes in a fragment; returns the frame that it completes.
    pub fn push(&mut self, fragment: &[u8]) -> (result: Result<Option<Vec<u8>>, ProtocolError>)
        requires
            old(self).wf(),
        ensures
            final(self).wf(),
            final(self)@ == reassemble(old(self)@, fragment@).0,
            match (result, reassemble(old(self)@, fragment@).1) {
                (Ok(Some(frame)), Ok(Some(expected))) => frame@ == expected,
                (Ok(None), Ok(None)) => true,
                (Err(error), Err(expected)) => error == expected,
                _ => false,
            },
    {
        let header = match BleAudioFragmentHeader::decode(fragment) {
            Ok(header) => header,
            Err(error) => return Err(error),
        };
        let payload = match header.payload(fragment) {
            Ok(payload) => payload,
            Err(error) => return Err(error),
        };
        let ghost held = self@;
        let ghost next = absorb(held, header, payload@);
        let same_frame = match self.frame_sequence {
            Some(frame_sequence) => frame_sequence == header.frame_sequence && self.fragment_count
                == header.fragment_count,
            None => false,
        };
        if !same_frame {
            self.start_frame(header.frame_sequence, header.fragment_count);
            proof {
                lemma_filled_empty(slots_view(self.fragments@));
            }
        }
        let ghost slots = slots_view(self.fragments@);
        proof {
            lemma_filled(slots);
            lemma_filled_update(slots, header.fragment_index as int, payload@);
        }
        let index: usize = header.fragment_index as usize;
        if self.fragments[index].is_none() {
            self.received_count = self.received_count + 1;
        }
        self.fragments.set(index, Some(slice_to_vec(payload)));
        proof {
            assert(slots_view(self.fragments@) =~= slots.update(index as int, Some(payload@)));
            assert(slots_view(self.fragments@) =~= next.slots);
            lemma_filled(next.slots);
        }
        if self.received_count != self.fragment_count {
            return Ok(None);
        }
        let frame = self.join();
        self.reset();
        Ok(Some(frame))
    }
}

impl Default for BleFrameReassembler {
    fn default() -> (reassembler: BleFrameReassembler)
        ensures
            reassembler.wf(),
            reassembler@ is None,
    {
        BleFrameReassembler::new()
    }
}

pub const ERROR_PROTOCOL: i32 = -2;

pub const ERROR_FRAGMENT_TOO_LARGE: i32 = -5;

/// Puts the fragments of a frame together; the frame that comes out is written
/// into the caller's buffer.
#[derive(Debug)]
pub struct M5MicBleReassembler {
    frames: BleFrameReassembler,
}

impl View for M5MicBleReassembler {
    type V = Option<Pending>;

    closed spec fn view(&self) -> Option<Pending> {
        self.frames@
    }
}

impl M5MicBleReassembler {
    pub closed spec fn wf(self) -> bool {
        self.frames.wf()
    }

    pub fn new() -> (reassembler: M5MicBleReassembler)
        ensures
            reassembler.wf(),
            reassembler@ is None,
    {
        M5MicBleReassembler { frames: BleFrameReassembler::new() }
    }

    pub fn reset(&mut self)
        ensures
            final(self).wf(),
            final(self)@ is None,
    {
        self.frames.reset();
    }

    /// Takes in a fragment; writes the frame that it completes over the first
    /// bytes of `out_frame` and returns its length. A frame that does not fit is
    /// dropped.
    pub fn push(&mut self, fragment: &[u8], out_frame: &mut [u8]) -> (result: Result<
        Option<usize>,
        i32,
    >)
        requires
            old(self).wf(),
        ensures
            final(self).wf(),
            final(self)@ == reassemble(old(self)@, fragment@).0,
            match reassemble(old(self)@, fragment@).1 {
                Err(_) => {
                    &&& result == Err::<Option<usize>, i32>(ERROR_PROTOCOL)
                    &&& final(out_frame)@ == old(out_frame)@
                },
                Ok(None) => {
                    &&& result == Ok::<Option<usize>, i32>(None)
                    &&& final(out_frame)@ == old(out_frame)@
                },
                Ok(Some(frame)) => if frame.len() <= old(out_frame)@.len() {
                    &&& result == Ok::<Option<usize>, i32>(Some(frame.len() as usize))
                    &&& final(out_frame)@ == frame + old(out_frame)@.skip(frame.len() as int)
                } else {
                    &&& result == Err::<Option<usize>, i32>(ERROR_FRAGMENT_TOO_LARGE)
                    &&& final(out_frame)@ == old(out_frame)@
                },
            },
    {
        match self.frames.push(fragment) {
            Err(_) => Err(ERROR_PROTOCOL),
            Ok(None) => Ok(None),
            Ok(Some(frame)) => {
                if out_frame.len() < frame.len() {
                    return Err(ERROR_FRAGMENT_TOO_LARGE);
                }
                let ghost before = out_frame@;
                copy_into(out_frame, 0, frame.as_slice());
                assert(out_frame@ =~= frame@ + before.skip(frame@.len() as int));
                Ok(Some(frame.len()))
            },
        }
    }
}

/// A fragment is refused for a place that is not among its frame's fragments, and for
/// being shorter than it says; all others are accepted, and say in the first four bytes
/// which frame they belong to, and then their place, how many there are, and how much
/// they hold.
pub proof fn law_a_fragment_is_refused_for_what_is_wrong(
    sequence: u32,
    index: u8,
    count: u8,
    payload_len: u16,
    rest: Seq<u8>,
)
    ensures
        ({
            let fragment = le_bytes(sequence as nat, 4) + seq![index, count] + le_bytes(
                payload_len as nat,
                2,
            ) + rest;
            let read = decode_fragment(fragment);
            &&& read is Err && read->Err_0 == ProtocolError::BadFragmentIndex <==> index >= count
            &&& read is Err && read->Err_0 == ProtocolError::FrameTooShort <==> index < count
                && rest.len() < payload_len
            &&& index < count && rest.len() >= payload_len ==> read == Ok::<
                BleAudioFragmentHeader,
                ProtocolError,
            >(
                BleAudioFragmentHeader {
                    frame_sequence: sequence,
                    fragment_index: index,
                    fragment_count: count,
                    payload_len,
                },
            )
        }),
        rest.len() < 8 ==> decode_fragment(rest) == Err::<BleAudioFragmentHeader, ProtocolError>(
            ProtocolError::FrameTooShort,
        ),
{
    let fragment = le_bytes(sequence as nat, 4) + seq![index, count] + le_bytes(
        payload_len as nat,
        2,
    ) + rest;
    lemma_pow256_values();
    lemma_le_bytes_len(sequence as nat, 4);
    lemma_le_bytes_len(payload_len as nat, 2);
    lemma_le_round_trip(sequence as nat, 4);
    lemma_le_round_trip(payload_len as nat, 2);
    assert(fragment.subrange(0, 4) =~= le_bytes(sequence as nat, 4));
    assert(fragment.subrange(6, 8) =~= le_bytes(payload_len as nat, 2));
    assert(fragment[4] == index && fragment[5] == count);
}

} // verus!
