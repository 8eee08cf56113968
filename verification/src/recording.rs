//! Recording: frames made of captured audio, what is shown while they are sent,
//! and how a recording ends.

use vstd::prelude::*;
use vstd::slice::slice_to_vec;

use crate::adpcm::{
    encode_nibbles, encoder_after, ima_adpcm4_encode, ima_adpcm4_encoded_len, initial_predictor,
    law_decoder_tracks_encoder, lemma_encode_nibbles, lemma_encoder_after_wf, pack, pcm_samples,
    ImaAdpcmState, Predictor,
};
use crate::bytes::append_bytes;
use crate::control::{saturating, ControlEvent};
use crate::display::{
    brightness_for, display_brightness_for_power, Brightness, RecordModeView,
};
use crate::frame::{
    decode_frame, frame_payload, header_bytes, law_header_round_trip, AudioFrameHeader, Codec,
    ProtocolError, FLAG_PUSH_TO_TALK, FLAG_STREAM_END, FLAG_STREAM_START,
};
use crate::pcm::{payload_pcm, pcm_peak_percent, peak_percent, predictor_after};
use crate::receiver::{frame_gap, hear, next_sequence, FrameGap, Heard, Hearing};
use crate::wifi_config::AppSettings;

verus! {

pub const SAMPLE_RATE: u32 = 16_000;

pub const CHANNELS: u8 = 1;

pub const FRAME_MS: usize = 40;

/// How many samples a frame holds.
pub const FRAME_SAMPLES: usize = 640;

pub const PCM_BYTES: usize = 1_280;

pub const ADPCM_BYTES: usize = 320;

pub const FRAME_BYTES: usize = 1_312;

/// How many captured frames wait to be sent at most.
pub const AUDIO_BUFFER_FRAMES: usize = 8;

/// How many frames are thrown away before a recording.
pub const DRAIN_FRAMES: usize = 8;

pub const RECORDING_POWER_REFRESH_US: u64 = 1_000_000;

pub const LEVEL_REFRESH_US: u64 = 200_000;

/// How often a Bluetooth receiver is looked for before giving up.
pub const BLE_WAIT_PHASES: usize = 120;

#[derive(Debug, Clone, Copy, PartialEq, Eq, Structural)]
pub enum RecordMode {
    Latched,
    PushToTalk,
}

impl RecordMode {
    pub fn is_push_to_talk(self) -> (yes: bool)
        ensures
            yes == (self == RecordMode::PushToTalk),
    {
        match self {
            RecordMode::PushToTalk => true,
            RecordMode::Latched => false,
        }
    }

    pub fn display_mode(self) -> (view: RecordModeView)
        ensures
            view == match self {
                RecordMode::Latched => RecordModeView::Latched,
                RecordMode::PushToTalk => RecordModeView::PushToTalk,
            },
    {
        match self {
            RecordMode::Latched => RecordModeView::Latched,
            RecordMode::PushToTalk => RecordModeView::PushToTalk,
        }
    }

    pub open spec fn flags(self) -> u16 {
        match self {
            RecordMode::PushToTalk => FLAG_PUSH_TO_TALK,
            RecordMode::Latched => 0,
        }
    }
}

pub fn mode_flags(mode: RecordMode) -> (flags: u16)
    ensures
        flags == mode.flags(),
{
    if mode.is_push_to_talk() {
        FLAG_PUSH_TO_TALK
    } else {
        0
    }
}

/// The number of a stream that begins at `now_us`.
pub open spec fn stream_number(now_us: u64) -> u32 {
    (now_us % 0x1_0000_0000) as u32
}

/// The number of the stream that begins at `now_us`.
pub fn next_stream_id(now_us: u64) -> (stream_id: u32)
    ensures
        stream_id == stream_number(now_us),
{
    (now_us % 0x1_0000_0000) as u32
}

/// How many frames are queued once one has been taken out.
pub fn decrement_queued_frames(queued: usize) -> (left: usize)
    ensures
        left == if queued > 0 {
            queued - 1
        } else {
            0
        },
{
    if queued > 0 {
        queued - 1
    } else {
        0
    }
}

#[derive(Debug)]
pub struct CapturedFrame {
    pub bytes: Vec<u8>,
    pub level: u8,
    pub sequence: u32,
}

/// The payload that captured samples are sent as.
pub open spec fn capture_payload(codec: Codec, pcm: Seq<u8>, p: Predictor) -> Seq<u8> {
    match codec {
        Codec::PcmS16Le => pcm,
        Codec::ImaAdpcm4 => pack(encode_nibbles(pcm_samples(pcm), p)),
    }
}

pub open spec fn capture_predictor(codec: Codec, pcm: Seq<u8>, p: Predictor) -> Predictor {
    match codec {
        Codec::PcmS16Le => p,
        Codec::ImaAdpcm4 => encoder_after(pcm_samples(pcm), p),
    }
}

/// A receiver that decodes a frame of captured samples from the same state as the
/// microphone encoded it in ends up in the same state as the microphone; and
/// uncompressed samples arrive as they were captured.
pub proof fn law_receiver_stays_in_step(codec: Codec, pcm: Seq<u8>, p: Predictor)
    requires
        p.wf(),
        pcm.len() % 4 == 0,
    ensures
        predictor_after(codec, capture_payload(codec, pcm, p), p) == capture_predictor(
            codec,
            pcm,
            p,
        ),
        codec == Codec::PcmS16Le ==> payload_pcm(codec, capture_payload(codec, pcm, p), p) == pcm,
        payload_pcm(codec, capture_payload(codec, pcm, p), p).len() == pcm.len(),
{
    if codec == Codec::ImaAdpcm4 {
        let samples = pcm_samples(pcm);
        lemma_encode_nibbles(samples, p);
        law_decoder_tracks_encoder(samples, p);
        assert(2 * pack(encode_nibbles(samples, p)).len() == samples.len());
    }
}

/// A frame begins its stream, ends it, or was made with push-to-talk exactly where
/// its flags were set to say so.
pub proof fn law_flags_say_what_was_meant(mode: RecordMode, first: bool)
    ensures
        ({
            let flags = capture_flags(mode, first);
            &&& (flags & FLAG_STREAM_START != 0) == first
            &&& flags & FLAG_STREAM_END == 0
            &&& (flags & FLAG_PUSH_TO_TALK != 0) == (mode == RecordMode::PushToTalk)
        }),
        ({
            let flags = FLAG_STREAM_END | mode.flags();
            &&& flags & FLAG_STREAM_START == 0
            &&& flags & FLAG_STREAM_END != 0
            &&& (flags & FLAG_PUSH_TO_TALK != 0) == (mode == RecordMode::PushToTalk)
        }),
{
    assert(0u16 & 1u16 == 0 && 0u16 & 2u16 == 0 && 0u16 & 4u16 == 0) by (bit_vector);
    assert(4u16 & 1u16 == 0 && 4u16 & 2u16 == 0 && 4u16 & 4u16 != 0) by (bit_vector);
    assert((0u16 | 1u16) & 1u16 != 0 && (0u16 | 1u16) & 2u16 == 0 && (0u16 | 1u16) & 4u16 == 0)
        by (bit_vector);
    assert((4u16 | 1u16) & 1u16 != 0 && (4u16 | 1u16) & 2u16 == 0 && (4u16 | 1u16) & 4u16 != 0)
        by (bit_vector);
    assert((2u16 | 0u16) & 1u16 == 0 && (2u16 | 0u16) & 2u16 != 0 && (2u16 | 0u16) & 4u16 == 0)
        by (bit_vector);
    assert((2u16 | 4u16) & 1u16 == 0 && (2u16 | 4u16) & 2u16 != 0 && (2u16 | 4u16) & 4u16 != 0)
        by (bit_vector);
}

pub open spec fn capture_flags(mode: RecordMode, first: bool) -> u16 {
    if first {
        mode.flags() | FLAG_STREAM_START
    } else {
        mode.flags()
    }
}

/// What all frames of a recording have in common.
pub ghost struct Recording {
    pub stream_id: u32,
    pub mode: RecordMode,
    pub codec: Codec,
}

/// How far a recording has come.
pub ghost struct Progress {
    pub sequence: u32,
    pub first: bool,
    pub predictor: Predictor,
}

/// The samples of a frame, and when they were captured.
pub ghost struct Take {
    pub pcm: Seq<u8>,
    pub timestamp_us: u64,
}

pub open spec fn at_start() -> Progress {
    Progress { sequence: 0, first: true, predictor: initial_predictor() }
}

pub open spec fn take_payload(recording: Recording, progress: Progress, take: Take) -> Seq<u8> {
    capture_payload(recording.codec, take.pcm, progress.predictor)
}

/// The header of the frame that a take is sent in.
pub open spec fn take_header(
    recording: Recording,
    progress: Progress,
    take: Take,
) -> AudioFrameHeader {
    AudioFrameHeader {
        codec: recording.codec,
        channels: CHANNELS,
        sample_rate: SAMPLE_RATE,
        sequence: progress.sequence,
        timestamp_us: take.timestamp_us,
        payload_len: take_payload(recording, progress, take).len() as u16,
        flags: capture_flags(recording.mode, progress.first),
        stream_id: recording.stream_id,
    }
}

/// The frame that a take is sent in.
pub open spec fn take_frame(recording: Recording, progress: Progress, take: Take) -> Seq<u8> {
    header_bytes(take_header(recording, progress, take)) + take_payload(recording, progress, take)
}

/// How far a recording has come after a take.
pub open spec fn progress_after(recording: Recording, progress: Progress, take: Take) -> Progress {
    Progress {
        sequence: next_sequence(progress.sequence),
        first: false,
        predictor: capture_predictor(recording.codec, take.pcm, progress.predictor),
    }
}

/// How far a recording has come after `takes`.
pub open spec fn progress_of(recording: Recording, takes: Seq<Take>) -> Progress
    decreases takes.len(),
{
    if takes.len() == 0 {
        at_start()
    } else {
        progress_after(recording, progress_of(recording, takes.drop_last()), takes.last())
    }
}

/// The frames of a recording.
pub open spec fn recording_frames(recording: Recording, takes: Seq<Take>) -> Seq<Seq<u8>> {
    Seq::new(
        takes.len(),
        |i: int| take_frame(recording, progress_of(recording, takes.take(i)), takes[i]),
    )
}

/// The listener after `frames`.
pub open spec fn hearing_after(hearing: Hearing, frames: Seq<Seq<u8>>) -> Hearing
    decreases frames.len(),
{
    if frames.len() == 0 {
        hearing
    } else {
        hear(hearing_after(hearing, frames.drop_last()), frames.last()).0
    }
}

/// The number of the frame that is due after `frames`.
pub open spec fn due_after(due: Option<u32>, frames: Seq<Seq<u8>>) -> Option<u32> {
    if frames.len() == 0 {
        due
    } else {
        match decode_frame(frames.last()) {
            Ok(header) => Some(next_sequence(header.sequence)),
            Err(_) => due,
        }
    }
}

/// The gap that the receiver sees in front of a frame.
pub open spec fn gap_seen(hearing: Hearing, due: Option<u32>, frame: Seq<u8>) -> Option<FrameGap> {
    match decode_frame(frame) {
        Ok(header) => frame_gap(hearing.active, due, header),
        Err(_) => None,
    }
}

/// The samples as they are heard: those of the take where they are sent as they
/// are, and otherwise what the decoder makes of them.
pub open spec fn heard_pcm(recording: Recording, progress: Progress, take: Take) -> Seq<u8> {
    payload_pcm(
        recording.codec,
        take_payload(recording, progress, take),
        progress.predictor,
    )
}

proof fn lemma_take_frame(recording: Recording, progress: Progress, take: Take)
    requires
        progress.predictor.wf(),
        take.pcm.len() == PCM_BYTES,
    ensures
        take_payload(recording, progress, take).len() == match recording.codec {
            Codec::PcmS16Le => PCM_BYTES,
            Codec::ImaAdpcm4 => ADPCM_BYTES,
        },
        decode_frame(take_frame(recording, progress, take)) == Ok::<
            AudioFrameHeader,
            ProtocolError,
        >(take_header(recording, progress, take)),
        frame_payload(
            take_header(recording, progress, take),
            take_frame(recording, progress, take),
        ) == take_payload(recording, progress, take),
        progress_after(recording, progress, take).predictor.wf(),
{
    let payload = take_payload(recording, progress, take);
    let header = take_header(recording, progress, take);
    lemma_encode_nibbles(pcm_samples(take.pcm), progress.predictor);
    law_header_round_trip(header, payload);
    assert(payload.take(header.payload_len as int) =~= payload);
    lemma_encoder_after_wf(pcm_samples(take.pcm), progress.predictor);
}

/// A recording, as far as it has been captured.
#[derive(Debug)]
pub struct Capture {
    pub stream_id: u32,
    pub mode: RecordMode,
    pub codec: Codec,
    pub sequence: u32,
    pub first: bool,
    pub adpcm_state: ImaAdpcmState,
}

impl Capture {
    pub open spec fn wf(self) -> bool {
        self.adpcm_state.wf()
    }

    pub open spec fn recording(self) -> Recording {
        Recording { stream_id: self.stream_id, mode: self.mode, codec: self.codec }
    }

    pub open spec fn progress(self) -> Progress {
        Progress {
            sequence: self.sequence,
            first: self.first,
            predictor: self.adpcm_state@,
        }
    }

    pub fn new(stream_id: u32, mode: RecordMode, codec: Codec) -> (capture: Capture)
        ensures
            capture.wf(),
            capture.recording() == (Recording { stream_id, mode, codec }),
            capture.progress() == at_start(),
    {
        Capture {
            stream_id,
            mode,
            codec,
            sequence: 0,
            first: true,
            adpcm_state: ImaAdpcmState::new(),
        }
    }

    /// Makes a frame of the samples `pcm`. Its level is that of the samples while
    /// it is tracked, and zero otherwise.
    pub fn frame(&mut self, pcm: &[u8], timestamp_us: u64, track_level: bool) -> (frame:
        CapturedFrame)
        requires
            old(self).wf(),
            pcm@.len() == PCM_BYTES,
        ensures
            final(self).wf(),
            frame.sequence == old(self).sequence,
            frame.level == if track_level {
                peak_percent(pcm@)
            } else {
                0
            },
            ({
                let recording = old(self).recording();
                let progress = old(self).progress();
                let take = Take { pcm: pcm@, timestamp_us };
                &&& frame.bytes@ == take_frame(recording, progress, take)
                &&& take_payload(recording, progress, take).len() == match recording.codec {
                    Codec::PcmS16Le => PCM_BYTES,
                    Codec::ImaAdpcm4 => ADPCM_BYTES,
                }
                &&& final(self).recording() == recording
                &&& final(self).progress() == progress_after(recording, progress, take)
            }),
    {
        let level: u8 = if track_level {
            pcm_peak_percent(pcm)
        } else {
            0
        };
        let mut flags: u16 = mode_flags(self.mode);
        if self.first {
            flags = flags | FLAG_STREAM_START;
        }
        let ghost p = self.adpcm_state@;
        let payload: Vec<u8> = match self.codec {
            Codec::PcmS16Le => slice_to_vec(pcm),
            Codec::ImaAdpcm4 => {
                let mut payload: Vec<u8> = vec![0u8; ima_adpcm4_encoded_len(pcm.len())];
                let ghost before = payload@;
                let encoded = ima_adpcm4_encode(
                    pcm,
                    payload.as_mut_slice(),
                    &mut self.adpcm_state,
                );
                proof {
                    lemma_encode_nibbles(pcm_samples(pcm@), p);
                    assert(before.skip(before.len() as int) =~= Seq::<u8>::empty());
                    assert(payload@ =~= pack(encode_nibbles(pcm_samples(pcm@), p)));
                }
                payload
            },
        };
        let header = AudioFrameHeader::new(
            self.codec,
            CHANNELS,
            SAMPLE_RATE,
            self.sequence,
            timestamp_us,
            payload.len() as u16,
            self.stream_id,
            flags,
        );
        let mut bytes = header.to_bytes();
        append_bytes(&mut bytes, payload.as_slice());
        proof {
            law_header_round_trip(header, payload@);
            assert(payload@.take(header.payload_len as int) =~= payload@);
        }
        let sequence: u32 = self.sequence;
        self.sequence = if sequence == u32::MAX {
            0
        } else {
            sequence + 1
        };
        self.first = false;
        CapturedFrame { bytes, level, sequence }
    }
}

/// The header of the frame that ends a stream.
pub open spec fn end_header(
    codec: Codec,
    sequence: u32,
    timestamp_us: u64,
    stream_id: u32,
    mode: RecordMode,
) -> AudioFrameHeader {
    AudioFrameHeader {
        codec,
        channels: CHANNELS,
        sample_rate: SAMPLE_RATE,
        sequence,
        timestamp_us,
        payload_len: 0,
        flags: FLAG_STREAM_END | mode.flags(),
        stream_id,
    }
}

/// After `n` frames the listener follows the recording, its decoder is in the state
/// of the encoder, and the next frame is the one that is due.
proof fn lemma_in_step(
    recording: Recording,
    takes: Seq<Take>,
    before: Hearing,
    due: Option<u32>,
    n: int,
)
    requires
        0 <= n <= takes.len(),
        forall|i: int| 0 <= i < takes.len() ==> (#[trigger] takes[i]).pcm.len() == PCM_BYTES,
    ensures
        ({
            let frames = recording_frames(recording, takes).take(n);
            let progress = progress_of(recording, takes.take(n));
            &&& progress.predictor.wf()
            &&& progress.first == (n == 0)
            &&& n == 0 ==> hearing_after(before, frames) == before
            &&& n > 0 ==> hearing_after(before, frames) == (Hearing {
                active: Some(recording.stream_id),
                predictor: progress.predictor,
            })
            &&& n > 0 ==> due_after(due, frames) == Some(progress.sequence)
        }),
    decreases n,
{
    if n > 0 {
        let frames = recording_frames(recording, takes);
        let earlier = progress_of(recording, takes.take(n - 1));
        let take = takes[n - 1];
        lemma_in_step(recording, takes, before, due, n - 1);
        assert(frames.take(n).drop_last() =~= frames.take(n - 1));
        assert(takes.take(n).drop_last() =~= takes.take(n - 1));
        lemma_take_frame(recording, earlier, take);
        law_flags_say_what_was_meant(recording.mode, earlier.first);
        law_receiver_stays_in_step(recording.codec, take.pcm, earlier.predictor);
    }
}

/// Take `i` of a recording is heard as it was made.
proof fn lemma_take_is_heard(
    recording: Recording,
    takes: Seq<Take>,
    before: Hearing,
    due: Option<u32>,
    i: int,
)
    requires
        0 <= i < takes.len(),
        forall|k: int| 0 <= k < takes.len() ==> (#[trigger] takes[k]).pcm.len() == PCM_BYTES,
    ensures
        ({
            let frames = recording_frames(recording, takes);
            let hearing = hearing_after(before, frames.take(i));
            let heard = heard_pcm(recording, progress_of(recording, takes.take(i)), takes[i]);
            &&& hear(hearing, frames[i]).1 == Heard::Played(heard)
            &&& heard.len() == takes[i].pcm.len()
            &&& recording.codec == Codec::PcmS16Le ==> heard == takes[i].pcm
            &&& gap_seen(hearing, due_after(due, frames.take(i)), frames[i]) is None
        }),
{
    let progress = progress_of(recording, takes.take(i));
    lemma_in_step(recording, takes, before, due, i);
    lemma_take_frame(recording, progress, takes[i]);
    law_flags_say_what_was_meant(recording.mode, progress.first);
    law_receiver_stays_in_step(recording.codec, takes[i].pcm, progress.predictor);
}

/// A recording is heard as it was made. Whatever the listener followed before, each
/// frame is played and none is missed, the decoder being in the state that the
/// encoder was in; uncompressed samples are heard as they were captured. The frame
/// that ends the recording is understood as its end.
#[verifier::spinoff_prover]
pub proof fn law_a_recording_is_heard_as_it_was_made(
    recording: Recording,
    takes: Seq<Take>,
    end_us: u64,
    before: Hearing,
    due: Option<u32>,
)
    requires
        takes.len() > 0,
        forall|i: int| 0 <= i < takes.len() ==> (#[trigger] takes[i]).pcm.len() == PCM_BYTES,
    ensures
        ({
            let frames = recording_frames(recording, takes);
            let end = header_bytes(
                end_header(
                    recording.codec,
                    progress_of(recording, takes).sequence,
                    end_us,
                    recording.stream_id,
                    recording.mode,
                ),
            );
            &&& forall|i: int|
                0 <= i < takes.len() ==> {
                    let so_far = #[trigger] frames.take(i);
                    let hearing = hearing_after(before, so_far);
                    let heard = heard_pcm(recording, progress_of(recording, takes.take(i)), takes[i]);
                    &&& hear(hearing, frames[i]).1 == Heard::Played(heard)
                    &&& heard.len() == takes[i].pcm.len()
                    &&& recording.codec == Codec::PcmS16Le ==> heard == takes[i].pcm
                    &&& gap_seen(hearing, due_after(due, so_far), frames[i]) is None
                }
            &&& hear(hearing_after(before, frames), end).1 is Ended
            &&& gap_seen(hearing_after(before, frames), due_after(due, frames), end) is None
        }),
{
    let frames = recording_frames(recording, takes);
    assert forall|i: int| 0 <= i < takes.len() implies {
        let so_far = #[trigger] frames.take(i);
        let hearing = hearing_after(before, so_far);
        let heard = heard_pcm(recording, progress_of(recording, takes.take(i)), takes[i]);
        &&& hear(hearing, frames[i]).1 == Heard::Played(heard)
        &&& heard.len() == takes[i].pcm.len()
        &&& recording.codec == Codec::PcmS16Le ==> heard == takes[i].pcm
        &&& gap_seen(hearing, due_after(due, so_far), frames[i]) is None
    } by {
        lemma_take_is_heard(recording, takes, before, due, i);
    }
    let header = end_header(
        recording.codec,
        progress_of(recording, takes).sequence,
        end_us,
        recording.stream_id,
        recording.mode,
    );
    lemma_in_step(recording, takes, before, due, takes.len() as int);
    assert(frames.take(takes.len() as int) =~= frames);
    assert(takes.take(takes.len() as int) =~= takes);
    law_header_round_trip(header, Seq::empty());
    assert(header_bytes(header) + Seq::<u8>::empty() =~= header_bytes(header));
    law_flags_say_what_was_meant(recording.mode, false);
}

/// The frame that ends a stream: a header alone. A receiver that gets it knows the
/// stream to be over.
pub fn stream_end_frame(
    codec: Codec,
    sequence: u32,
    timestamp_us: u64,
    stream_id: u32,
    mode: RecordMode,
) -> (frame: Vec<u8>)
    ensures
        frame@ == header_bytes(end_header(codec, sequence, timestamp_us, stream_id, mode)),
        decode_frame(frame@) == Ok::<AudioFrameHeader, ProtocolError>(
            end_header(codec, sequence, timestamp_us, stream_id, mode),
        ),
        end_header(codec, sequence, timestamp_us, stream_id, mode).stream_end(),
{
    let header = AudioFrameHeader::new(
        codec,
        CHANNELS,
        SAMPLE_RATE,
        sequence,
        timestamp_us,
        0,
        stream_id,
        FLAG_STREAM_END | mode_flags(mode),
    );
    let frame = header.to_bytes();
    proof {
        law_header_round_trip(header, Seq::empty());
        assert(header_bytes(header) + Seq::<u8>::empty() =~= header_bytes(header));
        law_flags_say_what_was_meant(mode, false);
    }
    frame
}

/// The number that the frame ending a stream has whose last frame was `last`.
pub fn end_sequence(last: u32) -> (sequence: u32)
    ensures
        sequence == next_sequence(last),
{
    if last == u32::MAX {
        0
    } else {
        last + 1
    }
}

/// The meter's level after a frame of level `level`: it rises at once, and falls
/// by eight at a time.
pub open spec fn meter_after(meter: u8, level: u8) -> u8 {
    if level > meter {
        level
    } else if meter - 8 > level {
        (meter - 8) as u8
    } else {
        level
    }
}

/// The meter never shows less than the frame, nor more than the louder of the
/// frame and what it showed, and falls by no more than eight.
pub proof fn law_meter_rises_at_once_and_falls_slowly(meter: u8, level: u8)
    ensures
        meter_after(meter, level) >= level,
        meter_after(meter, level) >= meter - 8,
        meter_after(meter, level) <= meter || meter_after(meter, level) == level,
{
}

/// The seconds since `started_us`.
pub open spec fn seconds_since(started_us: u64, now_us: u64) -> u64 {
    if now_us > started_us {
        ((now_us - started_us) / 1_000_000) as u64
    } else {
        0
    }
}

/// Whether a recording saves power.
pub open spec fn saves_power(external_power: bool, settings: AppSettings) -> bool {
    !external_power && settings.recording_battery_saver
}

/// What turning the screen on or off comes to.
#[derive(Debug, Clone, Copy, PartialEq, Eq, Structural)]
pub struct ScreenToggle {
    pub brightness: Brightness,
    /// Draw the recording screen anew, with this time and without meters.
    pub redraw: Option<u64>,
}

/// What a look at the battery comes to.
#[derive(Debug, Clone, Copy, PartialEq, Eq, Structural)]
pub struct PowerUpdate {
    pub brightness: Brightness,
    /// Track the level from now on, or no longer.
    pub track_level: Option<bool>,
    /// Draw the recording screen anew, with this time.
    pub redraw: Option<u64>,
    pub live_meters: bool,
}

/// A recording that is being sent: what has been sent, and what is shown.
#[derive(Debug, Clone, Copy, PartialEq, Eq, Structural)]
pub struct SendLoop {
    pub settings: AppSettings,
    pub started_us: u64,
    pub last_elapsed_secs: u64,
    pub next_battery_refresh_us: u64,
    pub next_level_refresh_us: u64,
    pub meter_level: u8,
    pub last_buffer_frames: Option<usize>,
    pub display_off: bool,
    pub live_meters: bool,
    pub power_save: bool,
    pub last_sequence: u32,
    pub have_sent_audio: bool,
}

impl SendLoop {
    /// The meters are live exactly while no power is saved, the screen is off only
    /// while power is, and power is saved only if the settings ask for it.
    pub open spec fn wf(self) -> bool {
        &&& self.live_meters == !self.power_save
        &&& self.power_save ==> self.settings.recording_battery_saver
        &&& self.display_off ==> self.power_save
    }

    pub fn new(settings: AppSettings, started_us: u64, external_power: bool) -> (send: SendLoop)
        ensures
            send.wf(),
            send == (SendLoop {
                settings,
                started_us,
                last_elapsed_secs: 0,
                next_battery_refresh_us: saturating(started_us + RECORDING_POWER_REFRESH_US),
                next_level_refresh_us: saturating(started_us + LEVEL_REFRESH_US),
                meter_level: 0,
                last_buffer_frames: None,
                display_off: false,
                live_meters: !saves_power(external_power, settings),
                power_save: saves_power(external_power, settings),
                last_sequence: 0,
                have_sent_audio: false,
            }),
    {
        let power_save = !external_power && settings.recording_battery_saver;
        SendLoop {
            settings,
            started_us,
            last_elapsed_secs: 0,
            next_battery_refresh_us: started_us.saturating_add(RECORDING_POWER_REFRESH_US),
            next_level_refresh_us: started_us.saturating_add(LEVEL_REFRESH_US),
            meter_level: 0,
            last_buffer_frames: None,
            display_off: false,
            live_meters: !power_save,
            power_save,
            last_sequence: 0,
            have_sent_audio: false,
        }
    }

    /// The screen turned on or off, and what that comes to: nothing unless power is saved.
    pub open spec fn toggled(self, now_us: u64, external_power: bool) -> (
        SendLoop,
        Option<ScreenToggle>,
    ) {
        let secs = seconds_since(self.started_us, now_us);
        if !self.power_save {
            (self, None)
        } else if self.display_off {
            (
                SendLoop { display_off: false, last_elapsed_secs: secs, ..self },
                Some(
                    ScreenToggle {
                        brightness: brightness_for(external_power, self.settings),
                        redraw: Some(secs),
                    },
                ),
            )
        } else {
            (
                SendLoop { display_off: true, ..self },
                Some(ScreenToggle { brightness: Brightness::Off, redraw: None }),
            )
        }
    }

    /// The time that is shown anew, if any.
    pub open spec fn time_shown(self, now_us: u64) -> (SendLoop, Option<u64>) {
        let now = seconds_since(self.started_us, now_us);
        if !self.display_off && now != self.last_elapsed_secs {
            (SendLoop { last_elapsed_secs: now, ..self }, Some(now))
        } else {
            (self, None)
        }
    }

    /// The power looked at, and what that comes to.
    pub open spec fn powered(self, now_us: u64, external_power: bool) -> (SendLoop, PowerUpdate) {
        let off = self.display_off && !external_power;
        let saving = saves_power(external_power, self.settings);
        let changed = saving != self.power_save;
        let secs = seconds_since(self.started_us, now_us);
        let shown = changed && !off;
        (
            SendLoop {
                display_off: off,
                power_save: saving,
                live_meters: !saving,
                meter_level: if changed && saving {
                    0
                } else {
                    self.meter_level
                },
                last_elapsed_secs: if shown {
                    secs
                } else {
                    self.last_elapsed_secs
                },
                last_buffer_frames: if changed {
                    None
                } else {
                    self.last_buffer_frames
                },
                next_battery_refresh_us: saturating(now_us + RECORDING_POWER_REFRESH_US),
                ..self
            },
            PowerUpdate {
                brightness: if off {
                    Brightness::Off
                } else {
                    brightness_for(external_power, self.settings)
                },
                track_level: if changed {
                    Some(!saving)
                } else {
                    None
                },
                redraw: if shown {
                    Some(secs)
                } else {
                    None
                },
                live_meters: !saving,
            },
        )
    }

    /// The level that is shown anew, if any.
    pub open spec fn level_shown(self, now_us: u64) -> (SendLoop, Option<u8>) {
        if self.live_meters && !self.display_off && now_us >= self.next_level_refresh_us {
            (
                SendLoop { next_level_refresh_us: saturating(now_us + LEVEL_REFRESH_US), ..self },
                Some(self.meter_level),
            )
        } else {
            (self, None)
        }
    }

    /// The number of queued frames that is shown anew, if any.
    pub open spec fn buffer_shown(self, queued: usize) -> (SendLoop, Option<usize>) {
        let shown = if queued > AUDIO_BUFFER_FRAMES {
            AUDIO_BUFFER_FRAMES
        } else {
            queued
        };
        if self.live_meters && !self.display_off && self.last_buffer_frames != Some(shown) {
            (SendLoop { last_buffer_frames: Some(shown), ..self }, Some(shown))
        } else {
            (self, None)
        }
    }

    fn elapsed(&self, now_us: u64) -> (secs: u64)
        ensures
            secs == seconds_since(self.started_us, now_us),
    {
        now_us.saturating_sub(self.started_us) / 1_000_000
    }

    /// The other button was pressed: while power is saved it turns the screen off
    /// and on again, and otherwise it does nothing.
    pub fn toggle_screen(&mut self, now_us: u64, external_power: bool) -> (toggle: Option<
        ScreenToggle,
    >)
        requires
            old(self).wf(),
        ensures
            final(self).wf(),
            (*final(self), toggle) == old(self).toggled(now_us, external_power),
    {
        if !self.power_save {
            return None;
        }
        self.display_off = !self.display_off;
        if self.display_off {
            return Some(ScreenToggle { brightness: Brightness::Off, redraw: None });
        }
        let secs: u64 = self.elapsed(now_us);
        self.last_elapsed_secs = secs;
        Some(
            ScreenToggle {
                brightness: display_brightness_for_power(external_power, &self.settings),
                redraw: Some(secs),
            },
        )
    }

    /// A frame has been sent.
    pub fn frame_sent(&mut self, sequence: u32, level: u8)
        requires
            old(self).wf(),
        ensures
            final(self).wf(),
            *final(self) == (SendLoop {
                last_sequence: sequence,
                have_sent_audio: true,
                meter_level: meter_after(old(self).meter_level, level),
                ..*old(self)
            }),
    {
        self.last_sequence = sequence;
        self.have_sent_audio = true;
        self.meter_level = if level > self.meter_level {
            level
        } else if self.meter_level >= 8 && self.meter_level - 8 > level {
            self.meter_level - 8
        } else {
            level
        };
    }

    /// The time to show, if it has changed.
    pub fn time_to_show(&mut self, now_us: u64) -> (secs: Option<u64>)
        requires
            old(self).wf(),
        ensures
            final(self).wf(),
            (*final(self), secs) == old(self).time_shown(now_us),
    {
        let now: u64 = self.elapsed(now_us);
        if !self.display_off && now != self.last_elapsed_secs {
            self.last_elapsed_secs = now;
            Some(now)
        } else {
            None
        }
    }

    /// Whether the battery is looked at now.
    pub fn battery_due(&self, now_us: u64) -> (due: bool)
        ensures
            due == (now_us >= self.next_battery_refresh_us),
    {
        now_us >= self.next_battery_refresh_us
    }

    /// The battery has been looked at. External power turns the screen on, and
    /// the meters with it.
    pub fn battery_read(&mut self, now_us: u64, external_power: bool) -> (update: PowerUpdate)
        requires
            old(self).wf(),
        ensures
            final(self).wf(),
            (*final(self), update) == old(self).powered(now_us, external_power),
    {
        if external_power {
            self.display_off = false;
        }
        let power_save = !external_power && self.settings.recording_battery_saver;
        let live_meters = !power_save;
        let brightness = if self.display_off {
            Brightness::Off
        } else {
            display_brightness_for_power(external_power, &self.settings)
        };
        let mut track_level: Option<bool> = None;
        let mut redraw: Option<u64> = None;
        if power_save != self.power_save || live_meters != self.live_meters {
            self.power_save = power_save;
            self.live_meters = live_meters;
            track_level = Some(live_meters);
            if !live_meters {
                self.meter_level = 0;
            }
            if !self.display_off {
                let secs: u64 = self.elapsed(now_us);
                redraw = Some(secs);
                self.last_elapsed_secs = secs;
            }
            self.last_buffer_frames = None;
        }
        self.next_battery_refresh_us = now_us.saturating_add(RECORDING_POWER_REFRESH_US);
        PowerUpdate { brightness, track_level, redraw, live_meters }
    }

    /// The level to show, if it is time to.
    pub fn level_to_show(&mut self, now_us: u64) -> (level: Option<u8>)
        requires
            old(self).wf(),
        ensures
            final(self).wf(),
            (*final(self), level) == old(self).level_shown(now_us),
    {
        if self.live_meters && !self.display_off && now_us >= self.next_level_refresh_us {
            self.next_level_refresh_us = now_us.saturating_add(LEVEL_REFRESH_US);
            Some(self.meter_level)
        } else {
            None
        }
    }

    /// The number of queued frames to show, if it has changed.
    pub fn buffer_to_show(&mut self, queued: usize) -> (buffered: Option<usize>)
        requires
            old(self).wf(),
        ensures
            final(self).wf(),
            (*final(self), buffered) == old(self).buffer_shown(queued),
    {
        let shown: usize = if queued > AUDIO_BUFFER_FRAMES {
            AUDIO_BUFFER_FRAMES
        } else {
            queued
        };
        let known = match self.last_buffer_frames {
            Some(last) => last == shown,
            None => false,
        };
        if self.live_meters && !self.display_off && !known {
            self.last_buffer_frames = Some(shown);
            Some(shown)
        } else {
            None
        }
    }
}

/// Whether an event stops a recording: only a request to stop does, and all else
/// waits.
pub fn event_stops_stream(event: &Option<ControlEvent>) -> (stops: bool)
    ensures
        stops == (*event == Some(ControlEvent::RecordStop)),
{
    match event {
        Some(ControlEvent::RecordStop) => true,
        _ => false,
    }
}

/// Whether the buttons and the requests so far stop a recording.
pub open spec fn is_stopped(
    mode: RecordMode,
    tapped: bool,
    low: bool,
    event: Option<ControlEvent>,
) -> bool {
    (match mode {
        RecordMode::Latched => tapped,
        RecordMode::PushToTalk => !low,
    }) || event == Some(ControlEvent::RecordStop)
}

/// Whether a recording is to stop. One that is latched stops when the button is tapped,
/// one that lasts as long as the button is held when the button is no longer low, and
/// either on a request to stop.
pub fn stops_stream(
    mode: RecordMode,
    tapped: bool,
    low: bool,
    event: &Option<ControlEvent>,
) -> (stops: bool)
    ensures
        stops == is_stopped(mode, tapped, low, *event),
{
    let button: bool = match mode {
        RecordMode::Latched => tapped,
        RecordMode::PushToTalk => !low,
    };
    button || event_stops_stream(event)
}

/// What waiting for a captured frame came to.
#[derive(Debug, Clone, Copy, PartialEq, Eq, Structural)]
pub enum Waited {
    Frame,
    Timeout,
    /// Nothing more will be captured.
    Closed,
}

/// What is done about it.
#[derive(Debug, Clone, Copy, PartialEq, Eq, Structural)]
pub enum SendStep {
    /// The frame is sent.
    Send,
    /// The link is gone, and with it the frame.
    Fail,
    GoOn,
    End(SendEnd),
}

/// What comes of waiting for a frame: a frame is sent if and only if there is a link
/// to send it over.
pub fn send_step(waited: Waited, connected: bool) -> (step: SendStep)
    ensures
        step == match waited {
            Waited::Frame => if connected {
                SendStep::Send
            } else {
                SendStep::Fail
            },
            Waited::Timeout => SendStep::GoOn,
            Waited::Closed => SendStep::End(SendEnd::CaptureEnded),
        },
        step is Send <==> waited == Waited::Frame && connected,
{
    match waited {
        Waited::Frame => if connected {
            SendStep::Send
        } else {
            SendStep::Fail
        },
        Waited::Timeout => SendStep::GoOn,
        Waited::Closed => SendStep::End(SendEnd::CaptureEnded),
    }
}

/// How sending came to an end.
#[derive(Debug, Clone, Copy, PartialEq, Eq, Structural)]
pub enum SendEnd {
    /// The user stopped the recording.
    User,
    /// Nothing more was captured.
    CaptureEnded,
    Failed,
}

/// How a recording came to an end.
#[derive(Debug, Clone, Copy, PartialEq, Eq, Structural)]
pub enum StreamEnd {
    User,
    CaptureEnded,
    SendFailed,
    CaptureFailed,
}

/// How a recording has ended, by how its sending and its capture have.
pub open spec fn end_of_stream(send: SendEnd, capture_ok: bool) -> StreamEnd {
    match send {
        SendEnd::User => StreamEnd::User,
        SendEnd::CaptureEnded => if capture_ok {
            StreamEnd::CaptureEnded
        } else {
            StreamEnd::CaptureFailed
        },
        SendEnd::Failed => StreamEnd::SendFailed,
    }
}

/// How a recording ends whose sending ended in `send`: a capture that fails after
/// the user has stopped does not matter, nor does one after sending has failed.
pub fn stream_end(send: SendEnd, capture_ok: bool) -> (end: StreamEnd)
    ensures
        end == end_of_stream(send, capture_ok),
{
    match send {
        SendEnd::User => StreamEnd::User,
        SendEnd::CaptureEnded => if capture_ok {
            StreamEnd::CaptureEnded
        } else {
            StreamEnd::CaptureFailed
        },
        SendEnd::Failed => StreamEnd::SendFailed,
    }
}

impl StreamEnd {
    pub open spec fn is_announced(self, have_sent_audio: bool, connected: bool) -> bool {
        (self == StreamEnd::User || self == StreamEnd::CaptureEnded) && have_sent_audio
            && connected
    }

    pub open spec fn went_well(self) -> bool {
        self == StreamEnd::User
    }

    /// Whether the receiver is told that the stream is over.
    pub fn announces_end(self, have_sent_audio: bool, connected: bool) -> (announces: bool)
        ensures
            announces == self.is_announced(have_sent_audio, connected),
    {
        match self {
            StreamEnd::User => have_sent_audio && connected,
            StreamEnd::CaptureEnded => have_sent_audio && connected,
            _ => false,
        }
    }

    /// Whether the recording went well: only one that the user stopped did.
    pub fn is_ok(self) -> (ok: bool)
        ensures
            ok == self.went_well(),
    {
        match self {
            StreamEnd::User => true,
            _ => false,
        }
    }
}

/// What waiting for a Bluetooth receiver comes to.
#[derive(Debug, Clone, Copy, PartialEq, Eq, Structural)]
pub enum BleWaitStep {
    /// A receiver is there: start the recording.
    Stream,
    /// The recording was stopped before it began.
    Stopped,
    /// Show progress, wait, and look again.
    Wait,
    /// Show progress, wait, and look no more: no receiver is there.
    GiveUp,
}

/// What look number `phase` at the receiver comes to.
pub open spec fn ble_look(phase: int, ready: bool, stop: bool) -> BleWaitStep {
    if ready {
        BleWaitStep::Stream
    } else if stop {
        BleWaitStep::Stopped
    } else if phase + 1 >= BLE_WAIT_PHASES {
        BleWaitStep::GiveUp
    } else {
        BleWaitStep::Wait
    }
}

/// Look number `phase`, counted from zero, at whether a Bluetooth receiver is there;
/// `stop` is only asked for where there is none.
pub fn ble_wait_at(phase: usize, ready: bool, stop: bool) -> (wait: BleWaitStep)
    ensures
        wait == ble_look(phase as int, ready, stop),
{
    if ready {
        BleWaitStep::Stream
    } else if stop {
        BleWaitStep::Stopped
    } else if phase >= BLE_WAIT_PHASES - 1 {
        BleWaitStep::GiveUp
    } else {
        BleWaitStep::Wait
    }
}

/// The receiver that the last recording went to.
#[derive(Debug)]
pub struct ReceiverCache {
    pub url: Option<String>,
}

impl ReceiverCache {
    pub open spec fn known(self) -> Option<Seq<char>> {
        match self.url {
            Some(url) => Some(url@),
            None => None,
        }
    }

    pub fn new() -> (cache: ReceiverCache)
        ensures
            cache.known() is None,
    {
        ReceiverCache { url: None }
    }

    pub fn forget(&mut self)
        ensures
            final(self).known() is None,
    {
        self.url = None;
    }

    /// A discovered receiver has answered.
    pub fn connected(&mut self, url: String)
        ensures
            final(self).known() == Some(url@),
    {
        self.url = Some(url);
    }

    /// A recording has ended; a receiver that it failed with is looked for anew.
    pub fn stream_finished(&mut self, ok: bool)
        ensures
            final(self).known() == if ok {
                old(self).known()
            } else {
                None
            },
    {
        if !ok {
            self.url = None;
        }
    }
}

/// The meter shows the level of the frame, or what it showed less eight: whichever is
/// more.
pub proof fn law_the_meter_shows_the_more_of_two(meter: u8, level: u8)
    ensures
        meter_after(meter, level) == level || meter_after(meter, level) == meter - 8,
        meter_after(meter, level) >= level && meter_after(meter, level) >= meter - 8,
        meter <= level + 8 ==> meter_after(meter, level) == level,
{
}

/// The time shown is in whole seconds that have passed: none before the recording began,
/// and one more with each million microseconds.
pub proof fn law_time_is_shown_in_whole_seconds(started_us: u64, now_us: u64)
    ensures
        ({
            let secs = seconds_since(started_us, now_us);
            &&& now_us <= started_us ==> secs == 0
            &&& now_us >= started_us ==> 1_000_000 * secs <= now_us - started_us < 1_000_000 * (secs
                + 1)
            &&& now_us >= started_us && now_us + 1_000_000 <= u64::MAX ==> seconds_since(
                started_us,
                (now_us + 1_000_000) as u64,
            ) == secs + 1
        }),
{
}

/// On external power nothing is saved, and on battery what the settings say; so a
/// recording that saves power is never one on external power.
pub proof fn law_power_is_saved_on_battery_alone(settings: AppSettings)
    ensures
        !saves_power(true, settings),
        saves_power(false, settings) <==> settings.recording_battery_saver,
{
}

/// The frame that ends a stream says that it does, begins none, holds no audio, and
/// belongs to the stream of the frames before it: it differs from one of theirs in
/// number, time, length and flags alone.
pub proof fn law_the_end_belongs_to_its_stream(
    recording: Recording,
    progress: Progress,
    take: Take,
    sequence: u32,
    timestamp_us: u64,
)
    ensures
        ({
            let frame = take_header(recording, progress, take);
            let end = end_header(
                recording.codec,
                sequence,
                timestamp_us,
                recording.stream_id,
                recording.mode,
            );
            &&& end.stream_end() && !end.stream_start() && end.payload_len == 0
            &&& end.sequence == sequence && end.timestamp_us == timestamp_us
            &&& !frame.stream_end() && frame.stream_start() == progress.first
            &&& end.codec == frame.codec && end.codec == recording.codec
            &&& end.stream_id == frame.stream_id && end.stream_id == recording.stream_id
            &&& end.channels == frame.channels && end.channels == 1
            &&& end.sample_rate == frame.sample_rate && end.sample_rate == 16_000
            &&& frame.sequence == progress.sequence && frame.timestamp_us == take.timestamp_us
            &&& (end.flags & FLAG_PUSH_TO_TALK != 0) == (frame.flags & FLAG_PUSH_TO_TALK != 0)
            &&& (end.flags & FLAG_PUSH_TO_TALK != 0) == (recording.mode == RecordMode::PushToTalk)
        }),
{
    law_flags_say_what_was_meant(recording.mode, progress.first);
}

/// The frames of a recording are numbered from nought without a gap, and only the
/// first of them says that it begins the stream.
pub proof fn law_frames_are_numbered_from_nought(recording: Recording, takes: Seq<Take>)
    requires
        takes.len() <= u32::MAX,
    ensures
        progress_of(recording, takes).sequence == takes.len(),
        progress_of(recording, takes).first == (takes.len() == 0),
    decreases takes.len(),
{
    if takes.len() > 0 {
        law_frames_are_numbered_from_nought(recording, takes.drop_last());
    }
}

/// Streams that begin at different times within an hour of each other have different
/// numbers, and numbers go up with the time until they start again from nought.
pub proof fn law_streams_have_numbers_of_their_own(now_us: u64, later_us: u64)
    requires
        now_us < later_us,
        later_us - now_us <= 3_600_000_000,
    ensures
        stream_number(now_us) != stream_number(later_us),
        now_us <= 0xffff_ffff ==> stream_number(now_us) == now_us,
        later_us == now_us + 1 && stream_number(later_us) != 0 ==> stream_number(later_us)
            == stream_number(now_us) + 1,
{
}

/// A request to stop ends either kind of recording, and nothing else that is requested
/// ends any; what the button does to one kind, it does not do to the other.
pub proof fn law_a_recording_stops_as_it_is_meant_to(
    tapped: bool,
    low: bool,
    event: Option<ControlEvent>,
    mode: RecordMode,
)
    ensures
        event == Some(ControlEvent::RecordStop) ==> is_stopped(mode, tapped, low, event),
        event != Some(ControlEvent::RecordStop) ==> is_stopped(mode, tapped, low, event)
            == is_stopped(mode, tapped, low, None),
        is_stopped(RecordMode::Latched, true, low, None),
        !is_stopped(RecordMode::Latched, false, low, None),
        is_stopped(RecordMode::PushToTalk, tapped, false, None),
        !is_stopped(RecordMode::PushToTalk, tapped, true, None),
{
}

/// A recording went well if and only if the user ended it, whatever became of the capture
/// then. The receiver is told of an end only where there was something to end and someone
/// to tell, and never of a failure; a failure to capture shows only where nothing else
/// ended the recording.
pub proof fn law_ends_are_told_for_what_they_are(
    send: SendEnd,
    capture_ok: bool,
    have_sent_audio: bool,
    connected: bool,
)
    ensures
        ({
            let end = end_of_stream(send, capture_ok);
            &&& end.went_well() <==> send == SendEnd::User
            &&& end == StreamEnd::CaptureFailed <==> send == SendEnd::CaptureEnded && !capture_ok
            &&& end == StreamEnd::SendFailed <==> send == SendEnd::Failed
            &&& end.is_announced(have_sent_audio, connected) <==> have_sent_audio && connected && (
            send == SendEnd::User || (send == SendEnd::CaptureEnded && capture_ok))
        }),
{
}

/// A receiver that is there is used and a request to stop is obeyed at whichever look
/// they come; without either, the first 119 looks wait and the 120th gives up.
pub proof fn law_a_receiver_is_waited_for(phase: int, stop: bool)
    requires
        0 <= phase,
    ensures
        ble_look(phase, true, stop) == BleWaitStep::Stream,
        ble_look(phase, false, true) == BleWaitStep::Stopped,
        ble_look(phase, false, false) == BleWaitStep::Wait <==> phase < 119,
        ble_look(phase, false, false) == BleWaitStep::GiveUp <==> phase >= 119,
{
}

/// Turning the screen off and on again leaves it on with the time drawn anew, and dark in
/// between; where no power is saved, the button does nothing.
pub proof fn law_the_screen_goes_off_and_on(
    send: SendLoop,
    now_us: u64,
    later_us: u64,
    external_power: bool,
)
    requires
        send.wf(),
    ensures
        ({
            let (once, first) = send.toggled(now_us, external_power);
            let (twice, second) = once.toggled(later_us, external_power);
            &&& !send.power_save ==> once == send && first is None
            &&& send.power_save ==> once.display_off == !send.display_off && twice.display_off
                == send.display_off
            &&& send.power_save && !send.display_off ==> {
                &&& first matches Some(dark) && dark.brightness == Brightness::Off
                    && dark.redraw is None
                &&& second matches Some(lit) && lit.brightness != Brightness::Off && lit.redraw
                    == Some(seconds_since(send.started_us, later_us))
            }
            &&& once.time_shown(now_us).1 is None || !send.power_save
            &&& once.wf() && twice.wf()
        }),
{
}

/// Each second is shown once, and none while the screen is off.
pub proof fn law_each_second_is_shown_once(send: SendLoop, now_us: u64)
    ensures
        ({
            let (after, shown) = send.time_shown(now_us);
            &&& after.time_shown(now_us).1 is None
            &&& shown matches Some(secs) ==> secs == seconds_since(send.started_us, now_us)
            &&& !send.display_off && send.last_elapsed_secs != seconds_since(
                send.started_us,
                now_us,
            ) ==> shown is Some
            &&& send.display_off ==> shown is None
            &&& after == (SendLoop { last_elapsed_secs: after.last_elapsed_secs, ..send })
        }),
{
}

/// External power turns the screen and the meters on, whatever the settings. Looking at
/// the power again without its having changed draws nothing anew, and is not due before a
/// second has passed.
pub proof fn law_power_turns_the_screen_on(
    send: SendLoop,
    now_us: u64,
    later_us: u64,
    external_power: bool,
)
    requires
        send.wf(),
        now_us <= u64::MAX - 1_000_000,
    ensures
        ({
            let (after, update) = send.powered(now_us, external_power);
            let (again, repeated) = after.powered(later_us, external_power);
            &&& after.wf()
            &&& external_power ==> !after.display_off && after.live_meters && update.live_meters
                && update.brightness == Brightness::Full
            &&& update.brightness == Brightness::Off <==> send.display_off && !external_power
            &&& update.live_meters == after.live_meters
            &&& update.track_level is Some <==> after.power_save != send.power_save
            &&& update.track_level matches Some(track) ==> track == after.live_meters
            &&& update.redraw is Some <==> after.power_save != send.power_save
                && !after.display_off
            &&& update.redraw matches Some(secs) ==> secs == seconds_since(send.started_us, now_us)
                && after.time_shown(now_us).1 is None
            &&& repeated.track_level is None && repeated.redraw is None
            &&& after.next_battery_refresh_us == now_us + 1_000_000
            &&& after.meter_level == send.meter_level || (after.power_save && after.meter_level
                == 0)
        }),
{
}

/// The level is shown at most five times a second and the buffer only when it changes,
/// each only while the meters are live and the screen is on; of a buffer no more than
/// eight frames are shown.
pub proof fn law_meters_are_shown_now_and_then(send: SendLoop, now_us: u64, queued: usize)
    requires
        now_us <= u64::MAX - 200_000,
    ensures
        ({
            let (after, level) = send.level_shown(now_us);
            let (filled, buffered) = send.buffer_shown(queued);
            &&& level is Some ==> after.next_level_refresh_us == now_us + 200_000
            &&& level is Some ==> send.live_meters && !send.display_off && level
                == Some(send.meter_level)
            &&& level is None ==> after == send
            &&& send.live_meters && !send.display_off && now_us >= send.next_level_refresh_us
                ==> level is Some
            &&& filled.buffer_shown(queued).1 is None
            &&& buffered matches Some(n) ==> n <= 8 && n <= queued && (n == queued || n == 8)
                && send.live_meters && !send.display_off && send.last_buffer_frames != buffered
            &&& send.live_meters && !send.display_off && send.last_buffer_frames is None
                ==> buffered is Some
        }),
{
}

} // verus!
