//! The desktop receiver: what it does with each message of a connection, and the
//! names it gives to hosts and recordings.

use vstd::prelude::*;
use vstd::string::*;

use crate::adpcm::{initial_predictor, ImaAdpcmState, Predictor};
use crate::discovery::{DISCOVERY_PORT, WS_PORT};
use crate::frame::{decode_frame, frame_payload, AudioFrameHeader, Codec, ProtocolError};
use crate::pcm::{decode_audio_payload, payload_pcm, predictor_after};
use crate::text::{
    ascii_lower, chars_of, decimal, hex, hex_char, is_space, is_whitespace, law_decimal_round_trip,
    push_decimal, push_hex, string_of, to_ascii_lower,
};

verus! {

#[derive(Debug, Clone)]
pub struct ReceiverConfig {
    pub listen: String,
    pub ws_port: u16,
    pub discovery_port: u16,
    pub output_dir: Option<String>,
    pub instance: String,
    pub virtual_mic: bool,
}

impl Default for ReceiverConfig {
    fn default() -> (config: ReceiverConfig)
        ensures
            config.listen@ == "0.0.0.0"@,
            config.ws_port == WS_PORT,
            config.discovery_port == DISCOVERY_PORT,
            config.output_dir matches Some(dir) && dir@ == "captures"@,
            config.instance@ == "M5Mic Receiver"@,
            !config.virtual_mic,
    {
        ReceiverConfig {
            listen: "0.0.0.0".to_owned(),
            ws_port: WS_PORT,
            discovery_port: DISCOVERY_PORT,
            output_dir: Some("captures".to_owned()),
            instance: "M5Mic Receiver".to_owned(),
            virtual_mic: false,
        }
    }
}

#[derive(Debug, Clone, PartialEq, Eq)]
pub enum ReceiverStatus {
    Starting,
    Waiting,
    Connected,
    Receiving { stream_id: u32 },
    Stopped,
    Error(String),
}

#[derive(Debug, Clone, Copy, PartialEq, Eq, Structural)]
pub enum LiveAudioStatus {
    Started { stream_id: u32 },
    Audio { stream_id: u32 },
    Ended { stream_id: u32 },
}

/// Whether a frame with `header` begins a stream for a listener to `active`.
pub open spec fn begins_stream(header: AudioFrameHeader, active: Option<u32>) -> bool {
    header.stream_start() || active != Some(header.stream_id)
}

fn stream_begins(header: &AudioFrameHeader, active: Option<u32>) -> (begins: bool)
    ensures
        begins == begins_stream(*header, active),
{
    header.is_stream_start() || match active {
        Some(stream_id) => stream_id != header.stream_id,
        None => true,
    }
}

/// The stream that a listener follows, and the state of its decoder.
pub ghost struct Hearing {
    pub active: Option<u32>,
    pub predictor: Predictor,
}

/// What a frame comes to.
pub ghost enum Heard {
    /// It is malformed.
    Refused(ProtocolError),
    /// Its stream is over.
    Ended,
    /// It holds no audio.
    Nothing,
    /// These PCM bytes are played.
    Played(Seq<u8>),
}

/// A listener that follows nothing.
pub open spec fn silence() -> Hearing {
    Hearing { active: None, predictor: initial_predictor() }
}

/// What a listener makes of a frame. The decoder starts over with each stream.
pub open spec fn hear(hearing: Hearing, frame: Seq<u8>) -> (Hearing, Heard) {
    match decode_frame(frame) {
        Err(error) => (hearing, Heard::Refused(error)),
        Ok(header) => {
            let active = Some(header.stream_id);
            let start = if begins_stream(header, hearing.active) {
                initial_predictor()
            } else {
                hearing.predictor
            };
            let payload = frame_payload(header, frame);
            if header.stream_end() {
                (Hearing { active, predictor: start }, Heard::Ended)
            } else if payload.len() == 0 {
                (Hearing { active, predictor: start }, Heard::Nothing)
            } else {
                (
                    Hearing {
                        active,
                        predictor: predictor_after(header.codec, payload, start),
                    },
                    Heard::Played(payload_pcm(header.codec, payload, start)),
                )
            }
        },
    }
}

/// What a frame of a live feed comes to.
#[derive(Debug)]
pub struct LiveFrame {
    pub status: LiveAudioStatus,
    /// The PCM bytes to play, if the frame holds any.
    pub pcm: Option<Vec<u8>>,
}

/// A feed to the virtual microphone without recording.
#[derive(Debug, Clone, Copy, PartialEq, Eq, Structural)]
pub struct LiveAudioOutput {
    adpcm_state: ImaAdpcmState,
    active_stream_id: Option<u32>,
}

impl LiveAudioOutput {
    pub closed spec fn wf(self) -> bool {
        self.adpcm_state.wf()
    }

    pub closed spec fn hearing(self) -> Hearing {
        Hearing { active: self.active_stream_id, predictor: self.adpcm_state@ }
    }

    pub fn new() -> (output: LiveAudioOutput)
        ensures
            output.wf(),
            output.hearing() == silence(),
    {
        LiveAudioOutput { adpcm_state: ImaAdpcmState::new(), active_stream_id: None }
    }

    /// Forgets the stream; the virtual microphone goes idle with it.
    pub fn set_idle(&mut self)
        ensures
            final(self).wf(),
            final(self).hearing() == silence(),
    {
        self.active_stream_id = None;
        self.adpcm_state.reset();
    }

    /// Takes in a frame. When it ends its stream, the feed goes idle.
    pub fn handle_frame(&mut self, frame: &[u8]) -> (result: Result<LiveFrame, ProtocolError>)
        requires
            old(self).wf(),
        ensures
            final(self).wf(),
            ({
                let (next, heard) = hear(old(self).hearing(), frame@);
                match decode_frame(frame@) {
                    Err(error) => result matches Err(e) && e == error && *final(self) == *old(self),
                    Ok(header) => {
                        let stream_id = header.stream_id;
                        &&& result matches Ok(live)
                        &&& live.status == if header.stream_end() {
                            LiveAudioStatus::Ended { stream_id }
                        } else if begins_stream(header, old(self).hearing().active) {
                            LiveAudioStatus::Started { stream_id }
                        } else {
                            LiveAudioStatus::Audio { stream_id }
                        }
                        &&& match heard {
                            Heard::Played(pcm) => live.pcm matches Some(played) && played@ == pcm,
                            _ => live.pcm is None,
                        }
                        &&& final(self).hearing() == if header.stream_end() {
                            silence()
                        } else {
                            next
                        }
                    },
                }
            }),
    {
        let header = match AudioFrameHeader::decode(frame) {
            Ok(header) => header,
            Err(error) => return Err(error),
        };
        let stream_id: u32 = header.stream_id;
        let begins = stream_begins(&header, self.active_stream_id);
        if begins {
            self.active_stream_id = Some(stream_id);
            self.adpcm_state.reset();
        }
        if header.is_stream_end() {
            self.set_idle();
            return Ok(LiveFrame { status: LiveAudioStatus::Ended { stream_id }, pcm: None });
        }
        let payload = match header.payload(frame) {
            Ok(payload) => payload,
            Err(error) => return Err(error),
        };
        let pcm = if payload.len() == 0 {
            None
        } else {
            Some(decode_audio_payload(&header, payload, &mut self.adpcm_state))
        };
        let status = if begins {
            LiveAudioStatus::Started { stream_id }
        } else {
            LiveAudioStatus::Audio { stream_id }
        };
        Ok(LiveFrame { status, pcm })
    }
}

/// A jump in the sequence numbers of a stream.
#[derive(Debug, Clone, Copy, PartialEq, Eq, Structural)]
pub struct FrameGap {
    pub expected: u32,
    pub received: u32,
    pub missed: u32,
}

/// What to do with the audio of a message.
#[derive(Debug)]
pub enum FrameAction {
    /// The device ended the stream: leave the connection.
    End,
    /// There is nothing to play.
    Skip,
    /// Play `pcm`; first open the stream's own recording if `create` says so, in place
    /// of any that is open, and add the samples to the recording if one is open.
    Play { pcm: Vec<u8>, create: bool },
}

/// What a binary message comes to.
#[derive(Debug)]
pub struct FrameStep {
    pub header: AudioFrameHeader,
    /// Whether the frame begins a stream, which is then announced.
    pub begins: bool,
    /// The other stream that was under way.
    pub replaced_stream: Option<u32>,
    pub gap: Option<FrameGap>,
    pub action: FrameAction,
}

/// The connection of one device.
#[derive(Debug)]
pub struct SocketSession {
    pub records: bool,
    /// The stream whose recording is open.
    pub recording_stream: Option<u32>,
    pub frames: u64,
    pub samples: u64,
    pub dropped_frames: u64,
    pub active_stream_id: Option<u32>,
    pub expected_sequence: Option<u32>,
    pub adpcm_state: ImaAdpcmState,
}

pub open spec fn next_sequence(sequence: u32) -> u32 {
    if sequence == u32::MAX {
        0
    } else {
        (sequence + 1) as u32
    }
}

/// The gap that a frame of number `received` leaves where `expected` was due. A
/// number that lies behind counts as a gap with nothing missed.
pub open spec fn gap_between(expected: Option<u32>, received: u32) -> Option<FrameGap> {
    match expected {
        Some(expected) => if received != expected {
            Some(
                FrameGap {
                    expected,
                    received,
                    missed: if received > expected {
                        (received - expected) as u32
                    } else {
                        0
                    },
                },
            )
        } else {
            None
        },
        None => None,
    }
}

/// The gap that a frame leaves in its stream: none where it begins one.
pub open spec fn frame_gap(
    active: Option<u32>,
    expected: Option<u32>,
    header: AudioFrameHeader,
) -> Option<FrameGap> {
    gap_between(
        if begins_stream(header, active) {
            None
        } else {
            expected
        },
        header.sequence,
    )
}

pub open spec fn missed_frames(gap: Option<FrameGap>) -> int {
    match gap {
        Some(gap) => gap.missed as int,
        None => 0,
    }
}

impl SocketSession {
    pub open spec fn hearing(self) -> Hearing {
        Hearing { active: self.active_stream_id, predictor: self.adpcm_state@ }
    }

    pub open spec fn wf(self) -> bool {
        &&& self.adpcm_state.wf()
        &&& self.recording_stream is Some ==> self.records
    }

    /// Whether the counters can take in another frame.
    pub open spec fn has_room(self) -> bool {
        &&& self.frames < u64::MAX
        &&& self.samples <= u64::MAX - 0x1_0000_0000
        &&& self.dropped_frames <= u64::MAX - 0x1_0000_0000
    }

    pub fn new(records: bool) -> (session: SocketSession)
        ensures
            session.wf(),
            session.has_room(),
            session.records == records,
            session.recording_stream is None,
            session.frames == 0,
            session.samples == 0,
            session.dropped_frames == 0,
            session.active_stream_id is None,
            session.expected_sequence is None,
            session.adpcm_state@ == initial_predictor(),
    {
        SocketSession {
            records,
            recording_stream: None,
            frames: 0,
            samples: 0,
            dropped_frames: 0,
            active_stream_id: None,
            expected_sequence: None,
            adpcm_state: ImaAdpcmState::new(),
        }
    }

    pub fn room_left(&self) -> (room: bool)
        ensures
            room == self.has_room(),
    {
        self.frames < u64::MAX && self.samples <= u64::MAX - 0x1_0000_0000 && self.dropped_frames
            <= u64::MAX - 0x1_0000_0000
    }

    /// Takes in a binary message. A malformed one is refused and changes nothing.
    pub fn on_binary(&mut self, bytes: &[u8]) -> (result: Result<FrameStep, ProtocolError>)
        requires
            old(self).wf(),
            old(self).has_room(),
        ensures
            final(self).wf(),
            final(self).records == old(self).records,
            final(self).recording_stream == old(self).recording_stream,
            final(self).frames == old(self).frames,
            final(self).samples == old(self).samples,
            ({
                let (next, heard) = hear(old(self).hearing(), bytes@);
                match decode_frame(bytes@) {
                    Err(error) => result matches Err(e) && e == error && *final(self) == *old(self),
                    Ok(header) => {
                        let begins = begins_stream(header, old(self).active_stream_id);
                        let gap = frame_gap(
                            old(self).active_stream_id,
                            old(self).expected_sequence,
                            header,
                        );
                        &&& result matches Ok(step)
                        &&& step.header == header
                        &&& step.begins == begins
                        &&& step.replaced_stream == match old(self).active_stream_id {
                            Some(previous) => if previous != header.stream_id {
                                Some(previous)
                            } else {
                                None
                            },
                            None => None,
                        }
                        &&& step.gap == gap
                        &&& match heard {
                            Heard::Ended => step.action is End,
                            Heard::Nothing => step.action is Skip,
                            Heard::Played(heard_pcm) => {
                                &&& step.action matches FrameAction::Play { pcm, create }
                                &&& pcm@ == heard_pcm
                                &&& create == (old(self).records && old(self).recording_stream
                                    != Some(header.stream_id))
                            },
                            Heard::Refused(_) => false,
                        }
                        &&& final(self).hearing() == next
                        &&& final(self).expected_sequence == Some(next_sequence(header.sequence))
                        &&& final(self).dropped_frames == old(self).dropped_frames + missed_frames(
                            gap,
                        )
                    },
                }
            }),
    {
        let header = match AudioFrameHeader::decode(bytes) {
            Ok(header) => header,
            Err(error) => return Err(error),
        };
        let begins = stream_begins(&header, self.active_stream_id);
        let replaced_stream = match self.active_stream_id {
            Some(previous) => if previous != header.stream_id {
                Some(previous)
            } else {
                None
            },
            None => None,
        };
        if begins {
            self.active_stream_id = Some(header.stream_id);
            self.expected_sequence = None;
            self.adpcm_state.reset();
        }
        let mut gap: Option<FrameGap> = None;
        if let Some(expected) = self.expected_sequence {
            if header.sequence != expected {
                let missed: u32 = if header.sequence > expected {
                    header.sequence - expected
                } else {
                    0
                };
                self.dropped_frames = self.dropped_frames + missed as u64;
                gap = Some(FrameGap { expected, received: header.sequence, missed });
            }
        }
        self.expected_sequence = Some(
            if header.sequence == u32::MAX {
                0
            } else {
                header.sequence + 1
            },
        );
        if header.is_stream_end() {
            return Ok(
                FrameStep { header, begins, replaced_stream, gap, action: FrameAction::End },
            );
        }
        let payload = match header.payload(bytes) {
            Ok(payload) => payload,
            Err(error) => return Err(error),
        };
        if payload.len() == 0 {
            return Ok(
                FrameStep { header, begins, replaced_stream, gap, action: FrameAction::Skip },
            );
        }
        let pcm = decode_audio_payload(&header, payload, &mut self.adpcm_state);
        let recording_this: bool = match self.recording_stream {
            Some(stream_id) => stream_id == header.stream_id,
            None => false,
        };
        let create: bool = self.records && !recording_this;
        Ok(
            FrameStep {
                header,
                begins,
                replaced_stream,
                gap,
                action: FrameAction::Play { pcm, create },
            },
        )
    }

    /// Notes that the recording of a stream has been opened, and any other closed.
    pub fn recording_started(&mut self, stream_id: u32)
        requires
            old(self).wf(),
            old(self).records,
        ensures
            final(self).wf(),
            *final(self) == (SocketSession { recording_stream: Some(stream_id), ..*old(self) }),
    {
        self.recording_stream = Some(stream_id);
    }

    /// Notes that a frame of `pcm_len` bytes has been played and, if a recording
    /// is open, added to it.
    pub fn frame_played(&mut self, pcm_len: usize)
        requires
            old(self).wf(),
            old(self).frames < u64::MAX,
            old(self).samples + pcm_len / 2 <= u64::MAX,
        ensures
            final(self).wf(),
            *final(self) == (SocketSession {
                frames: (old(self).frames + 1) as u64,
                samples: (old(self).samples + pcm_len as int / 2) as u64,
                ..*old(self)
            }),
    {
        self.frames = self.frames + 1;
        self.samples = self.samples + (pcm_len / 2) as u64;
    }
}

/// Frames of one stream that arrive in order, whatever they hold, leave no gap, so
/// that none counts as dropped; neither does the first frame of a stream.
pub proof fn law_in_order_frames_are_not_dropped(
    header: AudioFrameHeader,
    active: Option<u32>,
    expected: Option<u32>,
)
    requires
        begins_stream(header, active) || expected == Some(header.sequence),
    ensures
        frame_gap(active, expected, header) is None,
{
}

/// How the recording of a stream is opened.
#[derive(Debug, Clone, Copy, PartialEq, Eq, Structural)]
pub enum Opening {
    /// As a new file.
    Create,
    /// At the end of the file that the connection has made for the stream before.
    Append,
}

/// The streams that a connection has made a recording of.
#[derive(Debug)]
pub struct Recordings {
    streams: Vec<u32>,
}

impl View for Recordings {
    type V = Set<u32>;

    closed spec fn view(&self) -> Set<u32> {
        self.streams@.to_set()
    }
}

/// How the recording of `stream_id` is opened after those of `made`.
pub open spec fn opening_of(made: Set<u32>, stream_id: u32) -> Opening {
    if made.contains(stream_id) {
        Opening::Append
    } else {
        Opening::Create
    }
}

impl Recordings {
    pub fn new() -> (recordings: Recordings)
        ensures
            recordings@ == Set::<u32>::empty(),
    {
        let recordings = Recordings { streams: Vec::new() };
        assert(recordings@ =~= Set::<u32>::empty());
        recordings
    }

    /// Says how the recording of a stream is opened, and notes that it has been.
    pub fn open(&mut self, stream_id: u32) -> (opening: Opening)
        ensures
            opening == opening_of(old(self)@, stream_id),
            final(self)@ == old(self)@.insert(stream_id),
    {
        let mut i: usize = 0;
        while i < self.streams.len()
            invariant
                i <= self.streams@.len(),
                self.streams@ == old(self).streams@,
                forall|k: int| 0 <= k < i ==> self.streams@[k] != stream_id,
            decreases self.streams@.len() - i,
        {
            if self.streams[i] == stream_id {
                assert(self.streams@.contains(stream_id));
                assert(self@ =~= old(self)@.insert(stream_id));
                return Opening::Append;
            }
            i += 1;
        }
        assert(!self.streams@.contains(stream_id));
        self.streams.push(stream_id);
        assert(self@ =~= old(self)@.insert(stream_id)) by {
            let before = old(self).streams@;
            assert forall|id: u32| #[trigger] self@.contains(id) == before.to_set().insert(
                stream_id,
            ).contains(id) by {
                if before.contains(id) {
                    let k = choose|k: int| 0 <= k < before.len() && before[k] == id;
                    assert(self.streams@[k] == id);
                }
                assert(self.streams@[before.len() as int] == stream_id);
            }
        }
        Opening::Create
    }
}

/// Samples that are played for a stream.
pub ghost struct Played {
    pub stream_id: u32,
    pub pcm: Seq<u8>,
}

/// What a connection that records has open, and what its recordings hold.
pub ghost struct Shelf {
    pub open: Option<u32>,
    pub made: Set<u32>,
    pub files: Map<u32, Seq<u8>>,
}

pub open spec fn empty_shelf() -> Shelf {
    Shelf { open: None, made: Set::empty(), files: Map::empty() }
}

/// `shelf` once its stream's recording is the one that is open.
pub open spec fn opened_for(shelf: Shelf, stream_id: u32) -> Shelf {
    if shelf.open == Some(stream_id) {
        shelf
    } else {
        Shelf {
            open: Some(stream_id),
            made: shelf.made.insert(stream_id),
            files: match opening_of(shelf.made, stream_id) {
                Opening::Create => shelf.files.insert(stream_id, Seq::empty()),
                Opening::Append => shelf.files,
            },
        }
    }
}

/// `shelf` once the samples have been added to the recording that is open.
pub open spec fn recorded(shelf: Shelf, played: Played) -> Shelf {
    let shelf = opened_for(shelf, played.stream_id);
    let open = shelf.open->0;
    Shelf { files: shelf.files.insert(open, shelf.files[open] + played.pcm), ..shelf }
}

pub open spec fn recorded_all(played: Seq<Played>) -> Shelf
    decreases played.len(),
{
    if played.len() == 0 {
        empty_shelf()
    } else {
        recorded(recorded_all(played.drop_last()), played.last())
    }
}

/// All the samples of one stream, in order.
pub open spec fn samples_of(played: Seq<Played>, stream_id: u32) -> Seq<u8>
    decreases played.len(),
{
    if played.len() == 0 {
        Seq::empty()
    } else if played.last().stream_id == stream_id {
        samples_of(played.drop_last(), stream_id) + played.last().pcm
    } else {
        samples_of(played.drop_last(), stream_id)
    }
}

/// Each stream has a recording of its own, and it holds all of the stream's samples
/// in order and no others, also where streams take turns.
pub proof fn law_each_stream_has_its_own_recording(played: Seq<Played>, stream_id: u32)
    ensures
        recorded_all(played).files.dom().contains(stream_id) <==> exists|i: int|
            0 <= i < played.len() && (#[trigger] played[i]).stream_id == stream_id,
        recorded_all(played).files.dom().contains(stream_id)
            ==> recorded_all(played).files[stream_id] == samples_of(played, stream_id),
    decreases played.len(),
{
    lemma_shelf(played);
    if played.len() > 0 {
        let before = played.drop_last();
        let last = played.last();
        law_each_stream_has_its_own_recording(before, stream_id);
        lemma_shelf(before);
        if exists|i: int| 0 <= i < before.len() && (#[trigger] before[i]).stream_id == stream_id {
            let i = choose|i: int|
                0 <= i < before.len() && (#[trigger] before[i]).stream_id == stream_id;
            assert(played[i].stream_id == stream_id);
        } else {
            lemma_no_samples(before, stream_id);
        }
        if exists|i: int| 0 <= i < played.len() && (#[trigger] played[i]).stream_id == stream_id {
            let i = choose|i: int|
                0 <= i < played.len() && (#[trigger] played[i]).stream_id == stream_id;
            if i < before.len() {
                assert(before[i].stream_id == stream_id);
            }
        }
        if last.stream_id == stream_id {
            assert(played[played.len() - 1].stream_id == stream_id);
            assert(Seq::<u8>::empty() + last.pcm =~= last.pcm);
        }
    }
}

/// The recordings on the shelf are those that were made, and the open one is among
/// them.
proof fn lemma_shelf(played: Seq<Played>)
    ensures
        recorded_all(played).made == recorded_all(played).files.dom(),
        recorded_all(played).open matches Some(open) ==> recorded_all(played).made.contains(open),
    decreases played.len(),
{
    if played.len() == 0 {
        assert(empty_shelf().made =~= empty_shelf().files.dom());
    } else {
        lemma_shelf(played.drop_last());
        let after = recorded_all(played);
        assert(after.made =~= after.files.dom());
    }
}

proof fn lemma_no_samples(played: Seq<Played>, stream_id: u32)
    requires
        forall|i: int| 0 <= i < played.len() ==> (#[trigger] played[i]).stream_id != stream_id,
    ensures
        samples_of(played, stream_id) == Seq::<u8>::empty(),
    decreases played.len(),
{
    if played.len() > 0 {
        assert(played[played.len() - 1].stream_id != stream_id);
        assert forall|i: int| 0 <= i < played.drop_last().len() implies (
        #[trigger] played.drop_last()[i]).stream_id != stream_id by {
            assert(played[i].stream_id != stream_id);
        }
        lemma_no_samples(played.drop_last(), stream_id);
    }
}

/// The name of a recording.
pub open spec fn recording_name(started_unix_secs: u64, stream_id: u32) -> Seq<char> {
    "m5mic-"@ + decimal(started_unix_secs as nat) + "-"@ + hex(stream_id as nat, 8) + ".wav"@
}

pub fn recording_file_name(started_unix_secs: u64, stream_id: u32) -> (name: String)
    ensures
        name@ == recording_name(started_unix_secs, stream_id),
{
    let mut name = "m5mic-".to_owned();
    push_decimal(&mut name, started_unix_secs);
    name.push_str("-");
    push_hex(&mut name, stream_id as u64, 8);
    name.push_str(".wav");
    name
}

/// The number that hexadecimal digits spell.
spec fn hex_value(s: Seq<char>) -> nat
    decreases s.len(),
{
    if s.len() == 0 {
        0
    } else {
        let c = s.last();
        (16 * hex_value(s.drop_last()) + if c <= '9' {
            c as int - '0' as int
        } else {
            c as int - 'a' as int + 10
        }) as nat
    }
}

spec fn pow16(n: nat) -> nat
    decreases n,
{
    if n == 0 {
        1
    } else {
        16 * pow16((n - 1) as nat)
    }
}

proof fn lemma_hex_round_trip(n: nat, width: nat)
    requires
        n < pow16(width),
    ensures
        hex(n, width).len() == width,
        hex_value(hex(n, width)) == n,
    decreases width,
{
    if width > 0 {
        lemma_hex_round_trip(n / 16, (width - 1) as nat);
        assert(hex(n, width).drop_last() =~= hex(n / 16, (width - 1) as nat));
        assert(hex(n, width).last() == hex_char((n % 16) as int));
    }
}

/// Recordings of different streams, or begun at different seconds, have different
/// names.
pub proof fn law_recordings_have_names_of_their_own(
    started_a: u64,
    stream_a: u32,
    started_b: u64,
    stream_b: u32,
)
    requires
        recording_name(started_a, stream_a) == recording_name(started_b, stream_b),
    ensures
        started_a == started_b,
        stream_a == stream_b,
{
    reveal_strlit("m5mic-");
    reveal_strlit("-");
    reveal_strlit(".wav");
    assert(pow16(8) == 0x1_0000_0000) by {
        reveal_with_fuel(pow16, 9);
    }
    lemma_hex_round_trip(stream_a as nat, 8);
    lemma_hex_round_trip(stream_b as nat, 8);
    law_decimal_round_trip(started_a as nat);
    law_decimal_round_trip(started_b as nat);
    let a = recording_name(started_a, stream_a);
    let b = recording_name(started_b, stream_b);
    let n = decimal(started_a as nat).len() as int;
    assert("m5mic-"@.len() == 6 && "-"@.len() == 1 && ".wav"@.len() == 4);
    assert(a.len() == 19 + n);
    assert(b.len() == 19 + decimal(started_b as nat).len());
    assert(a.subrange(6, 6 + n) =~= decimal(started_a as nat));
    assert(b.subrange(6, 6 + n) =~= decimal(started_b as nat));
    assert(a.subrange(7 + n, 15 + n) =~= hex(stream_a as nat, 8));
    assert(b.subrange(7 + n, 15 + n) =~= hex(stream_b as nat, 8));
}

/// How a recording came to be, as the log names it.
pub fn record_mode_name(header: &AudioFrameHeader) -> (name: &'static str)
    ensures
        name == if header.push_to_talk() {
            "push-to-talk"
        } else {
            "latched"
        },
{
    if header.is_push_to_talk() {
        "push-to-talk"
    } else {
        "latched"
    }
}

pub open spec fn is_ascii_alphanumeric(c: char) -> bool {
    'a' <= c <= 'z' || 'A' <= c <= 'Z' || '0' <= c <= '9'
}

/// The character of a host name that `c` turns into, if any.
pub open spec fn host_char(c: char) -> Option<char> {
    if is_ascii_alphanumeric(c) {
        Some(ascii_lower(c))
    } else if c == '-' || c == '_' || is_space(c) {
        Some('-')
    } else {
        None
    }
}

/// `s` with each character turned into one of a host name, and every run of
/// hyphens made a single one.
pub open spec fn hyphenated(s: Seq<char>) -> Seq<char>
    decreases s.len(),
{
    if s.len() == 0 {
        s
    } else {
        let before = hyphenated(s.drop_last());
        match host_char(s.last()) {
            None => before,
            Some(c) => if c == '-' && before.len() > 0 && before.last() == '-' {
                before
            } else {
                before.push(c)
            },
        }
    }
}

/// `s` without a hyphen at either end.
pub open spec fn without_outer_hyphens(s: Seq<char>) -> Seq<char> {
    let front = if s.len() > 0 && s[0] == '-' {
        s.drop_first()
    } else {
        s
    };
    if front.len() > 0 && front.last() == '-' {
        front.drop_last()
    } else {
        front
    }
}

/// The host name made of `input`.
pub open spec fn host_name(input: Seq<char>) -> Seq<char> {
    without_outer_hyphens(hyphenated(input))
}

proof fn lemma_hyphenated(s: Seq<char>)
    ensures
        forall|i: int|
            0 <= i < hyphenated(s).len() ==> 'a' <= #[trigger] hyphenated(s)[i] <= 'z' || '0'
                <= hyphenated(s)[i] <= '9' || hyphenated(s)[i] == '-',
        forall|i: int|
            0 <= i < hyphenated(s).len() - 1 ==> !(#[trigger] hyphenated(s)[i] == '-'
                && hyphenated(s)[i + 1] == '-'),
    decreases s.len(),
{
    if s.len() > 0 {
        let before = hyphenated(s.drop_last());
        lemma_hyphenated(s.drop_last());
        assert forall|i: int| 0 <= i < hyphenated(s).len() implies 'a' <= #[trigger] hyphenated(
            s,
        )[i] <= 'z' || '0' <= hyphenated(s)[i] <= '9' || hyphenated(s)[i] == '-' by {
            if i < before.len() {
                assert(hyphenated(s)[i] == before[i]);
            }
        }
        assert forall|i: int| 0 <= i < hyphenated(s).len() - 1 implies !(#[trigger] hyphenated(
            s,
        )[i] == '-' && hyphenated(s)[i + 1] == '-') by {
            assert(hyphenated(s)[i] == before[i]);
            if i + 1 < before.len() {
                assert(hyphenated(s)[i + 1] == before[i + 1]);
            }
        }
    }
}

/// A host name consists of lower-case letters, digits and hyphens, has no two
/// hyphens in a row, and neither begins nor ends with one.
pub proof fn law_host_name_is_well_formed(input: Seq<char>)
    ensures
        forall|i: int|
            0 <= i < host_name(input).len() ==> 'a' <= #[trigger] host_name(input)[i] <= 'z' || '0'
                <= host_name(input)[i] <= '9' || host_name(input)[i] == '-',
        forall|i: int|
            0 <= i < host_name(input).len() - 1 ==> !(#[trigger] host_name(input)[i] == '-'
                && host_name(input)[i + 1] == '-'),
        host_name(input).len() > 0 ==> host_name(input)[0] != '-' && host_name(input).last() != '-',
{
    lemma_hyphenated(input);
    let s = hyphenated(input);
    let offset: int = if s.len() > 0 && s[0] == '-' {
        1
    } else {
        0
    };
    assert forall|i: int| 0 <= i < host_name(input).len() implies host_name(input)[i] == s[i
        + offset] by {}
    if host_name(input).len() > 0 {
        if offset == 1 {
            assert(!(s[0] == '-' && s[1] == '-'));
        }
        let last = host_name(input).len() - 1 + offset;
        assert(host_name(input).last() == s[last]);
        if last < s.len() - 1 {
            assert(!(s[last] == '-' && s[last + 1] == '-'));
        }
    }
}

fn to_host_char(c: char) -> (host: Option<char>)
    ensures
        host == host_char(c),
{
    if 'A' <= c && c <= 'Z' || 'a' <= c && c <= 'z' || '0' <= c && c <= '9' {
        Some(to_ascii_lower(c))
    } else if c == '-' || c == '_' || is_whitespace(c) {
        Some('-')
    } else {
        None
    }
}

pub fn sanitize_hostname(input: &str) -> (name: String)
    ensures
        name@ == host_name(input@),
{
    let chars = chars_of(input);
    let mut out: Vec<char> = Vec::new();
    let mut i: usize = 0;
    assert(chars@.take(0) =~= Seq::<char>::empty());
    while i < chars.len()
        invariant
            i <= chars@.len(),
            out@ == hyphenated(chars@.take(i as int)),
        decreases chars@.len() - i,
    {
        assert(chars@.take(i + 1).drop_last() =~= chars@.take(i as int));
        if let Some(c) = to_host_char(chars[i]) {
            if !(c == '-' && out.len() > 0 && out[out.len() - 1] == '-') {
                out.push(c);
            }
        }
        i += 1;
    }
    assert(chars@.take(i as int) =~= chars@);
    let start: usize = if out.len() > 0 && out[0] == '-' {
        1
    } else {
        0
    };
    let end: usize = if out.len() > start && out[out.len() - 1] == '-' {
        out.len() - 1
    } else {
        out.len()
    };
    let name = &out.as_slice()[start..end];
    assert(name@ =~= host_name(input@));
    string_of(name)
}

/// The name under which a receiver called `instance` is found on the local network.
pub fn local_host_name(instance: &str) -> (name: String)
    ensures
        name@ == host_name(instance@) + ".local."@,
{
    let mut name = sanitize_hostname(instance);
    name.push_str(".local.");
    name
}

/// The first frame of a stream is heard in the same way whatever was followed before.
pub proof fn law_a_new_stream_is_heard_afresh(one: Hearing, other: Hearing, frame: Seq<u8>)
    requires
        decode_frame(frame) is Ok,
        decode_frame(frame)->Ok_0.stream_start() || (one.active != Some(
            decode_frame(frame)->Ok_0.stream_id,
        ) && other.active != Some(decode_frame(frame)->Ok_0.stream_id)),
    ensures
        hear(one, frame) == hear(other, frame),
        hear(one, frame) == hear(silence(), frame),
        hear(one, frame).0.active == Some(decode_frame(frame)->Ok_0.stream_id),
{
}

/// A frame with uncompressed samples is heard as they are, unless it ends its stream; a
/// frame that ends one is heard as its end whatever it holds; a malformed one changes
/// nothing.
pub proof fn law_frames_are_heard_for_what_they_hold(hearing: Hearing, frame: Seq<u8>)
    ensures
        match decode_frame(frame) {
            Err(error) => hear(hearing, frame) == (hearing, Heard::Refused(error)),
            Ok(header) => {
                let payload = frame.subrange(32, 32 + header.payload_len);
                &&& hear(hearing, frame).1 is Ended <==> header.flags & 2 != 0
                &&& header.flags & 2 == 0 && header.payload_len == 0 ==> hear(hearing, frame).1
                    == Heard::Nothing
                &&& header.flags & 2 == 0 && header.payload_len > 0 && header.codec
                    == Codec::PcmS16Le ==> hear(hearing, frame).1 == Heard::Played(payload)
                &&& header.flags & 2 == 0 && header.payload_len > 0 && header.codec
                    == Codec::ImaAdpcm4 ==> (hear(hearing, frame).1 matches Heard::Played(pcm)
                    && pcm.len() == 4 * header.payload_len)
            },
        },
{
}

/// Of a stream that is followed, a frame that comes early leaves a gap of the frames in
/// between, one that comes late or again leaves one of none, and the number behind the
/// last is zero.
pub proof fn law_a_gap_is_what_is_missing(expected: u32, received: u32)
    ensures
        match gap_between(Some(expected), received) {
            None => received == expected,
            Some(gap) => {
                &&& received != expected
                &&& gap.expected == expected
                &&& gap.received == received
                &&& received > expected ==> expected + gap.missed == received
                &&& received < expected ==> gap.missed == 0
            },
        },
        gap_between(None, received) is None,
        next_sequence(received) == (received + 1) % 0x1_0000_0000,
{
}

/// A name that is fit for a host is kept as it is.
pub proof fn law_a_fit_host_name_is_kept(name: Seq<char>)
    requires
        forall|i: int|
            0 <= i < name.len() ==> 'a' <= #[trigger] name[i] <= 'z' || '0' <= name[i] <= '9'
                || name[i] == '-',
        forall|i: int| 0 <= i < name.len() - 1 ==> !(#[trigger] name[i] == '-' && name[i + 1] == '-'),
        name.len() > 0 ==> name[0] != '-' && name[name.len() - 1] != '-',
    ensures
        host_name(name) == name,
{
    lemma_hyphenated_keeps(name);
}

proof fn lemma_hyphenated_keeps(name: Seq<char>)
    requires
        forall|i: int|
            0 <= i < name.len() ==> 'a' <= #[trigger] name[i] <= 'z' || '0' <= name[i] <= '9'
                || name[i] == '-',
        forall|i: int| 0 <= i < name.len() - 1 ==> !(#[trigger] name[i] == '-' && name[i + 1] == '-'),
    ensures
        hyphenated(name) == name,
    decreases name.len(),
{
    if name.len() > 0 {
        let before = name.drop_last();
        assert forall|i: int| 0 <= i < before.len() implies 'a' <= #[trigger] before[i] <= 'z'
            || '0' <= before[i] <= '9' || before[i] == '-' by {
            assert(before[i] == name[i]);
        }
        assert forall|i: int| 0 <= i < before.len() - 1 implies !(#[trigger] before[i] == '-'
            && before[i + 1] == '-') by {
            assert(before[i] == name[i]);
        }
        lemma_hyphenated_keeps(before);
        let last = name.len() - 1;
        let c = name[last];
        assert('a' <= c <= 'z' || '0' <= c <= '9' || c == '-');
        if before.len() > 0 {
            assert(name[last - 1] == before.last());
        }
        assert(hyphenated(name) =~= name);
    }
}

proof fn lemma_hyphenated_alike(before: Seq<char>, a: char, b: char, after: Seq<char>)
    requires
        host_char(a) == host_char(b),
    ensures
        hyphenated(before + seq![a] + after) == hyphenated(before + seq![b] + after),
    decreases after.len(),
{
    let one = before + seq![a] + after;
    let other = before + seq![b] + after;
    if after.len() == 0 {
        assert(one.drop_last() =~= before);
        assert(other.drop_last() =~= before);
        assert(one.last() == a && other.last() == b);
    } else {
        lemma_hyphenated_alike(before, a, b, after.drop_last());
        assert(one.drop_last() =~= before + seq![a] + after.drop_last());
        assert(other.drop_last() =~= before + seq![b] + after.drop_last());
        assert(one.last() == other.last());
    }
}

proof fn lemma_hyphenated_without(before: Seq<char>, c: char, after: Seq<char>)
    requires
        host_char(c) is None,
    ensures
        hyphenated(before + seq![c] + after) == hyphenated(before + after),
    decreases after.len(),
{
    let one = before + seq![c] + after;
    let other = before + after;
    if after.len() == 0 {
        assert(one.drop_last() =~= before);
        assert(other =~= before);
        assert(one.last() == c);
    } else {
        lemma_hyphenated_without(before, c, after.drop_last());
        assert(one.drop_last() =~= before + seq![c] + after.drop_last());
        assert(other.drop_last() =~= before + after.drop_last());
        assert(one.last() == other.last());
    }
}

/// In a host name, an upper-case letter counts as its lower-case one, a blank and an
/// underscore count as hyphens, and any other printable ASCII character is as if it were
/// not there.
pub proof fn law_other_characters_are_replaced(before: Seq<char>, c: char, after: Seq<char>)
    ensures
        c == ' ' || c == '_' ==> host_name(before + seq![c] + after) == host_name(
            before + seq!['-'] + after,
        ),
        forall|lower: char|
            'A' <= c <= 'Z' && lower as int == c as int + 32 ==> host_name(
                before + seq![c] + after,
            ) == #[trigger] host_name(before + seq![lower] + after),
        '!' <= c <= '~' && !('a' <= c <= 'z') && !('A' <= c <= 'Z') && !('0' <= c <= '9') && c
            != '-' && c != '_' ==> host_name(before + seq![c] + after) == host_name(before + after),
{
    if c == ' ' || c == '_' {
        lemma_hyphenated_alike(before, c, '-', after);
    }
    assert forall|lower: char|
        'A' <= c <= 'Z' && lower as int == c as int + 32 implies host_name(
        before + seq![c] + after,
    ) == #[trigger] host_name(before + seq![lower] + after) by {
        lemma_hyphenated_alike(before, c, lower, after);
    }
    if '!' <= c <= '~' && !('a' <= c <= 'z') && !('A' <= c <= 'Z') && !('0' <= c <= '9') && c != '-'
        && c != '_' {
        lemma_hyphenated_without(before, c, after);
    }
}

} // verus!
