//! Audio frames: a fixed header followed by the coded samples.

use vstd::prelude::*;

use crate::bytes::{
    bytes_equal, copy_into, le_bytes, le_value, lemma_le_bytes_len, lemma_le_round_trip,
    lemma_le_value_round_trip, lemma_pow256_values, push_le, read_le,
};

verus! {

pub const MAGIC: [u8; 4] = [0x4d, 0x35, 0x41, 0x55];

pub const VERSION: u8 = 1;

pub const HEADER_LEN: usize = 32;

pub const FLAG_STREAM_START: u16 = 0x0001;

pub const FLAG_STREAM_END: u16 = 0x0002;

pub const FLAG_PUSH_TO_TALK: u16 = 0x0004;

/// How the samples of a frame are coded.
#[derive(Debug, Clone, Copy, PartialEq, Eq, Structural)]
pub enum Codec {
    PcmS16Le,
    ImaAdpcm4,
}

impl Codec {
    /// The number that stands for the codec in a frame header.
    pub open spec fn code(self) -> u8 {
        match self {
            Codec::PcmS16Le => 1,
            Codec::ImaAdpcm4 => 2,
        }
    }

    /// The codec that has the number `value`.
    pub open spec fn of_code(value: u8) -> Option<Codec> {
        if value == 1 {
            Some(Codec::PcmS16Le)
        } else if value == 2 {
            Some(Codec::ImaAdpcm4)
        } else {
            None
        }
    }

    pub fn from_u8(value: u8) -> (codec: Option<Codec>)
        ensures
            codec == Codec::of_code(value),
    {
        match value {
            1 => Some(Codec::PcmS16Le),
            2 => Some(Codec::ImaAdpcm4),
            _ => None,
        }
    }

    pub fn to_u8(self) -> (value: u8)
        ensures
            value == self.code(),
    {
        match self {
            Codec::PcmS16Le => 1,
            Codec::ImaAdpcm4 => 2,
        }
    }

    pub fn as_str(self) -> (name: &'static str)
        ensures
            name == match self {
                Codec::PcmS16Le => "pcm_s16le",
                Codec::ImaAdpcm4 => "ima_adpcm4",
            },
    {
        match self {
            Codec::PcmS16Le => "pcm_s16le",
            Codec::ImaAdpcm4 => "ima_adpcm4",
        }
    }
}

#[derive(Debug, Clone, Copy, PartialEq, Eq, Structural)]
pub enum ProtocolError {
    BufferTooSmall,
    BadMagic,
    BadVersion,
    BadHeaderLength,
    BadCodec,
    PayloadTooLarge,
    FrameTooShort,
    InvalidPcmLength,
    OutputTooSmall,
    BadAdpcmSampleCount,
    BadFragmentIndex,
}

#[derive(Debug, Clone, Copy, PartialEq, Eq, Structural)]
pub struct AudioFrameHeader {
    pub codec: Codec,
    pub channels: u8,
    pub sample_rate: u32,
    pub sequence: u32,
    pub timestamp_us: u64,
    pub payload_len: u16,
    pub flags: u16,
    pub stream_id: u32,
}

/// The bytes of a header.
pub open spec fn header_bytes(header: AudioFrameHeader) -> Seq<u8> {
    MAGIC@ + seq![VERSION, HEADER_LEN as u8, header.codec.code(), header.channels]
        + le_bytes(header.sample_rate as nat, 4) + le_bytes(header.sequence as nat, 4)
        + le_bytes(header.timestamp_us as nat, 8) + le_bytes(header.payload_len as nat, 2)
        + le_bytes(header.flags as nat, 2) + le_bytes(header.stream_id as nat, 4)
}

/// The number in the bytes of `s` from `from` up to `to`.
pub open spec fn field(s: Seq<u8>, from: int, to: int) -> nat {
    le_value(s.subrange(from, to))
}

/// What a frame's header says, or what is wrong with the frame.
pub open spec fn decode_frame(frame: Seq<u8>) -> Result<AudioFrameHeader, ProtocolError> {
    if frame.len() < HEADER_LEN {
        Err(ProtocolError::FrameTooShort)
    } else if frame.take(4) != MAGIC@ {
        Err(ProtocolError::BadMagic)
    } else if frame[4] != VERSION {
        Err(ProtocolError::BadVersion)
    } else if frame[5] != HEADER_LEN {
        Err(ProtocolError::BadHeaderLength)
    } else {
        match Codec::of_code(frame[6]) {
            None => Err(ProtocolError::BadCodec),
            Some(codec) => if frame.len() < HEADER_LEN + field(frame, 24, 26) {
                Err(ProtocolError::FrameTooShort)
            } else {
                Ok(
                    AudioFrameHeader {
                        codec,
                        channels: frame[7],
                        sample_rate: field(frame, 8, 12) as u32,
                        sequence: field(frame, 12, 16) as u32,
                        timestamp_us: field(frame, 16, 24) as u64,
                        payload_len: field(frame, 24, 26) as u16,
                        flags: field(frame, 26, 28) as u16,
                        stream_id: field(frame, 28, 32) as u32,
                    },
                )
            },
        }
    }
}

/// The payload of a frame whose header is `header`.
pub open spec fn frame_payload(header: AudioFrameHeader, frame: Seq<u8>) -> Seq<u8> {
    frame.subrange(HEADER_LEN as int, HEADER_LEN + header.payload_len)
}

proof fn lemma_header_bytes_len(header: AudioFrameHeader)
    ensures
        header_bytes(header).len() == HEADER_LEN,
{
    lemma_le_bytes_len(header.sample_rate as nat, 4);
    lemma_le_bytes_len(header.sequence as nat, 4);
    lemma_le_bytes_len(header.timestamp_us as nat, 8);
    lemma_le_bytes_len(header.payload_len as nat, 2);
    lemma_le_bytes_len(header.flags as nat, 2);
    lemma_le_bytes_len(header.stream_id as nat, 4);
}

/// A header written in front of at least as many bytes as it announces is read
/// back unchanged.
pub proof fn law_header_round_trip(header: AudioFrameHeader, rest: Seq<u8>)
    requires
        rest.len() >= header.payload_len,
    ensures
        decode_frame(header_bytes(header) + rest) == Ok::<AudioFrameHeader, ProtocolError>(header),
        frame_payload(header, header_bytes(header) + rest) == rest.take(
            header.payload_len as int,
        ),
{
    let frame = header_bytes(header) + rest;
    lemma_pow256_values();
    lemma_header_bytes_len(header);
    lemma_le_round_trip(header.sample_rate as nat, 4);
    lemma_le_round_trip(header.sequence as nat, 4);
    lemma_le_round_trip(header.timestamp_us as nat, 8);
    lemma_le_round_trip(header.payload_len as nat, 2);
    lemma_le_round_trip(header.flags as nat, 2);
    lemma_le_round_trip(header.stream_id as nat, 4);
    assert(frame.take(4) =~= MAGIC@);
    assert(frame.subrange(8, 12) =~= le_bytes(header.sample_rate as nat, 4));
    assert(frame.subrange(12, 16) =~= le_bytes(header.sequence as nat, 4));
    assert(frame.subrange(16, 24) =~= le_bytes(header.timestamp_us as nat, 8));
    assert(frame.subrange(24, 26) =~= le_bytes(header.payload_len as nat, 2));
    assert(frame.subrange(26, 28) =~= le_bytes(header.flags as nat, 2));
    assert(frame.subrange(28, 32) =~= le_bytes(header.stream_id as nat, 4));
    assert(frame_payload(header, frame) =~= rest.take(header.payload_len as int));
}

/// A frame that decodes begins with the bytes of the header that was decoded:
/// no two headers have the same bytes, and no part of them is ignored.
pub proof fn law_decoded_header_is_the_frame_prefix(frame: Seq<u8>)
    requires
        decode_frame(frame) is Ok,
    ensures
        frame.take(HEADER_LEN as int) == header_bytes(decode_frame(frame)->Ok_0),
{
    let header = decode_frame(frame)->Ok_0;
    lemma_pow256_values();
    lemma_header_bytes_len(header);
    lemma_le_value_round_trip(frame.subrange(8, 12));
    lemma_le_value_round_trip(frame.subrange(12, 16));
    lemma_le_value_round_trip(frame.subrange(16, 24));
    lemma_le_value_round_trip(frame.subrange(24, 26));
    lemma_le_value_round_trip(frame.subrange(26, 28));
    lemma_le_value_round_trip(frame.subrange(28, 32));
    assert(frame.take(HEADER_LEN as int) =~= frame.take(4) + seq![
        frame[4],
        frame[5],
        frame[6],
        frame[7],
    ] + frame.subrange(8, 12) + frame.subrange(12, 16) + frame.subrange(16, 24) + frame.subrange(
        24,
        26,
    ) + frame.subrange(26, 28) + frame.subrange(28, 32));
}

impl AudioFrameHeader {
    pub fn new(
        codec: Codec,
        channels: u8,
        sample_rate: u32,
        sequence: u32,
        timestamp_us: u64,
        payload_len: u16,
        stream_id: u32,
        flags: u16,
    ) -> (header: AudioFrameHeader)
        ensures
            header == (AudioFrameHeader {
                codec,
                channels,
                sample_rate,
                sequence,
                timestamp_us,
                payload_len,
                flags,
                stream_id,
            }),
    {
        AudioFrameHeader {
            codec,
            channels,
            sample_rate,
            sequence,
            timestamp_us,
            payload_len,
            flags,
            stream_id,
        }
    }

    pub open spec fn stream_start(self) -> bool {
        self.flags & FLAG_STREAM_START != 0
    }

    pub open spec fn stream_end(self) -> bool {
        self.flags & FLAG_STREAM_END != 0
    }

    pub open spec fn push_to_talk(self) -> bool {
        self.flags & FLAG_PUSH_TO_TALK != 0
    }

    pub fn is_stream_start(&self) -> (set: bool)
        ensures
            set == self.stream_start(),
    {
        self.flags & FLAG_STREAM_START != 0
    }

    pub fn is_stream_end(&self) -> (set: bool)
        ensures
            set == self.stream_end(),
    {
        self.flags & FLAG_STREAM_END != 0
    }

    pub fn is_push_to_talk(&self) -> (set: bool)
        ensures
            set == self.push_to_talk(),
    {
        self.flags & FLAG_PUSH_TO_TALK != 0
    }

    /// The bytes of the header, on their own.
    pub fn to_bytes(&self) -> (bytes: Vec<u8>)
        ensures
            bytes@ == header_bytes(*self),
    {
        let mut bytes: Vec<u8> = Vec::new();
        bytes.push(MAGIC[0]);
        bytes.push(MAGIC[1]);
        bytes.push(MAGIC[2]);
        bytes.push(MAGIC[3]);
        bytes.push(VERSION);
        bytes.push(HEADER_LEN as u8);
        bytes.push(self.codec.to_u8());
        bytes.push(self.channels);
        assert(bytes@ =~= MAGIC@ + seq![
            VERSION,
            HEADER_LEN as u8,
            self.codec.code(),
            self.channels,
        ]);
        push_le(&mut bytes, self.sample_rate as u64, 4);
        push_le(&mut bytes, self.sequence as u64, 4);
        push_le(&mut bytes, self.timestamp_us, 8);
        push_le(&mut bytes, self.payload_len as u64, 2);
        push_le(&mut bytes, self.flags as u64, 2);
        push_le(&mut bytes, self.stream_id as u64, 4);
        bytes
    }

    /// Writes the header over the first bytes of `out` and leaves the rest as it is.
    pub fn encode_into(&self, out: &mut [u8]) -> (result: Result<(), ProtocolError>)
        ensures
            match result {
                Ok(()) => old(out)@.len() >= HEADER_LEN && final(out)@ == header_bytes(*self)
                    + old(out)@.skip(HEADER_LEN as int),
                Err(error) => old(out)@.len() < HEADER_LEN && error == ProtocolError::BufferTooSmall
                    && final(out)@ == old(out)@,
            },
    {
        if out.len() < HEADER_LEN {
            return Err(ProtocolError::BufferTooSmall);
        }
        let bytes = self.to_bytes();
        proof {
            lemma_header_bytes_len(*self);
        }
        let ghost before = out@;
        copy_into(out, 0, bytes.as_slice());
        assert(out@ =~= header_bytes(*self) + before.skip(HEADER_LEN as int));
        Ok(())
    }

    pub fn decode(frame: &[u8]) -> (result: Result<AudioFrameHeader, ProtocolError>)
        ensures
            result == decode_frame(frame@),
    {
        if frame.len() < HEADER_LEN {
            return Err(ProtocolError::FrameTooShort);
        }
        assert(frame@.subrange(0, 4) =~= frame@.take(4));
        if !bytes_equal(&frame[0..4], &MAGIC) {
            return Err(ProtocolError::BadMagic);
        }
        if frame[4] != VERSION {
            return Err(ProtocolError::BadVersion);
        }
        if frame[5] as usize != HEADER_LEN {
            return Err(ProtocolError::BadHeaderLength);
        }
        let codec = match Codec::from_u8(frame[6]) {
            Some(codec) => codec,
            None => return Err(ProtocolError::BadCodec),
        };
        proof {
            lemma_pow256_values();
            lemma_le_value_round_trip(frame@.subrange(8, 12));
            lemma_le_value_round_trip(frame@.subrange(12, 16));
            lemma_le_value_round_trip(frame@.subrange(24, 26));
            lemma_le_value_round_trip(frame@.subrange(26, 28));
            lemma_le_value_round_trip(frame@.subrange(28, 32));
        }
        let payload_len = read_le(frame, 24, 2) as u16;
        if frame.len() - HEADER_LEN < payload_len as usize {
            return Err(ProtocolError::FrameTooShort);
        }
        Ok(
            AudioFrameHeader {
                codec,
                channels: frame[7],
                sample_rate: read_le(frame, 8, 4) as u32,
                sequence: read_le(frame, 12, 4) as u32,
                timestamp_us: read_le(frame, 16, 8),
                payload_len,
                flags: read_le(frame, 26, 2) as u16,
                stream_id: read_le(frame, 28, 4) as u32,
            },
        )
    }

    pub fn payload<'a>(&self, frame: &'a [u8]) -> (result: Result<&'a [u8], ProtocolError>)
        ensures
            match result {
                Ok(payload) => frame@.len() >= HEADER_LEN + self.payload_len && payload@
                    == frame_payload(*self, frame@),
                Err(error) => frame@.len() < HEADER_LEN + self.payload_len && error
                    == ProtocolError::FrameTooShort,
            },
    {
        if frame.len() < HEADER_LEN + self.payload_len as usize {
            return Err(ProtocolError::FrameTooShort);
        }
        Ok(&frame[HEADER_LEN..HEADER_LEN + self.payload_len as usize])
    }
}

/// Where the fields of a frame stand: the mark, version, header length, codec and
/// channels in one byte each, and then the numbers, least significant byte first.
pub proof fn law_the_fields_have_their_places(header: AudioFrameHeader)
    ensures
        ({
            let bytes = header_bytes(header);
            &&& bytes.len() == 32
            &&& bytes.take(4) == seq![0x4du8, 0x35, 0x41, 0x55]
            &&& bytes[4] == 1
            &&& bytes[5] == 32
            &&& bytes[6] == match header.codec {
                Codec::PcmS16Le => 1u8,
                Codec::ImaAdpcm4 => 2,
            }
            &&& bytes[7] == header.channels
            &&& bytes.subrange(8, 12) == le_bytes(header.sample_rate as nat, 4)
            &&& bytes.subrange(12, 16) == le_bytes(header.sequence as nat, 4)
            &&& bytes.subrange(16, 24) == le_bytes(header.timestamp_us as nat, 8)
            &&& bytes.subrange(24, 26) == le_bytes(header.payload_len as nat, 2)
            &&& bytes.subrange(26, 28) == le_bytes(header.flags as nat, 2)
            &&& bytes.subrange(28, 32) == le_bytes(header.stream_id as nat, 4)
        }),
{
    lemma_header_bytes_len(header);
    lemma_le_bytes_len(header.sample_rate as nat, 4);
    lemma_le_bytes_len(header.sequence as nat, 4);
    lemma_le_bytes_len(header.timestamp_us as nat, 8);
    lemma_le_bytes_len(header.payload_len as nat, 2);
    lemma_le_bytes_len(header.flags as nat, 2);
    lemma_le_bytes_len(header.stream_id as nat, 4);
    let bytes = header_bytes(header);
    assert(bytes.take(4) =~= seq![0x4du8, 0x35, 0x41, 0x55]);
    assert(bytes.subrange(8, 12) =~= le_bytes(header.sample_rate as nat, 4));
    assert(bytes.subrange(12, 16) =~= le_bytes(header.sequence as nat, 4));
    assert(bytes.subrange(16, 24) =~= le_bytes(header.timestamp_us as nat, 8));
    assert(bytes.subrange(24, 26) =~= le_bytes(header.payload_len as nat, 2));
    assert(bytes.subrange(26, 28) =~= le_bytes(header.flags as nat, 2));
    assert(bytes.subrange(28, 32) =~= le_bytes(header.stream_id as nat, 4));
}

/// A frame that is too short for its header or for the payload it announces is refused
/// as too short, and any other that is refused for the first thing that is wrong with
/// its first bytes.
pub proof fn law_a_frame_is_refused_for_what_is_wrong(frame: Seq<u8>)
    ensures
        decode_frame(frame) == Err::<AudioFrameHeader, ProtocolError>(ProtocolError::BadMagic)
            <==> frame.len() >= 32 && frame.take(4) != seq![0x4du8, 0x35, 0x41, 0x55],
        decode_frame(frame) == Err::<AudioFrameHeader, ProtocolError>(ProtocolError::BadVersion)
            <==> frame.len() >= 32 && frame.take(4) == seq![0x4du8, 0x35, 0x41, 0x55] && frame[4]
            != 1,
        decode_frame(frame) == Err::<AudioFrameHeader, ProtocolError>(
            ProtocolError::BadHeaderLength,
        ) <==> frame.len() >= 32 && frame.take(5) == seq![0x4du8, 0x35, 0x41, 0x55, 1]
            && frame[5] != 32,
        decode_frame(frame) == Err::<AudioFrameHeader, ProtocolError>(ProtocolError::BadCodec)
            <==> frame.len() >= 32 && frame.take(6) == seq![0x4du8, 0x35, 0x41, 0x55, 1, 32]
            && frame[6] != 1 && frame[6] != 2,
        frame.len() < 32 ==> decode_frame(frame) == Err::<AudioFrameHeader, ProtocolError>(
            ProtocolError::FrameTooShort,
        ),
        frame.len() >= 32 + 0xffff ==> decode_frame(frame) != Err::<AudioFrameHeader, ProtocolError>(
            ProtocolError::FrameTooShort,
        ),
{
    assert(MAGIC@ =~= seq![0x4du8, 0x35, 0x41, 0x55]);
    if frame.len() >= 32 {
        lemma_pow256_values();
        lemma_le_value_round_trip(frame.subrange(24, 26));
        if frame.take(4) == MAGIC@ {
            assert(forall|i: int| 0 <= i < 4 ==> frame[i] == #[trigger] frame.take(4)[i]);
            if frame[4] == 1 {
                assert(frame.take(5) =~= seq![0x4du8, 0x35, 0x41, 0x55, 1]);
                if frame[5] == 32 {
                    assert(frame.take(6) =~= seq![0x4du8, 0x35, 0x41, 0x55, 1, 32]);
                } else {
                    assert(frame.take(6)[5] == frame[5]);
                }
            } else {
                assert(frame.take(5)[4] == frame[4]);
                assert(frame.take(6)[4] == frame[4]);
            }
        } else {
            if frame.take(5) == seq![0x4du8, 0x35, 0x41, 0x55, 1] {
                assert(frame.take(4) =~= frame.take(5).take(4));
                assert(frame.take(4) =~= MAGIC@);
            }
            if frame.take(6) == seq![0x4du8, 0x35, 0x41, 0x55, 1, 32] {
                assert(frame.take(4) =~= frame.take(6).take(4));
                assert(frame.take(4) =~= MAGIC@);
            }
        }
    }
}

} // verus!
