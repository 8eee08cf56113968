//! The decoder of the phone app: frames in, points of a 48 kHz signal out.

use vstd::prelude::*;

use crate::adpcm::{initial_predictor, pcm_samples, ImaAdpcmState, Predictor};
use crate::frame::{decode_frame, frame_payload, AudioFrameHeader};
use crate::fragment::ERROR_PROTOCOL;
use crate::pcm::{
    decode_audio_payload, payload_pcm, pcm_peak_percent, peak_percent, predictor_after,
    resample_point, resample_points, resampled_len, samples_at_output_rate, ResamplePoint,
    OUTPUT_SAMPLE_RATE,
};
use crate::receiver::begins_stream;

verus! {

pub const STATUS_OK: i32 = 0;

pub const STATUS_INCOMPLETE: i32 = 1;

pub const STREAM_STARTED: i32 = 2;

pub const STREAM_AUDIO: i32 = 3;

pub const STREAM_ENDED: i32 = 4;

pub const ERROR_NULL: i32 = -1;

pub const ERROR_UNSUPPORTED_FORMAT: i32 = -3;

pub const ERROR_OUTPUT_TOO_SMALL: i32 = -4;

pub const DEFAULT_FRAME_CAPACITY: usize = 2_048;

pub const DEFAULT_OUTPUT_SAMPLE_CAPACITY: usize = 4_096;

#[derive(Debug, Clone, Copy, PartialEq, Eq, Structural)]
pub struct FrameMetadata {
    pub out_sample_len: usize,
    pub stream_id: u32,
    pub level: u8,
    pub sample_rate: u32,
    pub channels: u8,
    pub flags: u16,
}

impl Default for FrameMetadata {
    fn default() -> (metadata: FrameMetadata)
        ensures
            metadata == (FrameMetadata {
                out_sample_len: 0,
                stream_id: 0,
                level: 0,
                sample_rate: 0,
                channels: 0,
                flags: 0,
            }),
    {
        FrameMetadata {
            out_sample_len: 0,
            stream_id: 0,
            level: 0,
            sample_rate: 0,
            channels: 0,
            flags: 0,
        }
    }
}

#[derive(Debug)]
pub struct DecodedFrame {
    pub status: i32,
    pub points: Vec<ResamplePoint>,
}

/// What is said of a frame before its samples are looked at.
pub open spec fn metadata_of(header: AudioFrameHeader) -> FrameMetadata {
    FrameMetadata {
        out_sample_len: 0,
        stream_id: header.stream_id,
        level: 0,
        sample_rate: OUTPUT_SAMPLE_RATE,
        channels: header.channels,
        flags: header.flags,
    }
}

pub open spec fn status_of(begins: bool) -> i32 {
    if begins {
        STREAM_STARTED
    } else {
        STREAM_AUDIO
    }
}

#[derive(Debug, Clone, Copy, PartialEq, Eq, Structural)]
pub struct M5MicDecoder {
    adpcm_state: ImaAdpcmState,
    active_stream_id: Option<u32>,
}

impl M5MicDecoder {
    pub closed spec fn wf(self) -> bool {
        self.adpcm_state.wf()
    }

    pub closed spec fn active(self) -> Option<u32> {
        self.active_stream_id
    }

    pub closed spec fn predictor(self) -> Predictor {
        self.adpcm_state@
    }

    pub fn new() -> (decoder: M5MicDecoder)
        ensures
            decoder.wf(),
            decoder.active() is None,
            decoder.predictor() == initial_predictor(),
    {
        M5MicDecoder { adpcm_state: ImaAdpcmState::new(), active_stream_id: None }
    }

    pub fn reset(&mut self)
        ensures
            final(self).wf(),
            final(self).active() is None,
            final(self).predictor() == initial_predictor(),
    {
        self.adpcm_state.reset();
        self.active_stream_id = None;
    }

    /// Decodes a frame into at most `out_capacity` samples at 48 kHz.
    pub fn decode_frame(
        &mut self,
        frame: &[u8],
        out_capacity: usize,
        metadata: &mut FrameMetadata,
    ) -> (decoded: DecodedFrame)
        requires
            old(self).wf(),
        ensures
            final(self).wf(),
            match decode_frame(frame@) {
                Err(_) => {
                    &&& decoded.status == ERROR_PROTOCOL
                    &&& decoded.points@.len() == 0
                    &&& *final(metadata) == *old(metadata)
                    &&& *final(self) == *old(self)
                },
                Ok(header) => {
                    let begins = begins_stream(header, old(self).active());
                    let start = if begins {
                        initial_predictor()
                    } else {
                        old(self).predictor()
                    };
                    let payload = frame_payload(header, frame@);
                    let pcm = payload_pcm(header.codec, payload, start);
                    let len = samples_at_output_rate(
                        pcm.len() as int / 2,
                        header.sample_rate as int,
                    );
                    if header.channels != 1 || header.sample_rate == 0 {
                        &&& decoded.status == ERROR_UNSUPPORTED_FORMAT
                        &&& decoded.points@.len() == 0
                        &&& *final(metadata) == metadata_of(header)
                        &&& *final(self) == *old(self)
                    } else if header.stream_end() {
                        &&& decoded.status == STREAM_ENDED
                        &&& decoded.points@.len() == 0
                        &&& *final(metadata) == metadata_of(header)
                        &&& final(self).active() is None
                        &&& final(self).predictor() == initial_predictor()
                    } else if payload.len() == 0 {
                        &&& decoded.status == status_of(begins)
                        &&& decoded.points@.len() == 0
                        &&& *final(metadata) == metadata_of(header)
                        &&& final(self).active() == Some(header.stream_id)
                        &&& final(self).predictor() == start
                    } else {
                        &&& final(self).active() == Some(header.stream_id)
                        &&& final(self).predictor() == predictor_after(
                            header.codec,
                            payload,
                            start,
                        )
                        &&& if out_capacity < len {
                            &&& decoded.status == ERROR_OUTPUT_TOO_SMALL
                            &&& decoded.points@.len() == 0
                            &&& *final(metadata) == (FrameMetadata {
                                level: peak_percent(pcm) as u8,
                                ..metadata_of(header)
                            })
                        } else {
                            &&& decoded.status == status_of(begins)
                            &&& decoded.points@ == Seq::new(
                                len as nat,
                                |i: int|
                                    resample_point(
                                        pcm_samples(pcm),
                                        header.sample_rate as int,
                                        i,
                                    ),
                            )
                            &&& *final(metadata) == (FrameMetadata {
                                level: peak_percent(pcm) as u8,
                                out_sample_len: len as usize,
                                ..metadata_of(header)
                            })
                        }
                    }
                },
            },
    {
        let header = match AudioFrameHeader::decode(frame) {
            Ok(header) => header,
            Err(_) => return DecodedFrame { status: ERROR_PROTOCOL, points: Vec::new() },
        };
        metadata.stream_id = header.stream_id;
        metadata.sample_rate = OUTPUT_SAMPLE_RATE;
        metadata.channels = header.channels;
        metadata.flags = header.flags;
        metadata.out_sample_len = 0;
        metadata.level = 0;
        if header.channels != 1 || header.sample_rate == 0 {
            return DecodedFrame { status: ERROR_UNSUPPORTED_FORMAT, points: Vec::new() };
        }
        let begins = header.is_stream_start() || match self.active_stream_id {
            Some(stream_id) => stream_id != header.stream_id,
            None => true,
        };
        if begins {
            self.active_stream_id = Some(header.stream_id);
            self.adpcm_state.reset();
        }
        if header.is_stream_end() {
            self.reset();
            return DecodedFrame { status: STREAM_ENDED, points: Vec::new() };
        }
        let payload = match header.payload(frame) {
            Ok(payload) => payload,
            Err(_) => return DecodedFrame { status: ERROR_PROTOCOL, points: Vec::new() },
        };
        let status: i32 = if begins {
            STREAM_STARTED
        } else {
            STREAM_AUDIO
        };
        if payload.len() == 0 {
            return DecodedFrame { status, points: Vec::new() };
        }
        let ghost start = self.adpcm_state@;
        let pcm = decode_audio_payload(&header, payload, &mut self.adpcm_state);
        assert(pcm@.len() <= 4 * payload@.len());
        metadata.level = pcm_peak_percent(pcm.as_slice());
        let output_len: u64 = resampled_len(pcm.len() / 2, header.sample_rate);
        if (out_capacity as u64) < output_len {
            return DecodedFrame { status: ERROR_OUTPUT_TOO_SMALL, points: Vec::new() };
        }
        let len: usize = output_len as usize;
        proof {
            if pcm@.len() >= 2 {
                lemma_points_fit(pcm@.len() as int / 2, header.sample_rate as int);
            }
        }
        let points = resample_points(pcm.as_slice(), header.sample_rate, len);
        metadata.out_sample_len = len;
        DecodedFrame { status, points }
    }
}

proof fn lemma_points_fit(samples: int, rate: int)
    requires
        0 < samples <= 0x4_0000,
        0 < rate <= u32::MAX,
    ensures
        (samples_at_output_rate(samples, rate) - 1) * rate <= u64::MAX,
{
    let total = samples * 48_000 + rate - 1;
    assert(samples_at_output_rate(samples, rate) == total / rate);
    assert((total / rate - 1) * rate <= total) by (nonlinear_arith)
        requires
            rate > 0,
            total >= 0,
    ;
}

/// What is told of a frame is what its header says, at the rate of the output and with
/// nothing decoded yet; and a frame that begins a stream is told from one that goes on
/// with it.
pub proof fn law_metadata_are_those_of_the_frame(header: AudioFrameHeader)
    ensures
        ({
            let told = metadata_of(header);
            &&& told.stream_id == header.stream_id
            &&& told.channels == header.channels
            &&& told.flags == header.flags
            &&& told.sample_rate == 48_000
            &&& told.out_sample_len == 0 && told.level == 0
        }),
        status_of(true) == STREAM_STARTED && status_of(false) == STREAM_AUDIO,
        status_of(true) != status_of(false),
{
}

} // verus!
