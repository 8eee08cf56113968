use m5mic::adpcm::{ima_adpcm4_encode, ImaAdpcmState};
use m5mic::decoder::{
    FrameMetadata, M5MicDecoder, ERROR_OUTPUT_TOO_SMALL, ERROR_UNSUPPORTED_FORMAT, STREAM_AUDIO,
    STREAM_ENDED, STREAM_STARTED,
};
use m5mic::fragment::ERROR_PROTOCOL;
use m5mic::frame::{
    AudioFrameHeader, Codec, ProtocolError, FLAG_PUSH_TO_TALK, FLAG_STREAM_END, FLAG_STREAM_START,
};
use m5mic::pcm::{
    decode_audio_payload, pcm_peak_percent, pcm_sample_values, resample_points, resampled_len,
    triple_rate_points, ResamplePoint, TripledPoint,
};
use m5mic::receiver::{
    local_host_name, record_mode_name, recording_file_name, sanitize_hostname, FrameAction,
    FrameGap, LiveAudioOutput, LiveAudioStatus, Opening, ReceiverConfig, Recordings, SocketSession,
};
use m5mic::virtual_mic::{
    default_ring_path, write_samples, FeedState, RingError, RingHeader, RingReader,
    LATENCY_FRAMES, RING_MAGIC, RING_SAMPLES, RING_SECONDS, SAMPLE_RATE, TOTAL_BYTES,
};

fn pcm(samples: &[i16]) -> Vec<u8> {
    samples.iter().flat_map(|sample| sample.to_le_bytes()).collect()
}

fn frame(codec: Codec, sequence: u32, stream_id: u32, flags: u16, payload: &[u8]) -> Vec<u8> {
    let header = AudioFrameHeader::new(
        codec,
        1,
        16_000,
        sequence,
        0,
        payload.len() as u16,
        stream_id,
        flags,
    );
    let mut bytes = header.to_bytes();
    bytes.extend_from_slice(payload);
    bytes
}

fn new_ring() -> (RingHeader, Vec<u32>) {
    let mut header = RingHeader {
        magic: 1,
        version: 2,
        header_bytes: 3,
        sample_rate: 4,
        channels: 5,
        ring_samples: 6,
        state: 7,
        write_index: 8,
        generation: 9,
        last_write_unix_ms: 10,
    };
    let mut ring = vec![1; RING_SAMPLES];
    header.initialize(&mut ring);
    (header, ring)
}

#[test]
fn peaks_are_percentages() {
    assert_eq!(pcm_peak_percent(&[]), 0);
    assert_eq!(pcm_peak_percent(&pcm(&[0, 327])), 0);
    assert_eq!(pcm_peak_percent(&pcm(&[328, -5])), 1);
    assert_eq!(pcm_peak_percent(&pcm(&[16384, -16383])), 50);
    assert_eq!(pcm_peak_percent(&pcm(&[i16::MAX])), 99);
    assert_eq!(pcm_peak_percent(&pcm(&[1, i16::MIN])), 100);
    assert_eq!(pcm_peak_percent(&[0, 0, 0xff]), 0);
    assert_eq!(pcm_sample_values(&[1, 0, 0xff, 0xff, 9]), [1, -1]);
}

#[test]
fn resampling_keeps_the_duration() {
    assert_eq!(resampled_len(640, 16_000), 1_920);
    assert_eq!(resampled_len(441, 44_100), 480);
    assert_eq!(resampled_len(1, 44_100), 2);
    assert_eq!(resampled_len(0, 16_000), 0);
    assert_eq!(resampled_len(5, 0), 0);
}

#[test]
fn resampling_walks_through_the_samples() {
    let point = |current, next, remainder| ResamplePoint {
        current,
        next,
        remainder,
    };
    assert_eq!(
        resample_points(&pcm(&[10, 20]), 32_000, 3),
        [point(10, 20, 0), point(10, 20, 32_000), point(20, 20, 16_000)]
    );
    let third = |current, next, thirds| TripledPoint {
        current,
        next,
        thirds,
    };
    assert_eq!(
        triple_rate_points(&pcm(&[1, 2])),
        [
            third(1, 2, 0),
            third(1, 2, 1),
            third(1, 2, 2),
            third(2, 2, 0),
            third(2, 2, 1),
            third(2, 2, 2)
        ]
    );
}

#[test]
fn payloads_are_decoded_by_codec() {
    let mut state = ImaAdpcmState::new();
    let plain = AudioFrameHeader::new(Codec::PcmS16Le, 1, 16_000, 0, 0, 3, 0, 0);
    assert_eq!(decode_audio_payload(&plain, &[1, 2, 3], &mut state), [1, 2, 3]);
    let packed = AudioFrameHeader::new(Codec::ImaAdpcm4, 1, 16_000, 0, 0, 2, 0, 0);
    assert_eq!(
        decode_audio_payload(&packed, &[0x70, 0x7f], &mut state),
        pcm(&[0, 11, -19, 44])
    );
}

#[test]
fn a_live_feed_follows_its_streams() {
    let mut live = LiveAudioOutput::new();
    let samples = pcm(&[5, 6]);
    let started = live
        .handle_frame(&frame(Codec::PcmS16Le, 0, 7, FLAG_STREAM_START, &samples))
        .unwrap();
    assert_eq!(started.status, LiveAudioStatus::Started { stream_id: 7 });
    assert_eq!(started.pcm, Some(samples.clone()));
    let next = live
        .handle_frame(&frame(Codec::PcmS16Le, 1, 7, 0, &[]))
        .unwrap();
    assert_eq!(next.status, LiveAudioStatus::Audio { stream_id: 7 });
    assert_eq!(next.pcm, None);
    let other = live
        .handle_frame(&frame(Codec::PcmS16Le, 2, 8, 0, &samples))
        .unwrap();
    assert_eq!(other.status, LiveAudioStatus::Started { stream_id: 8 });
    let ended = live
        .handle_frame(&frame(Codec::PcmS16Le, 3, 8, FLAG_STREAM_END, &samples))
        .unwrap();
    assert_eq!(ended.status, LiveAudioStatus::Ended { stream_id: 8 });
    assert_eq!(ended.pcm, None);
    let again = live
        .handle_frame(&frame(Codec::PcmS16Le, 4, 8, 0, &samples))
        .unwrap();
    assert_eq!(again.status, LiveAudioStatus::Started { stream_id: 8 });
    live.set_idle();
    assert_eq!(live, LiveAudioOutput::new());
    assert_eq!(
        live.handle_frame(&[0; 40]).unwrap_err(),
        ProtocolError::BadMagic
    );
}

#[test]
fn a_socket_counts_what_it_misses() {
    let mut session = SocketSession::new(true);
    let samples = pcm(&[1, 2, 3]);
    let first = session
        .on_binary(&frame(Codec::PcmS16Le, 5, 1, FLAG_STREAM_START, &samples))
        .unwrap();
    assert!(first.begins);
    assert_eq!(first.replaced_stream, None);
    assert_eq!(first.gap, None);
    match first.action {
        FrameAction::Play { pcm, create } => {
            assert_eq!(pcm, samples);
            assert!(create);
        }
        other => panic!("{other:?}"),
    }
    session.recording_started(1);
    assert_eq!(session.recording_stream, Some(1));
    session.frame_played(samples.len());
    assert_eq!((session.frames, session.samples), (1, 3));

    let gap = session
        .on_binary(&frame(Codec::PcmS16Le, 9, 1, 0, &samples))
        .unwrap();
    assert!(!gap.begins);
    assert_eq!(
        gap.gap,
        Some(FrameGap {
            expected: 6,
            received: 9,
            missed: 3
        })
    );
    assert!(matches!(gap.action, FrameAction::Play { create: false, .. }));
    assert_eq!(session.dropped_frames, 3);

    let back = session
        .on_binary(&frame(Codec::PcmS16Le, 2, 1, 0, &[]))
        .unwrap();
    assert_eq!(
        back.gap,
        Some(FrameGap {
            expected: 10,
            received: 2,
            missed: 0
        })
    );
    assert!(matches!(back.action, FrameAction::Skip));
    assert_eq!(session.dropped_frames, 3);

    let other = session
        .on_binary(&frame(Codec::PcmS16Le, u32::MAX, 2, 0, &samples))
        .unwrap();
    assert!(other.begins);
    assert_eq!(other.replaced_stream, Some(1));
    assert_eq!(other.gap, None);
    assert!(matches!(other.action, FrameAction::Play { create: true, .. }));
    session.recording_started(2);
    let wrapped = session
        .on_binary(&frame(Codec::PcmS16Le, 0, 2, FLAG_STREAM_END, &samples))
        .unwrap();
    assert_eq!(wrapped.gap, None);
    assert!(matches!(wrapped.action, FrameAction::End));
    assert_eq!(
        session.on_binary(&[1, 2]).unwrap_err(),
        ProtocolError::FrameTooShort
    );
    assert!(session.room_left());
}

#[test]
fn each_stream_of_a_socket_has_its_own_recording() {
    let mut session = SocketSession::new(true);
    let mut recordings = Recordings::new();
    let sent: [(u32, &[i16]); 6] = [
        (7, &[1, 2]),
        (7, &[3]),
        (9, &[]),
        (9, &[4]),
        (7, &[5, 6]),
        (9, &[7]),
    ];
    let mut files: Vec<(u32, Vec<u8>)> = Vec::new();
    let mut openings = Vec::new();
    for (sequence, (stream_id, samples)) in sent.iter().enumerate() {
        let bytes = frame(Codec::PcmS16Le, sequence as u32, *stream_id, 0, &pcm(samples));
        let step = session.on_binary(&bytes).unwrap();
        let (played, create) = match step.action {
            FrameAction::Play { pcm, create } => (pcm, create),
            FrameAction::Skip => continue,
            other => panic!("{other:?}"),
        };
        if create {
            let opening = recordings.open(*stream_id);
            openings.push((*stream_id, opening));
            if opening == Opening::Create {
                files.push((*stream_id, Vec::new()));
            }
            session.recording_started(*stream_id);
        }
        let open = session.recording_stream.unwrap();
        let file = files.iter_mut().find(|file| file.0 == open).unwrap();
        file.1.extend_from_slice(&played);
        session.frame_played(played.len());
    }
    assert_eq!(
        openings,
        vec![
            (7, Opening::Create),
            (9, Opening::Create),
            (7, Opening::Append),
            (9, Opening::Append),
        ]
    );
    assert_eq!(
        files,
        vec![(7, pcm(&[1, 2, 3, 5, 6])), (9, pcm(&[4, 7]))]
    );
    assert_eq!((session.frames, session.samples), (5, 7));
}

#[test]
fn a_socket_without_recordings_opens_none() {
    let mut session = SocketSession::new(false);
    let step = session
        .on_binary(&frame(Codec::PcmS16Le, 0, 1, 0, &pcm(&[1])))
        .unwrap();
    assert!(matches!(step.action, FrameAction::Play { create: false, .. }));
}

#[test]
fn recordings_and_hosts_are_named() {
    assert_eq!(
        recording_file_name(1_700_000_000, 0xab),
        "m5mic-1700000000-000000ab.wav"
    );
    let talk = AudioFrameHeader::new(Codec::PcmS16Le, 1, 1, 0, 0, 0, 0, FLAG_PUSH_TO_TALK);
    let latched = AudioFrameHeader::new(Codec::PcmS16Le, 1, 1, 0, 0, 0, 0, 0);
    assert_eq!(record_mode_name(&talk), "push-to-talk");
    assert_eq!(record_mode_name(&latched), "latched");
    assert_eq!(sanitize_hostname("M5Mic Receiver"), "m5mic-receiver");
    assert_eq!(local_host_name("M5Mic Receiver"), "m5mic-receiver.local.");
    assert_eq!(sanitize_hostname("--A__b\t\u{e9}C 9-"), "a-b-c-9");
    assert_eq!(sanitize_hostname("\u{e9}!"), "");
    let config = ReceiverConfig::default();
    assert_eq!(config.listen, "0.0.0.0");
    assert_eq!(config.ws_port, 47_776);
    assert_eq!(config.discovery_port, 47_777);
    assert_eq!(config.output_dir.as_deref(), Some("captures"));
    assert_eq!(config.instance, "M5Mic Receiver");
    assert!(!config.virtual_mic);
}

#[test]
fn a_ring_is_laid_out_once() {
    let (mut header, mut ring) = new_ring();
    assert_eq!(header.magic, RING_MAGIC);
    assert_eq!(RING_MAGIC.to_le_bytes(), *b"M5VR");
    assert_eq!(header.generation, 1);
    assert!(ring.iter().all(|sample| *sample == 0));
    write_samples(&mut header, &mut ring, &[4, 5], 77);
    assert_eq!(header.status().state, FeedState::Receiving);
    assert_eq!(header.status().write_index, 2);
    assert_eq!(header.status().last_write_unix_ms, 77);
    header.initialize(&mut ring);
    assert_eq!(header.status().state, FeedState::Idle);
    assert_eq!(header.write_index, 2);
    assert_eq!(&ring[..3], &[4, 5, 0]);
    header.set_idle();
    assert_eq!(header.generation, 2);
    assert_eq!(TOTAL_BYTES, 4_096 + 4 * RING_SAMPLES);
    assert_eq!(RING_SAMPLES, SAMPLE_RATE as usize * RING_SECONDS);
    assert_eq!(LATENCY_FRAMES, SAMPLE_RATE as u64 / 20);
    assert_eq!(default_ring_path(), "/tmp/m5mic-virtual-mic-ring-v1");
}

#[test]
fn a_reader_checks_the_ring() {
    let (header, _) = new_ring();
    assert_eq!(header.validate(), Ok(()));
    let mut other = header;
    other.magic = 0;
    assert_eq!(other.validate(), Err(RingError::NotInitialized));
    let mut other = header;
    other.sample_rate = 16_000;
    assert_eq!(other.validate(), Err(RingError::FormatMismatch));
    assert_eq!(
        RingReader::open(&other, 0).map(|reader| reader.read_index),
        Err(RingError::FormatMismatch)
    );
    assert_eq!(
        RingError::NotInitialized.message(),
        "virtual mic ring is not initialized"
    );
    assert_eq!(
        RingError::FormatMismatch.message(),
        "virtual mic ring format mismatch"
    );
}

#[test]
fn the_ring_goes_round() {
    let (mut header, mut ring) = new_ring();
    let samples: Vec<u32> = (0..RING_SAMPLES as u32 + 5).collect();
    write_samples(&mut header, &mut ring, &samples, 1);
    assert_eq!(header.write_index, RING_SAMPLES as u64);
    assert_eq!(ring[0], 5);
    let mut reader = RingReader::open(&header, 0).unwrap();
    write_samples(&mut header, &mut ring, &[1, 2, 3], 2);
    assert_eq!(&ring[..4], &[1, 2, 3, 8]);
    let mut out = [9u32; 2];
    assert_eq!(reader.read(&header, &ring, &mut out), 2);
    assert_eq!(out, [1, 2]);
    let mut out = [9u32; 3];
    assert_eq!(reader.read(&header, &ring, &mut out), 1);
    assert_eq!(out, [3, 0, 0]);
    assert_eq!(reader.read(&header, &ring, &mut out), 0);
    assert_eq!(out, [0, 0, 0]);
}

#[test]
fn a_reader_that_lags_catches_up() {
    let (mut header, mut ring) = new_ring();
    let mut reader = RingReader::open(&header, LATENCY_FRAMES).unwrap();
    let samples: Vec<u32> = (0..3 * LATENCY_FRAMES as u32).collect();
    write_samples(&mut header, &mut ring, &samples, 1);
    let mut out = [0u32; 1];
    assert_eq!(reader.read(&header, &ring, &mut out), 1);
    assert_eq!(out, [2 * LATENCY_FRAMES as u32]);
    let mut behind = RingReader {
        read_index: 0,
        latency_frames: 0,
    };
    let more = vec![7u32; RING_SAMPLES];
    write_samples(&mut header, &mut ring, &more, 1);
    assert_eq!(behind.read(&header, &ring, &mut out), 1);
    assert_eq!(out, [7]);
    assert_eq!(behind.read_index, 3 * LATENCY_FRAMES + 1);
    assert_eq!(behind.read(&header, &ring, &mut []), 0);
}

#[test]
fn the_decoder_reports_what_it_found() {
    let mut decoder = M5MicDecoder::new();
    let mut metadata = FrameMetadata::default();
    let samples = pcm(&[0, 16384, -16384]);

    let small = decoder.decode_frame(
        &frame(Codec::PcmS16Le, 0, 3, FLAG_STREAM_START, &samples),
        8,
        &mut metadata,
    );
    assert_eq!(small.status, ERROR_OUTPUT_TOO_SMALL);
    assert!(small.points.is_empty());
    assert_eq!((metadata.out_sample_len, metadata.level), (0, 50));

    let audio = decoder.decode_frame(&frame(Codec::PcmS16Le, 1, 3, 0, &samples), 9, &mut metadata);
    assert_eq!(audio.status, STREAM_AUDIO);
    assert_eq!(audio.points.len(), 9);
    assert_eq!(metadata.out_sample_len, 9);
    assert_eq!((metadata.sample_rate, metadata.channels), (48_000, 1));

    let empty = decoder.decode_frame(&frame(Codec::PcmS16Le, 2, 4, 0, &[]), 0, &mut metadata);
    assert_eq!(empty.status, STREAM_STARTED);

    let ended = decoder.decode_frame(
        &frame(Codec::PcmS16Le, 3, 4, FLAG_STREAM_END, &[]),
        0,
        &mut metadata,
    );
    assert_eq!(ended.status, STREAM_ENDED);
    assert_eq!(metadata.flags, FLAG_STREAM_END);

    let mut stereo = frame(Codec::PcmS16Le, 4, 4, 0, &samples);
    stereo[7] = 2;
    let unsupported = decoder.decode_frame(&stereo, 9, &mut metadata);
    assert_eq!(unsupported.status, ERROR_UNSUPPORTED_FORMAT);
    assert_eq!(metadata.channels, 2);

    let malformed = decoder.decode_frame(&[0; 3], 9, &mut metadata);
    assert_eq!(malformed.status, ERROR_PROTOCOL);
    decoder.reset();
    assert_eq!(decoder, M5MicDecoder::new());
}

#[test]
fn the_decoder_keeps_its_state_between_frames() {
    let samples: Vec<i16> = (0..64).map(|i| (i * 400 - 12_000) as i16).collect();
    let bytes = pcm(&samples);
    let mut encoder = ImaAdpcmState::new();
    let mut packed = [0u8; 32];
    ima_adpcm4_encode(&bytes, &mut packed, &mut encoder).unwrap();

    let mut whole = M5MicDecoder::new();
    let mut parts = M5MicDecoder::new();
    let mut metadata = FrameMetadata::default();
    let all = whole.decode_frame(
        &frame(Codec::ImaAdpcm4, 0, 1, FLAG_STREAM_START, &packed),
        1_000,
        &mut metadata,
    );
    let first = parts.decode_frame(
        &frame(Codec::ImaAdpcm4, 0, 1, FLAG_STREAM_START, &packed[..16]),
        1_000,
        &mut metadata,
    );
    let second = parts.decode_frame(
        &frame(Codec::ImaAdpcm4, 1, 1, 0, &packed[16..]),
        1_000,
        &mut metadata,
    );
    let current = |points: &[ResamplePoint]| -> Vec<i16> {
        points.iter().map(|point| point.current).collect()
    };
    assert_eq!(
        current(&all.points),
        [current(&first.points), current(&second.points)].concat()
    );
    assert_eq!(whole, parts);
}

#[test]
fn reads_give_the_writes_in_order() {
    let (mut header, mut ring) = new_ring();
    write_samples(&mut header, &mut ring, &vec![5; RING_SAMPLES - 3], 1);
    let mut reader = RingReader::open(&header, 0).unwrap();
    let mut written: Vec<u32> = Vec::new();
    let mut read: Vec<u32> = Vec::new();
    let rounds: [(usize, usize); 6] = [
        (0, 4),
        (5, 2),
        (7, 20),
        (200_000, 1),
        (RING_SAMPLES - 199_999, 300_000),
        (0, RING_SAMPLES),
    ];
    for (put, wanted) in rounds {
        let samples: Vec<u32> = (0..put).map(|i| (written.len() + i + 1) as u32).collect();
        write_samples(&mut header, &mut ring, &samples, 2);
        written.extend_from_slice(&samples);
        let unread = written.len() - read.len();
        let mut out = vec![77; wanted];
        let count = reader.read(&header, &ring, &mut out);
        assert_eq!(count, unread.min(wanted));
        assert!(out[count..].iter().all(|sample| *sample == 0));
        read.extend_from_slice(&out[..count]);
        assert_eq!(read, &written[..read.len()]);
    }
    assert_eq!(read, written);
}

#[test]
fn the_ring_holds_the_latest_of_all_writes() {
    let (mut header, mut ring) = new_ring();
    let mut kept: Vec<u32> = Vec::new();
    for (len, value) in [(3usize, 1u32), (RING_SAMPLES + 2, 2), (5, 3)] {
        let samples: Vec<u32> = (0..len as u32).map(|i| value * 1_000_000 + i).collect();
        write_samples(&mut header, &mut ring, &samples, 1);
        kept.extend_from_slice(&samples[len.saturating_sub(RING_SAMPLES)..]);
    }
    assert_eq!(header.write_index, kept.len() as u64);
    for (i, sample) in kept.iter().enumerate().skip(kept.len() - RING_SAMPLES) {
        assert_eq!(*sample, ring[i % RING_SAMPLES]);
    }
}
