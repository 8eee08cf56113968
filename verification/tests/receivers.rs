use m5mic::adpcm::{ima_adpcm4_encode, ImaAdpcmState};
use m5mic::decoder::{
    FrameMetadata, M5MicDecoder, DEFAULT_OUTPUT_SAMPLE_CAPACITY, STREAM_STARTED,
};
use m5mic::fragment::{BleAudioFragmentHeader, M5MicBleReassembler};
use m5mic::frame::{AudioFrameHeader, Codec, FLAG_STREAM_START, HEADER_LEN};
use m5mic::pcm::{decode_audio_payload, triple_rate_points, ResamplePoint, TripledPoint};
use m5mic::virtual_mic::{write_samples, RingHeader, RingReader, RING_SAMPLES};

fn point_sample(point: &ResamplePoint) -> f32 {
    let current = point.current as f32 / 32768.0;
    let next = point.next as f32 / 32768.0;
    current + (next - current) * (point.remainder as f32 / 48_000.0)
}

fn tripled_sample(point: &TripledPoint) -> f32 {
    let current = point.current as f32 / 32768.0;
    let next = point.next as f32 / 32768.0;
    match point.thirds {
        0 => current,
        1 => current + (next - current) / 3.0,
        _ => current + (next - current) * 2.0 / 3.0,
    }
}

fn empty_header() -> RingHeader {
    RingHeader {
        magic: 0,
        version: 0,
        header_bytes: 0,
        sample_rate: 0,
        channels: 0,
        ring_samples: 0,
        state: 0,
        write_index: 0,
        generation: 0,
        last_write_unix_ms: 0,
    }
}

fn bits(samples: &[f32]) -> Vec<u32> {
    samples.iter().map(|sample| sample.to_bits()).collect()
}

fn floats(samples: &[u32]) -> Vec<f32> {
    samples.iter().map(|sample| f32::from_bits(*sample)).collect()
}

#[test]
fn decode_pcm_frame_to_48k_float_samples() {
    let payload = [0x00, 0x00, 0x00, 0x40];
    let mut frame = vec![0u8; HEADER_LEN + payload.len()];
    let header = AudioFrameHeader::new(
        Codec::PcmS16Le,
        1,
        16_000,
        0,
        0,
        payload.len() as u16,
        0x1234,
        FLAG_STREAM_START,
    );
    header.encode_into(&mut frame).unwrap();
    frame[HEADER_LEN..].copy_from_slice(&payload);

    let mut decoder = M5MicDecoder::new();
    let mut metadata = FrameMetadata::default();
    let decoded = decoder.decode_frame(&frame, 16, &mut metadata);
    let samples: Vec<f32> = decoded.points.iter().map(point_sample).collect();

    assert_eq!(decoded.status, STREAM_STARTED);
    assert_eq!(metadata.out_sample_len, 6);
    assert_eq!(metadata.stream_id, 0x1234);
    assert_eq!(samples[0], 0.0);
    assert!(samples[1] > 0.16 && samples[1] < 0.17);
    assert!(samples[2] > 0.33 && samples[2] < 0.34);
    assert_eq!(samples[3], 0.5);
}

#[test]
fn decode_adpcm_frame() {
    let mut pcm = [0u8; 1_280];
    for (index, sample) in pcm.chunks_exact_mut(2).enumerate() {
        let value = (((index as i32 % 96) - 48) * 300) as i16;
        sample.copy_from_slice(&value.to_le_bytes());
    }
    let mut adpcm = [0u8; 320];
    let mut encode_state = ImaAdpcmState::new();
    let adpcm_len = ima_adpcm4_encode(&pcm, &mut adpcm, &mut encode_state).unwrap();
    let mut frame = vec![0u8; HEADER_LEN + adpcm_len];
    let header = AudioFrameHeader::new(
        Codec::ImaAdpcm4,
        1,
        16_000,
        0,
        0,
        adpcm_len as u16,
        0x5678,
        FLAG_STREAM_START,
    );
    header.encode_into(&mut frame).unwrap();
    frame[HEADER_LEN..].copy_from_slice(&adpcm[..adpcm_len]);

    let mut decoder = M5MicDecoder::new();
    let mut metadata = FrameMetadata::default();
    let decoded = decoder.decode_frame(&frame, DEFAULT_OUTPUT_SAMPLE_CAPACITY, &mut metadata);
    let samples: Vec<f32> = decoded.points.iter().map(point_sample).collect();

    assert_eq!(decoded.status, STREAM_STARTED);
    assert_eq!(metadata.out_sample_len, 1_920);
    assert!(metadata.level > 0);
    assert!(samples.iter().any(|sample| *sample != 0.0));
}

#[test]
fn ble_reassembler_waits_until_all_fragments_arrive() {
    let frame = b"hello bluetooth frame";
    let first_header = BleAudioFragmentHeader::new(7, 0, 2, 5).unwrap();
    let second_header = BleAudioFragmentHeader::new(7, 1, 2, (frame.len() - 5) as u16).unwrap();
    let mut first = [0u8; 13];
    let mut second = [0u8; 64];
    first_header.encode_into(&mut first).unwrap();
    first[8..].copy_from_slice(&frame[..5]);
    second_header.encode_into(&mut second).unwrap();
    second[8..8 + frame.len() - 5].copy_from_slice(&frame[5..]);

    let mut reassembler = M5MicBleReassembler::new();
    let mut out = [0u8; 64];
    assert_eq!(reassembler.push(&first, &mut out).unwrap(), None);
    let len = reassembler
        .push(&second[..8 + frame.len() - 5], &mut out)
        .unwrap()
        .unwrap();
    assert_eq!(&out[..len], frame);
}

#[test]
fn resamples_16k_s16_mono_to_48k_f32() {
    let payload = [0x00, 0x00, 0x00, 0x40];
    let out: Vec<f32> = triple_rate_points(&payload)
        .iter()
        .map(tripled_sample)
        .collect();

    assert_eq!(out.len(), 6);
    assert_eq!(out[0], 0.0);
    assert!(out[1] > 0.16 && out[1] < 0.17);
    assert!(out[2] > 0.33 && out[2] < 0.34);
    assert_eq!(out[3], 0.5);
}

#[test]
fn decodes_adpcm_payload_to_pcm_for_audio_pipeline() {
    let mut pcm = [0u8; 1_280];
    for (index, sample) in pcm.chunks_exact_mut(2).enumerate() {
        let value = (((index as i32 % 96) - 48) * 300) as i16;
        sample.copy_from_slice(&value.to_le_bytes());
    }

    let mut adpcm = [0u8; 320];
    let mut encode_state = ImaAdpcmState::new();
    let adpcm_len = ima_adpcm4_encode(&pcm, &mut adpcm, &mut encode_state).unwrap();
    let header = AudioFrameHeader::new(
        Codec::ImaAdpcm4,
        1,
        16_000,
        0,
        0,
        adpcm_len as u16,
        1,
        FLAG_STREAM_START,
    );

    let mut decode_state = ImaAdpcmState::new();
    let payload = decode_audio_payload(&header, &adpcm[..adpcm_len], &mut decode_state);

    assert_eq!(payload.len(), pcm.len());
    assert!(payload.chunks_exact(2).any(|sample| sample != [0, 0]));
}

#[test]
fn reader_gets_written_samples() {
    let mut header = empty_header();
    let mut ring = vec![9u32; RING_SAMPLES];
    header.initialize(&mut ring);
    let mut reader = RingReader::open(&header, 0).unwrap();
    write_samples(&mut header, &mut ring, &bits(&[0.25, -0.5, 0.75]), 1);
    let mut out = [9u32; 4];
    let read = reader.read(&header, &ring, &mut out);

    assert_eq!(read, 3);
    assert_eq!(floats(&out), [0.25, -0.5, 0.75, 0.0]);
}

#[test]
fn idle_feed_reads_silence() {
    let mut header = empty_header();
    let mut ring = vec![9u32; RING_SAMPLES];
    header.initialize(&mut ring);
    write_samples(&mut header, &mut ring, &bits(&[1.0, 1.0]), 1);
    header.set_idle();

    let mut reader = RingReader::open(&header, 0).unwrap();
    let mut out = bits(&[9.0, 9.0]);
    let read = reader.read(&header, &ring, &mut out);

    assert_eq!(read, 0);
    assert_eq!(floats(&out), [0.0, 0.0]);
}
