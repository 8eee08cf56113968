use m5mic::adpcm::{
    ima_adpcm4_decode, ima_adpcm4_decode_sample, ima_adpcm4_encode, ima_adpcm4_encode_sample,
    ima_adpcm4_encoded_len, ImaAdpcmState,
};
use m5mic::bytes::{
    append_bytes, bytes_equal, copy_into, i16_from_le, i16_to_le, push_le, read_le,
};
use m5mic::fragment::{
    fragment_frame, BleAudioFragmentHeader, BleFrameReassembler, FragmentError,
    M5MicBleReassembler, ERROR_FRAGMENT_TOO_LARGE, ERROR_PROTOCOL,
};
use m5mic::frame::{
    AudioFrameHeader, Codec, ProtocolError, FLAG_PUSH_TO_TALK, FLAG_STREAM_END, FLAG_STREAM_START,
    HEADER_LEN, MAGIC, VERSION,
};

fn header() -> AudioFrameHeader {
    AudioFrameHeader::new(
        Codec::ImaAdpcm4,
        2,
        0x0102_0304,
        0x1112_1314,
        0x2122_2324_2526_2728,
        3,
        0x4142_4344,
        FLAG_STREAM_END | FLAG_PUSH_TO_TALK,
    )
}

fn frame() -> Vec<u8> {
    let mut frame = header().to_bytes();
    frame.extend_from_slice(b"abcd");
    frame
}

fn pcm(samples: &[i16]) -> Vec<u8> {
    samples.iter().flat_map(|sample| sample.to_le_bytes()).collect()
}

#[test]
fn little_endian_numbers_are_read_and_written() {
    let mut out = vec![9u8];
    push_le(&mut out, 0x0102_0304, 4);
    assert_eq!(out, [9, 4, 3, 2, 1]);
    assert_eq!(read_le(&out, 1, 4), 0x0102_0304);
    assert_eq!(read_le(&[0xff; 8], 0, 8), u64::MAX);
    assert_eq!(read_le(&[7], 1, 0), 0);
}

#[test]
fn samples_are_little_endian() {
    assert_eq!(i16_from_le(0x34, 0x12), 0x1234);
    assert_eq!(i16_from_le(0xff, 0xff), -1);
    assert_eq!(i16_from_le(0x00, 0x80), i16::MIN);
    assert_eq!(i16_to_le(-2), (0xfe, 0xff));
    for sample in i16::MIN..=i16::MAX {
        let (low, high) = i16_to_le(sample);
        assert_eq!([low, high], sample.to_le_bytes());
        assert_eq!(i16_from_le(low, high), sample);
    }
}

#[test]
fn parts_are_copied_and_appended() {
    let mut out = [0u8; 5];
    copy_into(&mut out, 2, &[7, 8]);
    assert_eq!(out, [0, 0, 7, 8, 0]);
    let mut grown = vec![1u8];
    append_bytes(&mut grown, &[2, 3]);
    assert_eq!(grown, [1, 2, 3]);
    assert!(bytes_equal(&[1, 2], &[1, 2]));
    assert!(!bytes_equal(&[1, 2], &[1, 3]));
    assert!(!bytes_equal(&[1, 2], &[1]));
}

#[test]
fn header_fields_stand_where_they_should() {
    let bytes = frame();
    assert_eq!(&bytes[0..4], &MAGIC);
    assert_eq!(&MAGIC, b"M5AU");
    assert_eq!(bytes[4], VERSION);
    assert_eq!(bytes[5], 32);
    assert_eq!(bytes[6], 2);
    assert_eq!(bytes[7], 2);
    assert_eq!(&bytes[8..12], &[4, 3, 2, 1]);
    assert_eq!(&bytes[12..16], &[0x14, 0x13, 0x12, 0x11]);
    assert_eq!(
        &bytes[16..24],
        &[0x28, 0x27, 0x26, 0x25, 0x24, 0x23, 0x22, 0x21]
    );
    assert_eq!(&bytes[24..26], &[3, 0]);
    assert_eq!(&bytes[26..28], &[6, 0]);
    assert_eq!(&bytes[28..32], &[0x44, 0x43, 0x42, 0x41]);
}

#[test]
fn payload_is_what_the_header_counts() {
    let bytes = frame();
    let decoded = AudioFrameHeader::decode(&bytes).unwrap();
    assert_eq!(decoded, header());
    assert!(!decoded.is_stream_start());
    assert!(decoded.is_stream_end());
    assert!(decoded.is_push_to_talk());
    assert_eq!(decoded.payload(&bytes).unwrap(), b"abc");
    assert_eq!(
        decoded.payload(&bytes[..HEADER_LEN + 2]),
        Err(ProtocolError::FrameTooShort)
    );
}

#[test]
fn malformed_headers_are_refused() {
    let good = frame();
    let refused = |at: usize, value: u8| {
        let mut bad = good.clone();
        bad[at] = value;
        AudioFrameHeader::decode(&bad).unwrap_err()
    };
    assert_eq!(refused(0, b'N'), ProtocolError::BadMagic);
    assert_eq!(refused(3, 0), ProtocolError::BadMagic);
    assert_eq!(refused(4, 2), ProtocolError::BadVersion);
    assert_eq!(refused(5, 31), ProtocolError::BadHeaderLength);
    assert_eq!(refused(6, 0), ProtocolError::BadCodec);
    assert_eq!(refused(6, 3), ProtocolError::BadCodec);
    assert_eq!(refused(24, 5), ProtocolError::FrameTooShort);
    assert_eq!(
        AudioFrameHeader::decode(&good[..31]),
        Err(ProtocolError::FrameTooShort)
    );
    assert_eq!(
        header().encode_into(&mut [0; 31]),
        Err(ProtocolError::BufferTooSmall)
    );
}

#[test]
fn encoding_leaves_what_follows_the_header() {
    let mut out = [0xeeu8; HEADER_LEN + 3];
    header().encode_into(&mut out).unwrap();
    assert_eq!(&out[..HEADER_LEN], &header().to_bytes()[..]);
    assert_eq!(&out[HEADER_LEN..], &[0xee; 3]);
}

#[test]
fn codecs_have_numbers_and_names() {
    assert_eq!(Codec::from_u8(1), Some(Codec::PcmS16Le));
    assert_eq!(Codec::from_u8(2), Some(Codec::ImaAdpcm4));
    assert_eq!(Codec::from_u8(0), None);
    assert_eq!(Codec::PcmS16Le.to_u8(), 1);
    assert_eq!(Codec::ImaAdpcm4.to_u8(), 2);
    assert_eq!(Codec::PcmS16Le.as_str(), "pcm_s16le");
    assert_eq!(FLAG_STREAM_START, 1);
}

#[test]
fn adpcm_gives_known_bytes() {
    let samples = pcm(&[0, 1000, -1000, 32767, 5]);
    let mut out = [0xaau8; 4];
    let mut state = ImaAdpcmState::new();
    let written = ima_adpcm4_encode(&samples, &mut out, &mut state).unwrap();
    assert_eq!(written, 3);
    assert_eq!(out, [0x70, 0x7f, 0x0a, 0xaa]);

    let mut decoded = [0xaau8; 12];
    let mut decode_state = ImaAdpcmState::default();
    let len = ima_adpcm4_decode(&out[..3], 5, &mut decoded, &mut decode_state).unwrap();
    assert_eq!(len, 10);
    assert_eq!(&decoded[..10], &pcm(&[0, 11, -19, 44, -1])[..]);
    assert_eq!(&decoded[10..], &[0xaa, 0xaa]);
    assert_eq!(state, decode_state);

    decode_state.reset();
    assert_eq!(decode_state, ImaAdpcmState::new());
}

#[test]
fn adpcm_refuses_bad_lengths() {
    let mut state = ImaAdpcmState::new();
    assert_eq!(
        ima_adpcm4_encode(&[1, 2, 3], &mut [0; 4], &mut state),
        Err(ProtocolError::InvalidPcmLength)
    );
    assert_eq!(
        ima_adpcm4_encode(&[1, 2, 3, 4, 5, 6], &mut [0; 1], &mut state),
        Err(ProtocolError::OutputTooSmall)
    );
    assert_eq!(
        ima_adpcm4_decode(&[0; 2], 5, &mut [0; 32], &mut state),
        Err(ProtocolError::BadAdpcmSampleCount)
    );
    assert_eq!(
        ima_adpcm4_decode(&[0; 2], 4, &mut [0; 7], &mut state),
        Err(ProtocolError::OutputTooSmall)
    );
    assert_eq!(state, ImaAdpcmState::new());
}

#[test]
fn adpcm_length_is_rounded_up() {
    assert_eq!(ima_adpcm4_encoded_len(0), 0);
    assert_eq!(ima_adpcm4_encoded_len(1), 0);
    assert_eq!(ima_adpcm4_encoded_len(2), 1);
    assert_eq!(ima_adpcm4_encoded_len(4), 1);
    assert_eq!(ima_adpcm4_encoded_len(6), 2);
    assert_eq!(ima_adpcm4_encoded_len(1280), 320);
    assert_eq!(ima_adpcm4_encoded_len(usize::MAX), usize::MAX / 4 + 1);
}

#[test]
fn adpcm_decoder_follows_the_encoder_at_the_extremes() {
    let mut encoder = ImaAdpcmState::new();
    let mut decoder = ImaAdpcmState::new();
    for round in 0..200 {
        let sample = if round % 17 < 9 { i16::MAX } else { i16::MIN };
        let nibble = ima_adpcm4_encode_sample(sample, &mut encoder);
        assert!(nibble < 16);
        ima_adpcm4_decode_sample(nibble, &mut decoder);
        assert_eq!(encoder, decoder);
    }
    let mut masked = encoder;
    assert_eq!(
        ima_adpcm4_decode_sample(0x35, &mut masked),
        ima_adpcm4_decode_sample(0x05, &mut encoder)
    );
}

#[test]
fn fragment_headers_are_checked() {
    let header = BleAudioFragmentHeader::new(0x0102_0304, 1, 3, 2).unwrap();
    assert_eq!(header.to_bytes(), [4, 3, 2, 1, 1, 3, 2, 0]);
    let bad = Err(ProtocolError::BadFragmentIndex);
    assert_eq!(BleAudioFragmentHeader::new(1, 0, 0, 0), bad);
    assert_eq!(BleAudioFragmentHeader::new(1, 3, 3, 0), bad);
    assert_eq!(BleAudioFragmentHeader::decode(&[0, 0, 0, 0, 0, 0, 0, 0]), bad);
    assert_eq!(BleAudioFragmentHeader::decode(&[0, 0, 0, 0, 2, 2, 0, 0]), bad);
    let short = Err(ProtocolError::FrameTooShort);
    assert_eq!(BleAudioFragmentHeader::decode(&[0; 7]), short);
    assert_eq!(
        BleAudioFragmentHeader::decode(&[0, 0, 0, 0, 0, 1, 2, 0, 9]),
        short
    );
    assert_eq!(
        header.payload(&[0; 9]),
        Err(ProtocolError::FrameTooShort)
    );
    assert_eq!(
        header.encode_into(&mut [0; 7]),
        Err(ProtocolError::BufferTooSmall)
    );
}

#[test]
fn a_frame_is_cut_into_notifications() {
    let frame: Vec<u8> = (0..400u32).map(|i| i as u8).collect();
    let fragments = fragment_frame(7, &frame).unwrap();
    assert_eq!(fragments.len(), 3);
    assert_eq!(fragments[0].len(), 180);
    assert_eq!(fragments[1].len(), 180);
    assert_eq!(fragments[2].len(), 8 + 400 - 2 * 172);
    assert_eq!(&fragments[1][..8], &[7, 0, 0, 0, 1, 3, 172, 0]);
    assert_eq!(&fragments[1][8..], &frame[172..344]);
    assert_eq!(fragment_frame(7, &[]).unwrap().len(), 0);
    assert_eq!(fragment_frame(7, &vec![0; 255 * 172]).unwrap().len(), 255);
    assert_eq!(
        fragment_frame(7, &vec![0; 255 * 172 + 1]),
        Err(FragmentError::TooManyFragments)
    );
}

#[test]
fn fragments_may_come_in_any_order_and_twice() {
    let frame: Vec<u8> = (0..1000u32).map(|i| (i * 7) as u8).collect();
    let fragments = fragment_frame(9, &frame).unwrap();
    let mut reassembler = BleFrameReassembler::new();
    for index in [4usize, 0, 4, 2, 5, 1, 1] {
        assert_eq!(reassembler.push(&fragments[index]).unwrap(), None);
    }
    assert_eq!(reassembler.push(&fragments[3]).unwrap(), Some(frame.clone()));
    for fragment in &fragments[..5] {
        assert_eq!(reassembler.push(fragment).unwrap(), None);
    }
    assert_eq!(reassembler.push(&fragments[5]).unwrap(), Some(frame));
}

#[test]
fn another_frame_starts_the_reassembly_anew() {
    let first = fragment_frame(1, &[1; 300]).unwrap();
    let second = fragment_frame(2, &[2; 300]).unwrap();
    let mut reassembler = BleFrameReassembler::default();
    assert_eq!(reassembler.push(&first[0]).unwrap(), None);
    assert_eq!(reassembler.push(&second[0]).unwrap(), None);
    assert_eq!(reassembler.push(&first[1]).unwrap(), None);
    assert_eq!(reassembler.push(&first[0]).unwrap(), Some(vec![1; 300]));
    assert_eq!(reassembler.push(&second[0]).unwrap(), None);
    assert_eq!(
        reassembler.push(&[0; 3]),
        Err(ProtocolError::FrameTooShort)
    );
    assert_eq!(reassembler.push(&second[1]).unwrap(), Some(vec![2; 300]));
    assert_eq!(reassembler.push(&second[0]).unwrap(), None);
    reassembler.reset();
    assert_eq!(reassembler.push(&second[1]).unwrap(), None);
}

#[test]
fn a_frame_must_fit_the_buffer() {
    let fragments = fragment_frame(3, &[5; 200]).unwrap();
    let mut reassembler = M5MicBleReassembler::new();
    let mut out = [0u8; 199];
    assert_eq!(reassembler.push(&fragments[1], &mut out), Ok(None));
    assert_eq!(
        reassembler.push(&fragments[0], &mut out),
        Err(ERROR_FRAGMENT_TOO_LARGE)
    );
    assert_eq!(out, [0u8; 199]);
    assert_eq!(reassembler.push(&[1, 2], &mut out), Err(ERROR_PROTOCOL));
    let mut roomy = [0u8; 201];
    assert_eq!(reassembler.push(&fragments[1], &mut roomy), Ok(None));
    assert_eq!(reassembler.push(&fragments[0], &mut roomy), Ok(Some(200)));
    assert_eq!(&roomy[..200], &[5u8; 200]);
    assert_eq!(roomy[200], 0);
    reassembler.reset();
    assert_eq!(reassembler.push(&fragments[0], &mut roomy), Ok(None));
}

#[test]
fn fragments_may_be_cut_in_any_way_and_the_latest_counts() {
    let part = |index: u8, payload: &[u8]| {
        let header = BleAudioFragmentHeader::new(6, index, 3, payload.len() as u16).unwrap();
        let mut bytes = header.to_bytes();
        bytes.extend_from_slice(payload);
        bytes
    };
    let mut reassembler = BleFrameReassembler::new();
    assert_eq!(reassembler.push(&part(2, &[9, 9])).unwrap(), None);
    assert_eq!(reassembler.push(&part(0, &[])).unwrap(), None);
    assert_eq!(reassembler.push(&part(2, &[7])).unwrap(), None);
    assert_eq!(
        reassembler.push(&part(1, &[1; 300])).unwrap(),
        Some([vec![1; 300], vec![7]].concat())
    );
}

#[test]
fn a_fragment_begins_with_its_header() {
    let fragment = [1, 2, 3, 4, 5, 6, 2, 0, 8, 9, 10];
    let header = BleAudioFragmentHeader::decode(&fragment).unwrap();
    assert_eq!(header.to_bytes(), &fragment[..8]);
}
