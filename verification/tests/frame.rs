use stego::{decode_frame, encode_frame, header_length, BitReader, BitWriter, PixelBuffer, StegoError};

fn bits(pattern: &str) -> Vec<bool> {
    pattern.chars().filter(|c| *c != ' ').map(|c| c == '1').collect()
}

fn carrier_with(pattern: &[bool], capacity: u32) -> PixelBuffer {
    let mut writer = BitWriter::new(PixelBuffer::new(capacity, 1, 1, vec![0; capacity as usize]).unwrap());
    writer.write_bits(pattern).unwrap();
    writer.into_buffer()
}

#[test]
fn frame_is_length_then_payload() {
    assert_eq!(
        encode_frame(b"hi"),
        Ok(bits("00000000 00000000 00000000 00000010 01101000 01101001"))
    );
    assert_eq!(encode_frame(&[]), Ok(bits("00000000 00000000 00000000 00000000")));
}

#[test]
fn frame_length_is_big_endian() {
    let payload = vec![0u8; 0x0102];
    let frame = encode_frame(&payload).unwrap();
    assert_eq!(frame.len(), 32 + 8 * 0x0102);
    assert_eq!(&frame[..32], bits("00000000 00000000 00000001 00000010").as_slice());
    assert!(frame[32..].iter().all(|bit| !bit));
}

#[test]
fn header_holds_lengths_up_to_32_bits() {
    assert_eq!(header_length(0), Ok(0));
    assert_eq!(header_length(2), Ok(2));
    assert_eq!(header_length(u32::MAX as usize), Ok(u32::MAX));
}

#[test]
fn header_refuses_a_length_beyond_32_bits() {
    assert_eq!(header_length(u32::MAX as usize + 1), Err(StegoError::PayloadTooLarge));
    assert_eq!(header_length(usize::MAX), Err(StegoError::PayloadTooLarge));
}

#[test]
fn decode_frame_reads_what_encode_frame_wrote() {
    let frame = encode_frame(&[0xDE, 0xAD, 0xBE, 0xEF]).unwrap();
    let carrier = carrier_with(&frame, 100);
    let mut reader = BitReader::new(&carrier);
    assert_eq!(decode_frame(&mut reader), Ok(vec![0xDE, 0xAD, 0xBE, 0xEF]));
    assert_eq!(reader.position(), 64);
}

#[test]
fn decode_frame_reads_an_empty_payload() {
    let carrier = PixelBuffer::new(32, 1, 1, vec![0; 32]).unwrap();
    let mut reader = BitReader::new(&carrier);
    assert_eq!(decode_frame(&mut reader), Ok(vec![]));
    assert_eq!(reader.position(), 32);
}

#[test]
fn decode_frame_reads_frames_one_after_another() {
    let mut both = encode_frame(b"ab").unwrap();
    both.extend(encode_frame(b"c").unwrap());
    let carrier = carrier_with(&both, 88);
    let mut reader = BitReader::new(&carrier);
    assert_eq!(decode_frame(&mut reader), Ok(b"ab".to_vec()));
    assert_eq!(reader.position(), 48);
    assert_eq!(decode_frame(&mut reader), Ok(b"c".to_vec()));
    assert_eq!(reader.position(), 88);
    assert_eq!(decode_frame(&mut reader), Err(StegoError::TruncatedFrame));
    assert_eq!(reader.position(), 88);
}

#[test]
fn decode_frame_fails_when_the_header_is_cut_short() {
    let carrier = PixelBuffer::new(31, 1, 1, vec![0; 31]).unwrap();
    let mut reader = BitReader::new(&carrier);
    assert_eq!(decode_frame(&mut reader), Err(StegoError::TruncatedFrame));
    assert_eq!(reader.position(), 0);
}

#[test]
fn decode_frame_fails_when_the_payload_is_cut_short() {
    let frame = encode_frame(b"abc").unwrap();
    let carrier = carrier_with(&frame[..55], 55);
    let mut reader = BitReader::new(&carrier);
    assert_eq!(decode_frame(&mut reader), Err(StegoError::TruncatedFrame));
    assert_eq!(reader.position(), 32);
}

#[test]
fn decode_frame_fails_on_the_largest_declared_length() {
    let carrier = PixelBuffer::new(64, 1, 1, vec![0xFF; 64]).unwrap();
    let mut reader = BitReader::new(&carrier);
    assert_eq!(decode_frame(&mut reader), Err(StegoError::TruncatedFrame));
}
