use stego::{decode, encode, read_bits, Payload, PayloadKind, PixelBuffer, StegoError};

fn bits(pattern: &str) -> Vec<bool> {
    pattern.chars().filter(|c| *c != ' ').map(|c| c == '1').collect()
}

fn carrier(width: u32, height: u32, channels: u8) -> PixelBuffer {
    let len = width as usize * height as usize * channels as usize;
    let data = (0..len).map(|i| (i * 37 + 11) as u8).collect();
    PixelBuffer::new(width, height, channels, data).unwrap()
}

#[test]
fn text_round_trip_in_a_carrier_of_ten_thousand_bits() {
    let carrier = carrier(50, 50, 4);
    assert_eq!(carrier.capacity_bits(), 10_000);
    let stego = encode(&carrier, &Payload::Text(String::from("hi"))).unwrap();
    assert_eq!(
        read_bits(&stego, 48),
        Ok(bits("00000000 00000000 00000000 00000010 01101000 01101001"))
    );
    assert_eq!(&stego.as_bytes()[48..], &carrier.as_bytes()[48..]);
    assert_eq!(decode(&stego, PayloadKind::Text), Ok(Payload::Text(String::from("hi"))));
}

#[test]
fn image_in_image_round_trip() {
    let carrier = carrier(10, 10, 3);
    let hidden = PixelBuffer::new(2, 2, 3, vec![1, 2, 3, 4, 5, 6, 7, 8, 9, 10, 11, 12]).unwrap();
    let payload = Payload::Image(hidden);
    assert_eq!(payload.to_bytes().len(), 4 + 4 + 1 + 12);
    let stego = encode(&carrier, &payload).unwrap();
    let frame_bits = 32 + 8 * 21;
    assert_eq!(frame_bits, 200);
    assert_eq!(&stego.as_bytes()[frame_bits..], &carrier.as_bytes()[frame_bits..]);
    assert_eq!(&read_bits(&stego, 32).unwrap()[24..], bits("00010101").as_slice());
    let found = decode(&stego, PayloadKind::Image).unwrap();
    assert_eq!(found, payload);
    match found {
        Payload::Image(image) => {
            assert_eq!(image.width(), 2);
            assert_eq!(image.height(), 2);
            assert_eq!(image.channels(), 3);
            assert_eq!(image.as_bytes(), &[1, 2, 3, 4, 5, 6, 7, 8, 9, 10, 11, 12]);
        }
        _ => panic!("an image was hidden"),
    }
}

#[test]
fn decoding_a_carrier_that_holds_nothing_is_truncated() {
    let plain = PixelBuffer::new(8, 8, 3, vec![0xFF; 192]).unwrap();
    assert_eq!(decode(&plain, PayloadKind::Text), Err(StegoError::TruncatedFrame));
    assert_eq!(decode(&plain, PayloadKind::Binary), Err(StegoError::TruncatedFrame));
    assert_eq!(decode(&plain, PayloadKind::Image), Err(StegoError::TruncatedFrame));
    let mut data = vec![0u8; 192];
    data[30] = 1;
    let short = PixelBuffer::new(8, 8, 3, data).unwrap();
    assert_eq!(decode(&short, PayloadKind::Text), Ok(Payload::Text(String::from("\0\0"))));
    let mut data = vec![0u8; 192];
    data[26] = 1;
    let declared_32 = PixelBuffer::new(8, 8, 3, data).unwrap();
    assert_eq!(decode(&declared_32, PayloadKind::Text), Err(StegoError::TruncatedFrame));
}

#[test]
fn decoding_a_carrier_too_small_for_a_header_is_truncated() {
    let tiny = PixelBuffer::new(3, 3, 3, vec![0; 27]).unwrap();
    assert_eq!(decode(&tiny, PayloadKind::Binary), Err(StegoError::TruncatedFrame));
    let empty = PixelBuffer::new(0, 0, 4, vec![]).unwrap();
    assert_eq!(decode(&empty, PayloadKind::Text), Err(StegoError::TruncatedFrame));
}

#[test]
fn binary_round_trip() {
    let carrier = carrier(16, 16, 4);
    let raw: Vec<u8> = (0..=99).map(|i| (i * 7) as u8).collect();
    let stego = encode(&carrier, &Payload::Binary(raw.clone())).unwrap();
    assert_eq!(decode(&stego, PayloadKind::Binary), Ok(Payload::Binary(raw)));
}

#[test]
fn binary_round_trip_of_every_length_that_fits() {
    let carrier = carrier(10, 10, 3);
    for len in 0..=33usize {
        let raw: Vec<u8> = (0..len).map(|i| (255 - i) as u8).collect();
        let stego = encode(&carrier, &Payload::Binary(raw.clone())).unwrap();
        assert_eq!(decode(&stego, PayloadKind::Binary), Ok(Payload::Binary(raw)));
    }
    assert_eq!(
        encode(&carrier, &Payload::Binary(vec![0; 34])),
        Err(StegoError::CapacityExceeded)
    );
}

#[test]
fn empty_payload_round_trip() {
    let carrier = carrier(8, 4, 1);
    assert_eq!(carrier.capacity_bits(), 32);
    let stego = encode(&carrier, &Payload::Binary(vec![])).unwrap();
    assert_eq!(decode(&stego, PayloadKind::Binary), Ok(Payload::Binary(vec![])));
    assert_eq!(decode(&stego, PayloadKind::Text), Ok(Payload::Text(String::new())));
}

#[test]
fn encode_changes_only_the_lowest_bit_of_the_frame_channels() {
    let carrier = carrier(12, 9, 3);
    let stego = encode(&carrier, &Payload::Binary(vec![0xFF, 0x00, 0xA5, 0x5A, 0x3C])).unwrap();
    let required = 32 + 8 * 5;
    assert_eq!(stego.width(), carrier.width());
    assert_eq!(stego.height(), carrier.height());
    assert_eq!(stego.channels(), carrier.channels());
    assert_eq!(stego.as_bytes().len(), carrier.as_bytes().len());
    for (i, (after, before)) in stego.as_bytes().iter().zip(carrier.as_bytes()).enumerate() {
        assert_eq!(after >> 1, before >> 1);
        if i >= required {
            assert_eq!(after, before);
        }
    }
}

#[test]
fn encode_leaves_the_carrier_as_it_was() {
    let carrier = carrier(6, 6, 4);
    let before = carrier.clone();
    let _ = encode(&carrier, &Payload::Binary(vec![0xFF; 10])).unwrap();
    assert_eq!(carrier, before);
    assert_eq!(encode(&carrier, &Payload::Binary(vec![0xFF; 100])), Err(StegoError::CapacityExceeded));
    assert_eq!(carrier, before);
}

#[test]
fn payload_that_fills_the_carrier_is_accepted() {
    let carrier = carrier(4, 4, 3);
    assert_eq!(carrier.capacity_bits(), 48);
    let stego = encode(&carrier, &Payload::Binary(vec![0xAB, 0xCD])).unwrap();
    assert_eq!(decode(&stego, PayloadKind::Binary), Ok(Payload::Binary(vec![0xAB, 0xCD])));
    let text = encode(&carrier, &Payload::Text(String::from("ok"))).unwrap();
    assert_eq!(decode(&text, PayloadKind::Text), Ok(Payload::Text(String::from("ok"))));
}

#[test]
fn payload_one_bit_too_large_is_refused() {
    let carrier = carrier(47, 1, 1);
    assert_eq!(carrier.capacity_bits(), 47);
    assert_eq!(
        encode(&carrier, &Payload::Binary(vec![0xAB, 0xCD])),
        Err(StegoError::CapacityExceeded)
    );
    let carrier = self::carrier(4, 4, 3);
    assert_eq!(
        encode(&carrier, &Payload::Binary(vec![1, 2, 3])),
        Err(StegoError::CapacityExceeded)
    );
    assert_eq!(
        encode(&carrier, &Payload::Text(String::from("abc"))),
        Err(StegoError::CapacityExceeded)
    );
}

#[test]
fn carrier_without_room_for_a_header_is_refused() {
    let carrier = carrier(31, 1, 1);
    assert_eq!(encode(&carrier, &Payload::Binary(vec![])), Err(StegoError::CapacityExceeded));
    let empty = PixelBuffer::new(0, 0, 3, vec![]).unwrap();
    assert_eq!(encode(&empty, &Payload::Text(String::new())), Err(StegoError::CapacityExceeded));
}

#[test]
fn decoding_twice_gives_the_same_payload() {
    let carrier = carrier(8, 8, 4);
    let stego = encode(&carrier, &Payload::Text(String::from("again"))).unwrap();
    let before = stego.clone();
    let first = decode(&stego, PayloadKind::Text);
    let second = decode(&stego, PayloadKind::Text);
    assert_eq!(first, second);
    assert_eq!(first, Ok(Payload::Text(String::from("again"))));
    assert_eq!(stego, before);
    let plain = PixelBuffer::new(2, 2, 3, vec![0xFF; 12]).unwrap();
    assert_eq!(decode(&plain, PayloadKind::Binary), decode(&plain, PayloadKind::Binary));
}

#[test]
fn encoding_twice_gives_the_same_carrier() {
    let carrier = carrier(8, 8, 4);
    let payload = Payload::Binary(vec![9, 8, 7]);
    assert_eq!(encode(&carrier, &payload), encode(&carrier, &payload));
    let stego = encode(&carrier, &payload).unwrap();
    assert_eq!(encode(&stego, &payload), Ok(stego));
}

#[test]
fn unicode_text_round_trip() {
    let carrier = carrier(20, 20, 3);
    let text = String::from("na\u{ef}ve \u{2603} \u{1f980}");
    let stego = encode(&carrier, &Payload::Text(text.clone())).unwrap();
    assert_eq!(decode(&stego, PayloadKind::Text), Ok(Payload::Text(text)));
}

#[test]
fn bytes_that_are_not_text_are_refused_as_text() {
    let carrier = carrier(10, 10, 3);
    let stego = encode(&carrier, &Payload::Binary(vec![0xFF, 0xFE, 0xFD])).unwrap();
    assert_eq!(decode(&stego, PayloadKind::Text), Err(StegoError::InvalidTextEncoding));
    assert_eq!(decode(&stego, PayloadKind::Binary), Ok(Payload::Binary(vec![0xFF, 0xFE, 0xFD])));
}

#[test]
fn bytes_that_are_no_image_are_refused_as_image() {
    let carrier = carrier(10, 10, 4);
    let stego = encode(&carrier, &Payload::Text(String::from("hi"))).unwrap();
    assert_eq!(decode(&stego, PayloadKind::Image), Err(StegoError::MalformedImagePayload));
    let cut = encode(&carrier, &Payload::Binary(vec![0, 0, 0, 2, 0, 0, 0, 2, 3, 1, 2, 3])).unwrap();
    assert_eq!(decode(&cut, PayloadKind::Image), Err(StegoError::MalformedImagePayload));
}

#[test]
fn image_is_read_as_binary_in_its_byte_form() {
    let carrier = carrier(10, 10, 4);
    let hidden = PixelBuffer::new(1, 2, 3, vec![9, 8, 7, 6, 5, 4]).unwrap();
    let stego = encode(&carrier, &Payload::Image(hidden)).unwrap();
    assert_eq!(
        decode(&stego, PayloadKind::Binary),
        Ok(Payload::Binary(vec![0, 0, 0, 1, 0, 0, 0, 2, 3, 9, 8, 7, 6, 5, 4]))
    );
}

#[test]
fn alpha_channel_carries_bits_when_there_is_one() {
    let rgb = PixelBuffer::new(2, 6, 3, vec![0; 36]).unwrap();
    let rgba = PixelBuffer::new(2, 6, 4, vec![0; 48]).unwrap();
    let payload = Payload::Binary(vec![0xFF, 0xFF]);
    assert_eq!(encode(&rgb, &payload), Err(StegoError::CapacityExceeded));
    let stego = encode(&rgba, &payload).unwrap();
    assert_eq!(stego.get(4, 0, 3), Some(1));
    assert_eq!(stego.get(5, 1, 3), Some(1));
    assert_eq!(decode(&stego, PayloadKind::Binary), Ok(payload));
}

#[test]
fn every_error_has_its_own_message() {
    assert_eq!(StegoError::CapacityExceeded.message(), "the payload does not fit the carrier");
    assert_eq!(
        StegoError::PayloadTooLarge.message(),
        "the payload is longer than a 32-bit length can say"
    );
    assert_eq!(StegoError::TruncatedFrame.message(), "the carrier ends before the hidden data does");
    assert_eq!(StegoError::InvalidTextEncoding.message(), "the hidden data is not valid UTF-8 text");
    assert_eq!(
        StegoError::MalformedImagePayload.message(),
        "the hidden data is too short for the image it declares"
    );
}
