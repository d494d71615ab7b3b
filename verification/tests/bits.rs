use stego::bits::{bits_to_bytes, bytes_to_bits, get_lsb, set_lsb};

fn bits(pattern: &str) -> Vec<bool> {
    pattern.chars().filter(|c| *c != ' ').map(|c| c == '1').collect()
}

#[test]
fn lsb_of_even_and_odd_bytes() {
    assert!(!get_lsb(0));
    assert!(get_lsb(1));
    assert!(!get_lsb(0xFE));
    assert!(get_lsb(0xFF));
    assert!(get_lsb(3));
}

#[test]
fn set_lsb_touches_only_the_lowest_bit() {
    assert_eq!(set_lsb(0xFE, true), 0xFF);
    assert_eq!(set_lsb(0xFF, false), 0xFE);
    assert_eq!(set_lsb(0xFF, true), 0xFF);
    assert_eq!(set_lsb(0x00, false), 0x00);
    assert_eq!(set_lsb(0x00, true), 0x01);
    assert_eq!(set_lsb(0xA4, true), 0xA5);
    for byte in 0..=255u8 {
        for bit in [false, true] {
            let out = set_lsb(byte, bit);
            assert_eq!(out >> 1, byte >> 1);
            assert_eq!(get_lsb(out), bit);
        }
        assert_eq!(set_lsb(byte, get_lsb(byte)), byte);
    }
}

#[test]
fn bytes_expand_most_significant_bit_first() {
    assert_eq!(bytes_to_bits(&[0xA5]), bits("10100101"));
    assert_eq!(bytes_to_bits(&[0x80, 0x01]), bits("10000000 00000001"));
    assert_eq!(bytes_to_bits(b"hi"), bits("01101000 01101001"));
    assert_eq!(bytes_to_bits(&[]), Vec::<bool>::new());
}

#[test]
fn bits_regroup_into_bytes() {
    assert_eq!(bits_to_bytes(&bits("10100101")), vec![0xA5]);
    assert_eq!(bits_to_bytes(&bits("01101000 01101001")), b"hi".to_vec());
    assert_eq!(bits_to_bytes(&bits("11111111 00000000 00000001")), vec![0xFF, 0x00, 0x01]);
    assert_eq!(bits_to_bytes(&[]), Vec::<u8>::new());
}

#[test]
fn bits_beyond_the_last_full_byte_are_dropped() {
    assert_eq!(bits_to_bytes(&bits("1010010")), Vec::<u8>::new());
    assert_eq!(bits_to_bytes(&bits("10100101 1111")), vec![0xA5]);
}

#[test]
fn bytes_survive_expanding_and_regrouping() {
    let all: Vec<u8> = (0..=255u8).collect();
    let expanded = bytes_to_bits(&all);
    assert_eq!(expanded.len(), 8 * 256);
    assert_eq!(bits_to_bytes(&expanded), all);
}
