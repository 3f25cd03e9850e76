use donp::checksum::{Checksum, ChecksumKind};
use donp::conversion::Conversion;
use donp::encoder::{encode_value, random_bytes};
use donp::simulation::Simulation;

fn hex() -> Conversion {
    Conversion::new("hex")
}

fn ascii() -> Conversion {
    Conversion::new("ascii")
}

#[test]
fn crc16_matches_the_modbus_vector() {
    let checksum = Checksum::new("crc16", &hex());
    let data = vec![0x01, 0x03, 0x00, 0x00, 0x00, 0x01];
    let crc = checksum.calculate_crc16(&data);
    assert_eq!(crc, 0x840A);
    assert_eq!(encode_value(crc as u64, 2), vec![0x84, 0x0A]);
    assert_eq!(checksum.calculate_checksum(&data, ""), 0x840A);
}

#[test]
fn crc16_of_nothing_is_the_initial_register() {
    let checksum = Checksum::new("crc16", &hex());
    assert_eq!(checksum.calculate_crc16(&vec![]), 0xFFFF);
}

#[test]
fn crc16_second_vector() {
    let checksum = Checksum::new("crc16", &hex());
    // 11 03 00 6B 00 03 goes on the wire with 76 87 behind it
    let crc = checksum.calculate_crc16(&vec![0x11, 0x03, 0x00, 0x6B, 0x00, 0x03]);
    assert_eq!(crc, 0x7687);
}

#[test]
fn lrc_is_the_twos_complement_of_the_sum() {
    let checksum = Checksum::new("lrc", &hex());
    assert_eq!(checksum.calculate_lrc(&vec![0x01, 0x02, 0x03]), 0xFA);
    assert_eq!(checksum.calculate_lrc(&vec![]), 0);
    assert_eq!(checksum.calculate_lrc(&vec![0xFF, 0x01]), 0);
    assert_eq!(checksum.calculate_lrc(&vec![0x80, 0x80, 0x01]), 0xFF);
}

#[test]
fn checksum_skips_the_prefix() {
    let checksum = Checksum::new("lrc", &hex());
    assert_eq!(checksum.calculate_checksum(&vec![b':', 0x01, 0x02, 0x03], ":"), 0xFA);
    assert_eq!(checksum.calculate_checksum(&vec![0x01], ":::"), 0);
}

#[test]
fn checksum_name_is_read_in_any_case() {
    assert_eq!(Checksum::new("LRC", &hex()).get_size_of_checksum(), 1);
    assert_eq!(Checksum::new("Crc16", &hex()).get_size_of_checksum(), 2);
    assert_eq!(Checksum::new("crc32", &hex()).get_size_of_checksum(), 0);
    assert_eq!(Checksum::new("", &hex()).get_size_of_checksum(), 0);
    assert_eq!(Checksum::default().get_size_of_checksum(), 0);
}

#[test]
fn kind_from_lowercase_name() {
    assert_eq!(ChecksumKind::from_lowercase("lrc"), ChecksumKind::Lrc);
    assert_eq!(ChecksumKind::from_lowercase("crc16"), ChecksumKind::Crc16);
    assert_eq!(ChecksumKind::from_lowercase("LRC"), ChecksumKind::Unknown);
    assert_eq!(Checksum::with_kind(ChecksumKind::Lrc, &hex()).get_size_of_checksum(), 1);
}

#[test]
fn unknown_kind_computes_zero() {
    let checksum = Checksum::new("none", &hex());
    assert_eq!(checksum.calculate_checksum(&vec![1, 2, 3], ""), 0);
}

#[test]
fn validation_accepts_a_checksummed_message_and_does_so_again() {
    let checksum = Checksum::new("crc16", &hex());
    let message = vec![0x01, 0x03, 0x00, 0x00, 0x00, 0x01, 0x84, 0x0A];
    let copy = message.clone();
    assert!(checksum.validate_checksum_in_message(&message, "", ""));
    assert_eq!(message, copy);
    assert!(checksum.validate_checksum_in_message(&message, "", ""));
}

#[test]
fn validation_rejects_a_wrong_checksum_and_does_so_again() {
    let checksum = Checksum::new("crc16", &hex());
    let message = vec![0x01, 0x03, 0x00, 0x00, 0x00, 0x01, 0x0A, 0x84];
    assert!(!checksum.validate_checksum_in_message(&message, "", ""));
    assert!(!checksum.validate_checksum_in_message(&message, "", ""));
}

#[test]
fn validation_finds_the_checksum_before_the_suffix() {
    let checksum = Checksum::new("lrc", &hex());
    let message = vec![b':', 0x01, 0x02, 0x03, 0xFA, b'\r', b'\n'];
    assert!(checksum.validate_checksum_in_message(&message, ":", "\r\n"));
    let wrong = vec![b':', 0x01, 0x02, 0x03, 0xFB, b'\r', b'\n'];
    assert!(!checksum.validate_checksum_in_message(&wrong, ":", "\r\n"));
}

#[test]
fn validation_of_a_message_too_short_fails() {
    let checksum = Checksum::new("crc16", &hex());
    assert!(!checksum.validate_checksum_in_message(&vec![0x01], "", ""));
    assert!(!checksum.validate_checksum_in_message(&vec![b'\r', b'\n', 0x00], "", "\r\n"));
}

#[test]
fn validation_in_ascii_mode_decodes_first() {
    let conversion = ascii();
    let checksum = Checksum::new("lrc", &conversion);
    let canonical = vec![b':', 0x01, 0x02, 0x03, 0xFA, b'\r', b'\n'];
    let wire = conversion.get_converted_message(&canonical, ":", "\r\n");
    assert_eq!(wire, b"3A010203FA0D0A".to_vec());
    assert!(checksum.validate_checksum_in_message(&wire, ":", "\r\n"));
}

#[test]
fn extracting_the_embedded_checksum() {
    let crc = Checksum::new("crc16", &hex());
    assert_eq!(crc.get_checksum_from_byte_array(&vec![0x05, 0x03, 0x12, 0x34], ""), 0x1234);
    let lrc = Checksum::new("lrc", &hex());
    assert_eq!(lrc.get_checksum_from_byte_array(&vec![0x05, 0x03, 0x12, b'\n'], "\n"), 0x12);
}

#[test]
fn ascii_encoding_spells_each_byte_in_hex() {
    let conversion = ascii();
    assert_eq!(conversion.from_hex_to_ascii(&vec![0x00, 0x1F, 0xA0, 0xFF], "", ""), b"001FA0FF".to_vec());
    assert_eq!(conversion.from_hex_to_ascii(&vec![b':'], ":", ""), b"3A".to_vec());
    assert_eq!(conversion.from_hex_to_ascii(&vec![], ":", "\r\n"), Vec::<u8>::new());
}

#[test]
fn ascii_round_trip() {
    let conversion = ascii();
    let buffer: Vec<u8> = (0..=255).collect();
    let wire = conversion.from_hex_to_ascii(&buffer, ":", "\r\n");
    assert_eq!(wire.len(), 512);
    assert_eq!(conversion.from_ascii_to_hex(&wire, ":", "\r\n"), buffer);
}

#[test]
fn ascii_round_trip_fails_where_a_digit_is_a_framing_byte() {
    let conversion = ascii();
    let wire = conversion.from_hex_to_ascii(&vec![0xA1, 0x02], "A", "");
    assert_eq!(wire, b"A102".to_vec());
    // the leading 'A' passes as a literal byte of the prefix
    assert_eq!(conversion.from_ascii_to_hex(&wire, "A", ""), vec![b'A', 0x10]);
}

#[test]
fn ascii_decoding_passes_framing_and_takes_either_case() {
    let conversion = ascii();
    assert_eq!(conversion.from_ascii_to_hex(&b":0aFf\r\n".to_vec(), ":", "\r\n"), vec![b':', 0x0A, 0xFF, b'\r', b'\n']);
}

#[test]
fn ascii_decoding_drops_what_it_cannot_read() {
    let conversion = ascii();
    assert_eq!(conversion.from_ascii_to_hex(&b"0G1".to_vec(), "", ""), Vec::<u8>::new());
    assert_eq!(conversion.from_ascii_to_hex(&b"zz41".to_vec(), "", ""), vec![0x41]);
    assert_eq!(conversion.from_ascii_to_hex(&b"4:1".to_vec(), ":", ""), Vec::<u8>::new());
}

#[test]
fn hex_digits_are_recognised() {
    let conversion = hex();
    for b in 0..=255u8 {
        assert_eq!(conversion.is_ascii(b), (b as char).is_ascii_hexdigit());
    }
}

#[test]
fn framing_bytes_are_allowed_in_their_windows() {
    let conversion = ascii();
    assert!(conversion.is_allowed(b':', ":", "\r\n", 0, 10));
    assert!(!conversion.is_allowed(b':', ":", "\r\n", 1, 10));
    assert!(conversion.is_allowed(b'\r', ":", "\r\n", 8, 10));
    assert!(conversion.is_allowed(b'\n', ":", "\r\n", 9, 10));
    assert!(!conversion.is_allowed(b'\n', ":", "\r\n", 7, 10));
    assert!(!conversion.is_allowed(b'x', ":", "\r\n", 0, 10));
    assert!(!conversion.is_allowed(0xBA, ":", "\r\n", 0, 10));
    assert!(conversion.is_allowed(b':', ":", "", -1, 10));
}

#[test]
fn modes_other_than_ascii_leave_messages_alone() {
    let message = vec![0x01, b'4', b'1', 0xFF];
    for mode in ["hex", "", "ASCII", "binary"] {
        let conversion = Conversion::new(mode);
        assert_eq!(conversion.get_mode(), mode);
        assert_eq!(conversion.get_hex_message(&message, "", ""), message);
        assert_eq!(conversion.get_converted_message(&message, "", ""), message);
    }
    assert_eq!(ascii().get_hex_message(&b"41".to_vec(), "", ""), vec![0x41]);
    assert_eq!(ascii().get_converted_message(&vec![0x41], "", ""), b"41".to_vec());
    assert_eq!(ascii().clone().get_mode(), "ascii");
    assert_eq!(Conversion::default().get_mode(), "");
}

#[test]
fn display_shows_hex_digits() {
    assert_eq!(hex().display(&vec![0x05, 0x03, 0xAB], "", ""), "0503AB");
    assert_eq!(ascii().display(&b"0503ab".to_vec(), "", ""), "0503AB");
    assert_eq!(hex().display(&vec![], "", ""), "");
}

#[test]
fn a_value_too_wide_keeps_its_low_bytes() {
    assert_eq!(encode_value(0x1FF, 1), vec![0xFF]);
    assert_eq!(encode_value(0x0102_0304, 2), vec![0x03, 0x04]);
}

#[test]
fn values_are_encoded_big_endian() {
    assert_eq!(encode_value(0x0102, 2), vec![0x01, 0x02]);
    assert_eq!(encode_value(5, 4), vec![0, 0, 0, 5]);
    assert_eq!(encode_value(7, 0), Vec::<u8>::new());
    assert_eq!(
        encode_value(u64::MAX, 10),
        vec![0, 0, 0xFF, 0xFF, 0xFF, 0xFF, 0xFF, 0xFF, 0xFF, 0xFF]
    );
}

#[test]
fn filler_has_the_length_asked_for() {
    assert_eq!(random_bytes(0).len(), 0);
    assert_eq!(random_bytes(17).len(), 17);
    let a = random_bytes(64);
    let b = random_bytes(64);
    assert_ne!(a, b);
}

#[test]
fn simulation_needs_both_buffers() {
    let simulation = Simulation::new(&hex());
    assert!(simulation.simulate_transaction(&vec![1], &vec![2]));
    assert!(!simulation.simulate_transaction(&vec![], &vec![2]));
    assert!(!simulation.simulate_transaction(&vec![1], &vec![]));
    assert!(!simulation.simulate_transaction(&vec![], &vec![]));
    assert!(simulation.simulate_transmit(&vec![0]));
    assert!(!simulation.simulate_receive(&vec![]));
    assert!(!Simulation::default().clone().simulate_transaction(&vec![], &vec![1]));
}
