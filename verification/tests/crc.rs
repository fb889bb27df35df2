use tinyboot::crc::{crc16, CRC_INIT};

#[test]
fn check_value() {
    assert_eq!(crc16(0xFFFF, b"123456789"), 0x29B1);
}

#[test]
fn incremental() {
    let mut crc = 0xFFFF;
    crc = crc16(crc, b"1234");
    crc = crc16(crc, b"56789");
    assert_eq!(crc, 0x29B1);
}

#[test]
fn crc_empty() {
    assert_eq!(crc16(0xFFFF, b""), 0xFFFF);
}

#[test]
fn single_byte() {
    // Known value: CRC16-CCITT of [0x00] with init 0xFFFF
    let crc = crc16(0xFFFF, &[0x00]);
    assert_eq!(crc, 0xE1F0);
}

#[test]
fn crc_init_is_all_ones() {
    assert_eq!(CRC_INIT, 0xFFFF);
}

#[test]
fn crc_split_anywhere_matches_whole() {
    let data = b"tinyboot firmware image";
    let whole = crc16(CRC_INIT, data);
    for cut in 0..=data.len() {
        let first = crc16(CRC_INIT, &data[..cut]);
        assert_eq!(crc16(first, &data[cut..]), whole);
    }
}

#[test]
fn crc_other_start_value() {
    // Starting from zero gives the XMODEM variant of the same polynomial.
    assert_eq!(crc16(0x0000, b"123456789"), 0x31C3);
}
