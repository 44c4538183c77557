use sdmmc_spi::proto::{crc16, crc7};

#[test]
fn crc7_of_a_register_dump() {
    let data: [u8; 15] = [
        0x00, 0x26, 0x00, 0x32, 0x5F, 0x59, 0x83, 0xC8, 0xAD, 0xDB, 0xCF, 0xFF, 0xD2, 0x40, 0x40,
    ];
    assert_eq!(crc7(&data), 0xA5);
}

#[test]
fn crc16_of_a_register_dump() {
    let data: [u8; 16] = [
        0x00, 0x26, 0x00, 0x32, 0x5F, 0x5A, 0x83, 0xAE, 0xFE, 0xFB, 0xCF, 0xFF, 0x92, 0x80, 0x40,
        0xDF,
    ];
    assert_eq!(crc16(&data), 0x9FC5);
}
