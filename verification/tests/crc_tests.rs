use rustft8::crc::{ftx_add_crc, ftx_compute_crc, ftx_extract_crc};

#[test]
fn crc_of_zero_buffer_is_zero() {
    let zeros = [0u8; 12];
    assert_eq!(ftx_compute_crc(&zeros, 82), 0);
}

#[test]
fn crc_of_sample_buffer() {
    let mut m = [
        0x12u8, 0x34, 0x56, 0x78, 0x9A, 0xBC, 0xDE, 0xF0, 0x11, 0x22, 0x00, 0x00,
    ];
    m[9] &= 0xF8;
    m[10] = 0;
    assert_eq!(ftx_compute_crc(&m, 82), 2013);
}

#[test]
fn extract_crc_reads_the_crc_field() {
    let mut a91 = [0u8; 12];
    a91[9] = 0x07;
    a91[10] = 0xFF;
    a91[11] = 0xE0;
    assert_eq!(ftx_extract_crc(&a91), 0x3FFF);
    let mut b = [0u8; 12];
    b[9] = 0x05;
    b[10] = 0x0F;
    b[11] = 0x20;
    assert_eq!(ftx_extract_crc(&b), (5 << 11) | (0x0F << 3) | 1);
}

#[test]
fn add_crc_round_trips_through_extract() {
    let payload = [
        0x12u8, 0x34, 0x56, 0x78, 0x9A, 0xBC, 0xDE, 0xF0, 0x11, 0x22, 0x00, 0x00,
    ];
    let mut a91 = [0u8; 12];
    ftx_add_crc(&payload, &mut a91);

    let mut zeroext = a91;
    zeroext[9] &= 0xF8;
    zeroext[10] = 0;
    zeroext[11] = 0;
    let recomputed = ftx_compute_crc(&zeroext, 82);
    assert_eq!(ftx_extract_crc(&a91), recomputed);
    assert_eq!(recomputed, 2013);
    for i in 0..9 {
        assert_eq!(a91[i], payload[i]);
    }
}
