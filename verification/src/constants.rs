//! Fixed tables of the FT8 code: LDPC generator and parity-check adjacency,
//! Costas synchronization pattern, Gray tone map, and CRC parameters.
use vstd::prelude::*;

verus! {

/// Number of bits in the CRC checksum.
pub const FT8_CRC_WIDTH: usize = 14;

/// CRC polynomial (degree-14, without the leading term).
pub const FT8_CRC_POLYNOMIAL: u16 = 0x2757;

/// Number of message bits protected by the LDPC code (payload + CRC).
pub const FTX_LDPC_K: usize = 91;

/// Number of parity checks.
pub const FTX_LDPC_M: usize = 83;

/// Number of bits in a codeword.
pub const FTX_LDPC_N: usize = 174;

/// Bytes that hold the 91 message bits.
pub const FTX_LDPC_K_BYTES: usize = 12;

/// Bytes that hold the 174 codeword bits.
pub const FTX_LDPC_N_BYTES: usize = 22;

/// Symbols in one FT8 transmission.
pub const FT8_NN: usize = 79;

/// Data symbols in one transmission (codeword bits / 3).
pub const FT8_ND: usize = 58;

/// Number of Costas blocks per transmission.
pub const FT8_NUM_SYNC: usize = 3;

/// Symbols in one Costas block.
pub const FT8_LENGTH_SYNC: usize = 7;

/// Symbol distance between the starts of consecutive Costas blocks.
pub const FT8_SYNC_OFFSET: usize = 36;

/// The Costas synchronization pattern.
pub const FT8_COSTAS_PATTERN: [usize; 7] = [3, 1, 4, 0, 6, 5, 2];

/// Gray map from 3-bit symbol values to tones; adjacent tones differ in one bit.
pub const FT8_GRAY_MAP: [usize; 8] = [0, 1, 3, 2, 5, 6, 4, 7];

/// Generator matrix: row i gives parity bit i as a mask over the 91 message
/// bits, packed MSB-first into 12 bytes.
pub const FTX_LDPC_GENERATOR: [[u8; 12]; 83] = [
    [0xeb, 0x47, 0xd3, 0xa6, 0x78, 0x1d, 0xc2, 0xb4, 0x6e, 0xc9, 0x14, 0x80],
    [0x00, 0x40, 0x10, 0x10, 0x00, 0x00, 0x50, 0x04, 0x01, 0x41, 0x04, 0x60],
    [0x59, 0x7d, 0xab, 0xbf, 0x31, 0x84, 0xfa, 0xb3, 0xe0, 0x08, 0x92, 0x40],
    [0xc6, 0x72, 0xb0, 0x91, 0x6b, 0x9f, 0xbf, 0x38, 0x8f, 0x87, 0xbb, 0x20],
    [0x00, 0x00, 0x02, 0x30, 0x28, 0x00, 0x50, 0x00, 0x05, 0x00, 0x00, 0x20],
    [0xf0, 0x73, 0xd1, 0xff, 0x87, 0xe2, 0xd7, 0x83, 0xc6, 0x39, 0x37, 0xe0],
    [0x37, 0xee, 0x94, 0x2c, 0x86, 0xbf, 0x10, 0x9b, 0x87, 0x5b, 0x91, 0xa0],
    [0xff, 0x6a, 0x9c, 0x8f, 0xec, 0x7a, 0xd3, 0x02, 0x24, 0xa5, 0xfb, 0xc0],
    [0x58, 0xd3, 0x49, 0x84, 0xdc, 0x95, 0xd1, 0xec, 0xca, 0x38, 0x93, 0x60],
    [0x02, 0x04, 0x00, 0x00, 0x00, 0x00, 0x00, 0x00, 0x02, 0x40, 0x08, 0x00],
    [0x06, 0xd0, 0x12, 0xd0, 0xf5, 0x37, 0xa1, 0x03, 0x08, 0x71, 0x8d, 0xc0],
    [0x94, 0x04, 0x03, 0x09, 0x38, 0xad, 0xc0, 0x70, 0x22, 0x56, 0xb6, 0x20],
    [0x70, 0x7a, 0x8e, 0x1a, 0x29, 0x9d, 0x94, 0x7a, 0x10, 0x8c, 0x25, 0x80],
    [0x5b, 0xc8, 0x5e, 0x42, 0xa5, 0x79, 0xa9, 0x87, 0xe7, 0x59, 0x9b, 0x00],
    [0x00, 0x00, 0x00, 0x40, 0x41, 0x00, 0x00, 0x80, 0x00, 0x01, 0x00, 0x00],
    [0x80, 0x40, 0x04, 0x00, 0x00, 0x00, 0x00, 0x23, 0x20, 0x20, 0x20, 0x00],
    [0x5f, 0x03, 0xa3, 0xb2, 0x15, 0x54, 0x7a, 0xe8, 0x57, 0xb4, 0x35, 0x60],
    [0xf5, 0xf1, 0xf4, 0xee, 0xab, 0x18, 0xc7, 0x36, 0x00, 0x41, 0x23, 0xe0],
    [0xb1, 0x71, 0xa3, 0xef, 0x87, 0xe2, 0x84, 0x87, 0xd7, 0x70, 0x31, 0x80],
    [0xe8, 0x04, 0xd7, 0x97, 0x66, 0x85, 0x1e, 0x1c, 0xcf, 0xd7, 0xdd, 0x60],
    [0xe4, 0x99, 0x59, 0x0e, 0x21, 0x97, 0x17, 0xd1, 0xf5, 0xab, 0x32, 0x20],
    [0x16, 0xd5, 0xd6, 0xbc, 0xb1, 0x1e, 0xf2, 0xaf, 0x30, 0xbb, 0xe8, 0x60],
    [0xff, 0x42, 0x9d, 0x8f, 0xec, 0x7a, 0xd3, 0x0a, 0x24, 0xa5, 0xfb, 0xc0],
    [0x0b, 0x13, 0x54, 0x21, 0x3a, 0x98, 0x8c, 0x2d, 0xa2, 0x5f, 0xce, 0x80],
    [0xe4, 0xc9, 0x59, 0x26, 0x24, 0xc7, 0x55, 0xc5, 0xb1, 0xa3, 0x02, 0x20],
    [0xdf, 0x43, 0xa5, 0xb2, 0x17, 0x54, 0x7a, 0xcb, 0x77, 0x94, 0x1d, 0x60],
    [0x77, 0x9b, 0x7e, 0x19, 0x02, 0x4e, 0xe0, 0xf5, 0x35, 0xeb, 0x36, 0x40],
    [0x5e, 0x11, 0xde, 0x1f, 0xdb, 0xda, 0x31, 0x16, 0xb2, 0x65, 0x82, 0x00],
    [0xb1, 0x71, 0x81, 0xef, 0x87, 0xe2, 0x84, 0x87, 0xc7, 0x78, 0x31, 0x80],
    [0x8e, 0x42, 0x59, 0x84, 0x71, 0xd1, 0xc8, 0xe6, 0x16, 0x9b, 0x4b, 0xe0],
    [0x00, 0x50, 0x10, 0x00, 0x01, 0x00, 0x00, 0x04, 0x44, 0x00, 0x20, 0x40],
    [0x80, 0x09, 0x5f, 0xf5, 0xae, 0x7f, 0x43, 0xf9, 0x96, 0x35, 0x12, 0x60],
    [0xca, 0x15, 0xdd, 0x17, 0xe3, 0x77, 0xf1, 0x66, 0x92, 0x13, 0x34, 0x20],
    [0xca, 0x2f, 0xbd, 0xe8, 0x00, 0x63, 0x8b, 0xbd, 0x6d, 0x0b, 0x25, 0x80],
    [0xb5, 0xa0, 0x75, 0xd3, 0x2e, 0xfd, 0x72, 0x28, 0xed, 0x8b, 0xf1, 0x60],
    [0x31, 0xa6, 0xc1, 0x0b, 0x9d, 0xab, 0x6a, 0xd2, 0x72, 0x3e, 0xa0, 0x80],
    [0x00, 0x00, 0x00, 0x10, 0x00, 0x00, 0x50, 0x00, 0x05, 0x00, 0x00, 0x20],
    [0xa1, 0x71, 0xa3, 0xed, 0x8f, 0xe3, 0x84, 0x87, 0xd7, 0x70, 0x31, 0x00],
    [0x4e, 0xc4, 0x5c, 0x4b, 0x2d, 0xdd, 0xe9, 0xb7, 0x45, 0x0f, 0x2d, 0x20],
    [0x00, 0x40, 0x10, 0x00, 0x00, 0x00, 0x00, 0x04, 0x04, 0x00, 0x00, 0x40],
    [0xce, 0x42, 0x59, 0x84, 0x71, 0xd1, 0xc8, 0xf4, 0x56, 0x9b, 0x0b, 0xe0],
    [0xfe, 0x9f, 0x8b, 0xbb, 0x26, 0x4d, 0x41, 0x67, 0x9e, 0x34, 0x44, 0x00],
    [0xff, 0x6e, 0x9c, 0x8f, 0xec, 0x7a, 0xe2, 0x06, 0x24, 0xb5, 0xab, 0x40],
    [0xaa, 0xf2, 0xd7, 0x5c, 0xbe, 0x4c, 0xb9, 0xde, 0xd7, 0xf5, 0x16, 0x80],
    [0x1e, 0xa1, 0xba, 0x2e, 0xe4, 0xcb, 0xca, 0x98, 0x9c, 0xc9, 0xa1, 0x60],
    [0xe4, 0xc9, 0x59, 0x06, 0x24, 0x97, 0x55, 0xc5, 0xb1, 0xab, 0x02, 0x20],
    [0x4c, 0x4b, 0x02, 0x71, 0xdf, 0xae, 0x8b, 0x0d, 0xc0, 0x8e, 0x19, 0x80],
    [0x08, 0x40, 0x10, 0x10, 0x04, 0x00, 0x50, 0x04, 0x01, 0x41, 0x07, 0x60],
    [0x1e, 0xa0, 0xba, 0x66, 0xec, 0xc9, 0xfa, 0x90, 0x9c, 0xc9, 0xa1, 0x60],
    [0xfb, 0xb4, 0xf7, 0x40, 0xa8, 0x39, 0x6d, 0x38, 0x93, 0xfb, 0x1c, 0xa0],
    [0xe5, 0x14, 0x4d, 0x22, 0x46, 0xf0, 0x97, 0xa8, 0x0e, 0x32, 0xbd, 0xc0],
    [0x7f, 0x69, 0xe2, 0x3b, 0x13, 0x05, 0x98, 0x53, 0xb2, 0xd3, 0xe9, 0x20],
    [0x00, 0x02, 0x00, 0x00, 0x10, 0x00, 0x08, 0x00, 0x00, 0x40, 0x00, 0x80],
    [0xe4, 0xc9, 0x59, 0x0e, 0x24, 0x97, 0x57, 0xd5, 0xb1, 0xab, 0x02, 0x60],
    [0x1e, 0x80, 0xba, 0x66, 0xec, 0xc1, 0xfb, 0x90, 0x8c, 0xc9, 0xa1, 0x60],
    [0x08, 0x02, 0x00, 0x00, 0x12, 0x00, 0x28, 0x00, 0x00, 0x40, 0x00, 0xc0],
    [0x00, 0x04, 0x00, 0x00, 0x00, 0x00, 0x20, 0x04, 0x00, 0x00, 0x50, 0x00],
    [0x4a, 0xc4, 0x54, 0xeb, 0x2d, 0xdd, 0xe9, 0xb7, 0x45, 0x0f, 0x2d, 0x20],
    [0xb5, 0xa0, 0x75, 0x51, 0x2e, 0xfd, 0x72, 0x28, 0xe5, 0x8b, 0xd1, 0x60],
    [0x1e, 0xa1, 0xba, 0x26, 0xec, 0xcb, 0xfa, 0x98, 0x9c, 0xc9, 0xa1, 0x60],
    [0xf1, 0x33, 0x91, 0xff, 0x87, 0xe2, 0xd6, 0x83, 0xc6, 0x39, 0x35, 0xe0],
    [0xe1, 0xb8, 0xa5, 0x21, 0x44, 0xc0, 0x3d, 0x6c, 0x8b, 0x3e, 0x6a, 0x00],
    [0x5f, 0x69, 0xe2, 0x3b, 0x53, 0x45, 0x98, 0x53, 0xb2, 0xd3, 0xf9, 0x20],
    [0x7b, 0x69, 0xc2, 0x3b, 0x13, 0x05, 0x98, 0x57, 0xb2, 0xd3, 0xeb, 0x00],
    [0x31, 0x24, 0xc5, 0x0b, 0x9d, 0xab, 0x6a, 0xd2, 0x72, 0x2e, 0xa0, 0xa0],
    [0x80, 0x40, 0x00, 0x00, 0x00, 0x00, 0x00, 0x20, 0x20, 0x20, 0x00, 0x00],
    [0xc2, 0x29, 0xbd, 0xe8, 0x12, 0x63, 0x29, 0xbf, 0x65, 0x4b, 0x24, 0x40],
    [0xa8, 0x3c, 0xaa, 0xac, 0x4e, 0x41, 0x6e, 0xb1, 0xe5, 0x5e, 0xf0, 0xe0],
    [0x15, 0x71, 0xfc, 0x2f, 0xe0, 0x57, 0x6a, 0xb9, 0x3a, 0x97, 0xe8, 0x60],
    [0xe2, 0x49, 0x4a, 0xde, 0xd4, 0xa0, 0xb6, 0x52, 0xf5, 0xda, 0xbf, 0xe0],
    [0x3d, 0x5b, 0x76, 0x38, 0x78, 0x8a, 0x27, 0x4c, 0x9d, 0x74, 0x74, 0x20],
    [0x39, 0x1c, 0x2c, 0x1f, 0x87, 0xa1, 0x5d, 0x3e, 0xab, 0x32, 0x10, 0x60],
    [0xce, 0xcc, 0x5c, 0x4b, 0xad, 0xdc, 0xe9, 0xb7, 0x45, 0x0f, 0x2d, 0x20],
    [0xff, 0x42, 0xbd, 0xce, 0xad, 0x7a, 0xd3, 0x8a, 0x24, 0xa6, 0xfb, 0xc0],
    [0x08, 0x50, 0x50, 0x10, 0x24, 0x00, 0x50, 0x84, 0x01, 0x41, 0x07, 0x60],
    [0x1d, 0x31, 0xee, 0x0f, 0xcc, 0xd7, 0x6a, 0xb5, 0x3e, 0xd6, 0xef, 0x20],
    [0x16, 0x23, 0xba, 0x2e, 0xf6, 0x4b, 0xe2, 0x98, 0x9c, 0x89, 0x21, 0xa0],
    [0xc6, 0x72, 0xb0, 0x01, 0x6b, 0x8f, 0xbf, 0x38, 0x0f, 0x87, 0xbb, 0x20],
    [0x5a, 0xc8, 0x5e, 0x42, 0x95, 0x79, 0xa9, 0xc7, 0xe7, 0x59, 0x9b, 0x00],
    [0xaa, 0x39, 0xaa, 0xac, 0x0e, 0x41, 0x6e, 0xb1, 0xe7, 0x1a, 0xb8, 0xe0],
    [0x0f, 0x80, 0xba, 0x26, 0xec, 0xc1, 0xfb, 0x80, 0x8c, 0xc9, 0xa1, 0x60],
    [0x4b, 0x47, 0x26, 0xbf, 0x2f, 0xd9, 0xba, 0xbb, 0x55, 0xc2, 0x2b, 0x40],
    [0x08, 0x06, 0x00, 0x00, 0x12, 0x00, 0xaa, 0x02, 0x00, 0x40, 0x00, 0xc0],
];

/// For each parity check, the 1-based indices of the codeword bits it covers;
/// zero entries pad rows shorter than seven.
pub const FTX_LDPC_NM: [[usize; 7]; 83] = [
    [24, 45, 49, 65, 103, 164, 170],
    [41, 61, 96, 139, 160, 167, 0],
    [1, 44, 94, 121, 122, 154, 174],
    [28, 66, 73, 97, 104, 123, 0],
    [32, 42, 46, 95, 134, 163, 0],
    [27, 42, 44, 77, 116, 137, 0],
    [19, 32, 79, 106, 114, 165, 0],
    [32, 71, 75, 103, 119, 124, 0],
    [2, 60, 63, 66, 82, 121, 132],
    [17, 54, 65, 108, 109, 135, 0],
    [7, 22, 75, 123, 132, 138, 0],
    [67, 73, 77, 94, 127, 135, 158],
    [36, 54, 101, 113, 129, 150, 0],
    [12, 18, 35, 57, 139, 166, 0],
    [6, 21, 25, 27, 130, 149, 0],
    [3, 17, 38, 102, 116, 162, 165],
    [4, 31, 37, 48, 89, 110, 129],
    [5, 100, 111, 113, 138, 161, 0],
    [70, 117, 118, 133, 138, 141, 153],
    [11, 13, 24, 61, 99, 114, 0],
    [64, 71, 92, 111, 115, 166, 0],
    [29, 55, 60, 90, 137, 145, 0],
    [26, 34, 40, 57, 80, 106, 0],
    [46, 73, 78, 110, 142, 149, 151],
    [28, 50, 52, 70, 72, 91, 128],
    [47, 92, 94, 112, 133, 159, 0],
    [5, 38, 87, 88, 93, 139, 0],
    [1, 10, 59, 67, 75, 157, 0],
    [41, 58, 104, 109, 164, 173, 0],
    [4, 8, 26, 60, 146, 172, 0],
    [12, 105, 106, 130, 154, 159, 161],
    [1, 13, 33, 48, 130, 164, 0],
    [29, 37, 51, 52, 136, 151, 0],
    [8, 35, 36, 58, 105, 170, 0],
    [16, 34, 78, 82, 101, 159, 171],
    [88, 95, 111, 135, 150, 156, 0],
    [6, 43, 79, 105, 109, 171, 0],
    [7, 14, 71, 74, 85, 101, 0],
    [2, 9, 47, 97, 141, 173, 0],
    [23, 27, 35, 37, 96, 128, 0],
    [6, 19, 62, 87, 91, 143, 155],
    [64, 124, 153, 163, 167, 172, 0],
    [30, 39, 72, 140, 141, 142, 0],
    [23, 39, 85, 107, 108, 117, 0],
    [86, 121, 125, 136, 148, 170, 0],
    [22, 63, 64, 83, 107, 157, 0],
    [20, 21, 49, 104, 115, 155, 0],
    [4, 33, 79, 81, 145, 153, 160],
    [16, 26, 47, 61, 140, 151, 0],
    [15, 36, 53, 74, 89, 144, 0],
    [13, 50, 59, 132, 134, 156, 0],
    [7, 29, 43, 125, 152, 163, 0],
    [12, 40, 66, 83, 122, 131, 0],
    [18, 30, 76, 92, 98, 146, 158],
    [11, 45, 56, 68, 140, 146, 0],
    [14, 49, 55, 63, 147, 174, 0],
    [25, 28, 44, 65, 95, 169, 0],
    [2, 15, 55, 93, 120, 152, 0],
    [53, 69, 88, 125, 158, 174, 0],
    [17, 30, 43, 81, 103, 117, 173],
    [45, 53, 85, 100, 137, 168, 171],
    [3, 58, 124, 126, 149, 160, 0],
    [14, 51, 62, 82, 84, 148, 0],
    [67, 80, 118, 119, 126, 129, 162],
    [8, 10, 18, 56, 87, 97, 152],
    [52, 56, 76, 89, 99, 134, 148],
    [3, 34, 42, 84, 143, 154, 0],
    [31, 86, 107, 155, 162, 169, 0],
    [40, 68, 78, 100, 108, 166, 172],
    [24, 57, 69, 102, 112, 161, 0],
    [9, 41, 81, 136, 147, 168, 0],
    [5, 39, 51, 90, 144, 147, 0],
    [48, 72, 98, 99, 113, 119, 157],
    [19, 23, 68, 77, 110, 120, 0],
    [9, 15, 22, 76, 91, 127, 156],
    [25, 31, 69, 83, 126, 150, 0],
    [74, 80, 86, 93, 128, 131, 0],
    [20, 38, 50, 84, 112, 122, 145],
    [33, 96, 114, 116, 133, 142, 0],
    [10, 20, 62, 70, 90, 131, 0],
    [21, 98, 102, 118, 120, 127, 169],
    [16, 46, 54, 115, 167, 168, 0],
    [11, 59, 123, 143, 144, 165, 0],
];

/// For each codeword bit, the 1-based indices of the three checks that cover it.
pub const FTX_LDPC_MN: [[usize; 3]; 174] = [
    [3, 28, 32],
    [9, 39, 58],
    [16, 62, 67],
    [17, 30, 48],
    [18, 27, 72],
    [15, 37, 41],
    [11, 38, 52],
    [30, 34, 65],
    [39, 71, 75],
    [28, 65, 80],
    [20, 55, 83],
    [14, 31, 53],
    [20, 32, 51],
    [38, 56, 63],
    [50, 58, 75],
    [35, 49, 82],
    [10, 16, 60],
    [14, 54, 65],
    [7, 41, 74],
    [47, 78, 80],
    [15, 47, 81],
    [11, 46, 75],
    [40, 44, 74],
    [1, 20, 70],
    [15, 57, 76],
    [23, 30, 49],
    [6, 15, 40],
    [4, 25, 57],
    [22, 33, 52],
    [43, 54, 60],
    [17, 68, 76],
    [5, 7, 8],
    [32, 48, 79],
    [23, 35, 67],
    [14, 34, 40],
    [13, 34, 50],
    [17, 33, 40],
    [16, 27, 78],
    [43, 44, 72],
    [23, 53, 69],
    [2, 29, 71],
    [5, 6, 67],
    [37, 52, 60],
    [3, 6, 57],
    [1, 55, 61],
    [5, 24, 82],
    [26, 39, 49],
    [17, 32, 73],
    [1, 47, 56],
    [25, 51, 78],
    [33, 63, 72],
    [25, 33, 66],
    [50, 59, 61],
    [10, 13, 82],
    [22, 56, 58],
    [55, 65, 66],
    [14, 23, 70],
    [29, 34, 62],
    [28, 51, 83],
    [9, 22, 30],
    [2, 20, 49],
    [41, 63, 80],
    [9, 46, 56],
    [21, 42, 46],
    [1, 10, 57],
    [4, 9, 53],
    [12, 28, 64],
    [55, 69, 74],
    [59, 70, 76],
    [19, 25, 80],
    [8, 21, 38],
    [25, 43, 73],
    [4, 12, 24],
    [38, 50, 77],
    [8, 11, 28],
    [54, 66, 75],
    [6, 12, 74],
    [24, 35, 69],
    [7, 37, 48],
    [23, 64, 77],
    [48, 60, 71],
    [9, 35, 63],
    [46, 53, 76],
    [63, 67, 78],
    [38, 44, 61],
    [45, 68, 77],
    [27, 41, 65],
    [27, 36, 59],
    [17, 50, 66],
    [22, 72, 80],
    [25, 41, 75],
    [21, 26, 54],
    [27, 58, 77],
    [3, 12, 26],
    [5, 36, 57],
    [2, 40, 79],
    [4, 39, 65],
    [54, 73, 81],
    [20, 66, 73],
    [18, 61, 69],
    [13, 35, 38],
    [16, 70, 81],
    [1, 8, 60],
    [4, 29, 47],
    [31, 34, 37],
    [7, 23, 31],
    [44, 46, 68],
    [10, 44, 69],
    [10, 29, 37],
    [17, 24, 74],
    [18, 21, 36],
    [26, 70, 78],
    [13, 18, 73],
    [7, 20, 79],
    [21, 47, 82],
    [6, 16, 79],
    [19, 44, 60],
    [19, 64, 81],
    [8, 64, 73],
    [58, 74, 81],
    [3, 9, 45],
    [3, 53, 78],
    [4, 11, 83],
    [8, 42, 62],
    [45, 52, 59],
    [62, 64, 76],
    [12, 75, 81],
    [25, 40, 77],
    [13, 17, 64],
    [15, 31, 32],
    [53, 77, 80],
    [9, 11, 51],
    [19, 26, 79],
    [5, 51, 66],
    [10, 12, 36],
    [33, 45, 71],
    [6, 22, 61],
    [11, 18, 19],
    [2, 14, 27],
    [43, 49, 55],
    [19, 39, 43],
    [24, 43, 79],
    [41, 67, 83],
    [50, 72, 83],
    [22, 48, 78],
    [30, 54, 55],
    [56, 71, 72],
    [45, 63, 66],
    [15, 24, 62],
    [13, 36, 76],
    [24, 33, 49],
    [52, 58, 65],
    [19, 42, 48],
    [3, 31, 67],
    [41, 47, 68],
    [36, 51, 75],
    [28, 46, 73],
    [12, 54, 59],
    [26, 31, 35],
    [2, 48, 62],
    [18, 31, 70],
    [16, 64, 68],
    [5, 42, 52],
    [1, 29, 32],
    [7, 16, 83],
    [14, 21, 69],
    [2, 42, 82],
    [61, 71, 82],
    [57, 68, 81],
    [1, 34, 45],
    [35, 37, 61],
    [30, 42, 69],
    [29, 39, 60],
    [3, 56, 59],
];

/// Number of codeword bits covered by each parity check (six or seven).
pub const FTX_LDPC_NUM_ROWS: [usize; 83] = [7, 6, 7, 6, 6, 6, 6, 6, 7, 6, 6, 7, 6, 6, 6, 7, 7, 6, 7, 6, 6, 6, 6, 7, 7, 6, 6, 6, 6, 6, 7, 6, 6, 6, 7, 6, 6, 6, 6, 6, 7, 6, 6, 6, 6, 6, 6, 7, 6, 6, 6, 6, 6, 7, 6, 6, 6, 6, 6, 7, 7, 6, 6, 7, 7, 7, 6, 6, 7, 6, 6, 6, 7, 6, 7, 6, 6, 7, 6, 6, 7, 6, 6];

} // verus!
