//! Core of an FT8 transceiver: message packing and unpacking, CRC-14,
//! systematic LDPC encoding and decoding, spectrogram candidate search,
//! and soft-symbol extraction, all with verified contracts.
pub mod bits;
pub mod consistency;
pub mod constants;
pub mod crc;
pub mod decode;
pub mod encode;
pub mod laws;
pub mod ldpc;
pub mod pack;
pub mod peg;
pub mod sync;
pub mod tanner;
pub mod text;
pub mod unpack;
pub mod waterfall;
