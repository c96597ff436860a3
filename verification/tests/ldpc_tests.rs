use rustft8::bits::{pack_bits, unpack_bits};
use rustft8::consistency::ldpc_tables_consistent;
use rustft8::crc::ftx_add_crc;
use rustft8::encode::{encode174, ft8_encode, parity8};
use rustft8::ldpc::{ldpc_check, ldpc_decode};
use rustft8::pack::pack77;

#[test]
fn parity8_counts_bits_mod_two() {
    assert_eq!(parity8(0x00), 0);
    assert_eq!(parity8(0x01), 1);
    assert_eq!(parity8(0xFF), 0);
    assert_eq!(parity8(0x7F), 1);
    assert_eq!(parity8(0xA5), 0);
}

#[test]
fn pack_and_unpack_bits_round_trip() {
    let mut bits = [0u8; 174];
    for i in 0..91 {
        bits[i] = ((i * 7 + 3) % 2) as u8;
    }
    let mut packed = [0u8; 12];
    pack_bits(&bits, 91, &mut packed);
    let mut codeword = [0u8; 22];
    codeword[..12].copy_from_slice(&packed);
    let mut back = [0u8; 174];
    unpack_bits(&codeword, &mut back);
    for i in 0..91 {
        assert_eq!(back[i], bits[i]);
    }
}

fn codeword_bits_for(message: &str) -> [u8; 174] {
    let mut payload = [0u8; 12];
    assert_eq!(pack77(&String::from(message), &mut payload), 0);
    let mut a91 = [0u8; 12];
    ftx_add_crc(&payload, &mut a91);
    let mut codeword = [0u8; 22];
    encode174(&a91, &mut codeword);
    let mut bits = [0u8; 174];
    unpack_bits(&codeword, &mut bits);
    bits
}

#[test]
fn encoder_is_systematic() {
    let mut payload = [0u8; 12];
    assert_eq!(pack77(&String::from("CQ AA1ABC FN42"), &mut payload), 0);
    let mut a91 = [0u8; 12];
    ftx_add_crc(&payload, &mut a91);
    let mut codeword = [0u8; 22];
    encode174(&a91, &mut codeword);
    for i in 0..91 {
        let mbit = (a91[i / 8] >> (7 - i % 8)) & 1;
        let cbit = (codeword[i / 8] >> (7 - i % 8)) & 1;
        assert_eq!(mbit, cbit);
    }
}

#[test]
fn encoded_codewords_satisfy_every_parity_check() {
    for msg in ["CQ AA1ABC FN42", "W1AW K1ABC -05", "N0CALL 73", "KA1XYZ RRR TEST"] {
        let bits = codeword_bits_for(msg);
        assert_eq!(ldpc_check(&bits), 0);
    }
}

#[test]
fn clean_codewords_decode_without_iteration() {
    let bits = codeword_bits_for("CQ AA1ABC FN42");
    let mut llrs = [0i32; 174];
    for i in 0..174 {
        llrs[i] = if bits[i] == 1 { 4 } else { -4 };
    }
    let mut plain = [0u8; 174];
    let errors = ldpc_decode(&llrs, 0, &mut plain);
    assert_eq!(errors, 0);
    assert_eq!(plain, bits);
}

#[test]
fn single_bit_flips_are_corrected() {
    let bits = codeword_bits_for("W1AW K1ABC -05");
    for flip in 0..174 {
        let mut llrs = [0i32; 174];
        for i in 0..174 {
            let b = if i == flip { 1 - bits[i] } else { bits[i] };
            llrs[i] = if b == 1 { 4 } else { -4 };
        }
        let mut plain = [0u8; 174];
        let errors = ldpc_decode(&llrs, 20, &mut plain);
        assert_eq!(errors, 0, "flip at {flip}");
        assert_eq!(plain, bits, "flip at {flip}");
    }
}

#[test]
fn tone_sequence_has_costas_blocks() {
    let mut payload = [0u8; 12];
    assert_eq!(pack77(&String::from("CQ AA1ABC FN42"), &mut payload), 0);
    let mut tones = [0usize; 79];
    ft8_encode(&payload, &mut tones);
    let costas = [3, 1, 4, 0, 6, 5, 2];
    for k in 0..7 {
        assert_eq!(tones[k], costas[k]);
        assert_eq!(tones[36 + k], costas[k]);
        assert_eq!(tones[72 + k], costas[k]);
    }
    for t in tones.iter() {
        assert!(*t < 8);
    }
}

#[test]
fn parity_tables_agree_on_every_basis_message() {
    assert!(ldpc_tables_consistent());
}
