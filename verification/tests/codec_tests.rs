use rustft8::pack::{chkcall, pack28, pack77, packgrid, MAXGRID4};
use rustft8::text::{char_index, charn, dd_to_int, in_range, int_to_dd, trim_str};
use rustft8::unpack::unpack77;

#[test]
fn charn_walks_the_alphabets() {
    assert_eq!(charn(0, 0), ' ');
    assert_eq!(charn(1, 0), '0');
    assert_eq!(charn(10, 0), '9');
    assert_eq!(charn(11, 0), 'A');
    assert_eq!(charn(36, 0), 'Z');
    assert_eq!(charn(37, 0), '+');
    assert_eq!(charn(41, 0), '?');
    assert_eq!(charn(0, 2), '0');
    assert_eq!(charn(35, 2), 'Z');
    assert_eq!(charn(9, 3), '9');
    assert_eq!(charn(0, 4), ' ');
    assert_eq!(charn(26, 4), 'Z');
    assert_eq!(charn(37, 5), '/');
}

#[test]
fn char_index_inverts_charn() {
    for t in 0u8..6 {
        let size = [42, 37, 36, 10, 27, 38][t as usize];
        for i in 0u8..size {
            let c = charn(i, t);
            assert_eq!(char_index(t, c), i as i32);
        }
    }
    assert_eq!(char_index(3, 'A'), -1);
    assert_eq!(char_index(1, '/'), -1);
}

#[test]
fn in_range_compares_ascii() {
    assert!(in_range('5', '0', '9'));
    assert!(!in_range('a', 'A', 'Z'));
    assert!(in_range('R', 'A', 'R'));
}

#[test]
fn int_to_dd_pads_to_width() {
    let mut s = String::new();
    int_to_dd(&mut s, -5, 2, true);
    assert_eq!(s, "-05");
    let mut s2 = String::new();
    int_to_dd(&mut s2, 7, 3, false);
    assert_eq!(s2, "007");
    let mut s3 = String::new();
    int_to_dd(&mut s3, 12, 2, true);
    assert_eq!(s3, "+12");
}

#[test]
fn dd_to_int_parses_signed_decimals() {
    assert_eq!(dd_to_int("-05"), -5);
    assert_eq!(dd_to_int("+99"), 99);
    assert_eq!(dd_to_int("42"), 42);
}

#[test]
fn trim_str_removes_outer_blanks() {
    assert_eq!(trim_str("  AB C  "), "AB C");
    assert_eq!(trim_str("   "), "");
    assert_eq!(trim_str("X"), "X");
}

#[test]
fn pack28_tokens_and_standard_calls() {
    assert_eq!(pack28("DE"), 0);
    assert_eq!(pack28("QRZ"), 1);
    assert_eq!(pack28("CQ"), 2);
    assert_eq!(pack28("AA1ABC"), 86191345);
    assert_eq!(pack28("W1AW"), 12577489);
    assert_eq!(pack28("ABCDEF"), -1);
    assert_eq!(pack28(""), -1);
}

#[test]
fn chkcall_length_rules() {
    assert!(chkcall("AA1ABC"));
    assert!(!chkcall("AA1ABCDEFGHI"));
    assert!(chkcall("PJ4/KA1ABC"));
    assert!(!chkcall("AABBCCD"));
}

#[test]
fn packgrid_forms() {
    assert_eq!(packgrid("RRR"), Some(MAXGRID4 + 2));
    assert_eq!(packgrid("RR73"), Some(MAXGRID4 + 3));
    assert_eq!(packgrid("73"), Some(MAXGRID4 + 4));
    assert_eq!(packgrid(" "), Some(MAXGRID4 + 1));
    assert_eq!(packgrid("FN42"), Some(10342));
    assert_eq!(packgrid("-05"), Some(MAXGRID4 + 30));
    assert_eq!(packgrid("+10"), Some(MAXGRID4 + 45));
    assert_eq!(packgrid("R+10"), Some((MAXGRID4 + 45) | 0x8000));
    assert_eq!(packgrid("-99"), None);
    assert_eq!(packgrid("XYZ"), None);
}

fn round_trip(msg: &str) -> String {
    let mut payload = [0u8; 12];
    let owned = String::from(msg);
    assert_eq!(pack77(&owned, &mut payload), 0);
    let mut text = String::new();
    assert_eq!(unpack77(&payload, &mut text), 0);
    text
}

#[test]
fn standard_messages_round_trip() {
    assert_eq!(round_trip("CQ AA1ABC FN42"), "CQ AA1ABC FN42");
    assert_eq!(round_trip("W1AW K1ABC -05"), "W1AW K1ABC -05");
    assert_eq!(round_trip("KA1XYZ W9XYZ RR73"), "KA1XYZ W9XYZ RR73");
    assert_eq!(round_trip("DE W1AW 73"), "DE W1AW 73");
    assert_eq!(round_trip("AA1ABC W1AW R+03"), "AA1ABC W1AW R+03");
}

#[test]
fn two_token_message_round_trips() {
    assert_eq!(round_trip("CQ AA1ABC"), "CQ AA1ABC");
}

#[test]
fn free_text_round_trips() {
    assert_eq!(round_trip("N0CALL 73"), "N0CALL 73");
    assert_eq!(round_trip("HELLO WORLD"), "HELLO WORLD");
}

#[test]
fn telemetry_payload_unpacks_as_hex() {
    let mut a77 = [0u8; 12];
    // 71-bit value 1: bit 70 of the field, stored shifted left by one.
    a77[8] = 0x02;
    // type bits: i3 = 0, n3 = 5 (one bit from byte 8, two from byte 9).
    a77[8] |= 0x01;
    a77[9] = 0x40;
    let mut text = String::new();
    assert_eq!(unpack77(&a77, &mut text), 0);
    assert_eq!(text, "000000000000000001");
}

#[test]
fn unknown_message_type_is_rejected() {
    let mut a77 = [0u8; 12];
    a77[9] = 7 << 3;
    let mut text = String::new();
    assert!(unpack77(&a77, &mut text) < 0);
    assert_eq!(text, "");
}
