//! Unpacking of 77-bit payloads back into message text.
use crate::constants::FTX_LDPC_K_BYTES;
use crate::pack::MAX22;
use crate::pack::MAXGRID4;
use crate::pack::NTOKENS;
use crate::text::charn;
use crate::text::dec_digits;
use crate::text::int_dd;
use crate::text::int_to_dd;
use crate::text::push_char;
use crate::text::push_all;
use crate::text::push_trimmed;
use crate::text::trimmed_vec;
use crate::text::table_char;
use crate::text::trim_spaces;
use vstd::prelude::*;
use vstd::string::StringExecFns;

verus! {

/// The six callsign characters named by a 28-bit standard-call code:
/// successive mixed-radix digits drawn from the positional alphabets,
/// most significant first.
pub open spec fn call_chars(n: int) -> Seq<char> {
    let n1 = n / 27;
    let n2 = n1 / 27;
    let n3 = n2 / 27;
    let n4 = n3 / 10;
    let n5 = n4 / 36;
    seq![
        table_char(1, n5 % 37),
        table_char(2, n4 % 36),
        table_char(3, n3 % 10),
        table_char(4, n2 % 27),
        table_char(4, n1 % 27),
        table_char(4, n % 27),
    ]
}

/// The four characters of a "CQ aaaa" token, base 27, most significant
/// first.
pub open spec fn cq4_chars(n: int) -> Seq<char> {
    let n1 = n / 27;
    let n2 = n1 / 27;
    let n3 = n2 / 27;
    seq![
        table_char(4, n3 % 27),
        table_char(4, n2 % 27),
        table_char(4, n1 % 27),
        table_char(4, n % 27),
    ]
}

/// The text of a 28-bit callsign field: special tokens, "CQ nnn" and
/// "CQ aaaa" forms, the hash placeholder, or a trimmed standard callsign
/// with its optional /R or /P suffix; None when the code names nothing.
pub open spec fn unpack_callsign_spec(n28: u32, ip: u8, i3: u8) -> Option<Seq<char>> {
    if n28 < NTOKENS {
        if n28 == 0 {
            Some("DE"@)
        } else if n28 == 1 {
            Some("QRZ"@)
        } else if n28 == 2 {
            Some("CQ"@)
        } else if n28 <= 1002 {
            Some("CQ "@ + dec_digits(n28 - 3, 3))
        } else if n28 <= 532443 {
            Some("CQ "@ + trim_spaces(cq4_chars(n28 - 1003)))
        } else {
            None
        }
    } else if n28 - NTOKENS < MAX22 {
        Some("<...>"@)
    } else {
        let base = trim_spaces(call_chars(n28 - NTOKENS - MAX22));
        if base.len() == 0 {
            None
        } else if ip != 0 && i3 == 1 {
            Some(base + "/R"@)
        } else if ip != 0 && i3 == 2 {
            Some(base + "/P"@)
        } else {
            Some(base)
        }
    }
}

/// Append the text of a 28-bit callsign field to `result`; returns true,
/// with `result` unchanged, when the code names nothing.
pub fn unpack_callsign(n28: u32, ip: u8, i3: u8, result: &mut String) -> (failed: bool)
    ensures
        failed <==> unpack_callsign_spec(n28, ip, i3) is None,
        !failed ==> final(result)@ == old(result)@ + unpack_callsign_spec(n28, ip, i3).unwrap(),
        failed ==> final(result)@ == old(result)@,
{
    if n28 < NTOKENS {
        if n28 == 0 {
            result.append("DE");
            return false;
        }
        if n28 == 1 {
            result.append("QRZ");
            return false;
        }
        if n28 == 2 {
            result.append("CQ");
            return false;
        }
        if n28 <= 1002 {
            result.append("CQ ");
            int_to_dd(result, (n28 - 3) as i32, 3, false);
            proof {
                assert(old(result)@ + "CQ "@ + dec_digits(n28 - 3, 3) =~= old(result)@ + ("CQ "@
                    + dec_digits(n28 - 3, 3)));
                assert(int_dd(n28 - 3, 3, false) =~= dec_digits(n28 - 3, 3));
            }
            return false;
        }
        if n28 <= 532443 {
            let n = n28 - 1003;
            let n1 = n / 27;
            let n2 = n1 / 27;
            let n3 = n2 / 27;
            let mut aaaa: Vec<char> = Vec::new();
            aaaa.push(charn((n3 % 27) as u8, 4));
            aaaa.push(charn((n2 % 27) as u8, 4));
            aaaa.push(charn((n1 % 27) as u8, 4));
            aaaa.push(charn((n % 27) as u8, 4));
            result.append("CQ ");
            proof {
                assert(aaaa@ =~= cq4_chars(n28 - 1003));
            }
            push_trimmed(result, &aaaa);
            proof {
                assert(old(result)@ + "CQ "@ + trim_spaces(cq4_chars(n28 - 1003)) =~= old(
                    result,
                )@ + ("CQ "@ + trim_spaces(cq4_chars(n28 - 1003))));
            }
            return false;
        }
        return true;
    }

    let n28r = n28 - NTOKENS;
    if n28r < MAX22 {
        result.append("<...>");
        return false;
    }

    let n = n28r - MAX22;
    let n1 = n / 27;
    let n2 = n1 / 27;
    let n3 = n2 / 27;
    let n4 = n3 / 10;
    let n5 = n4 / 36;

    let mut callsign: Vec<char> = Vec::new();
    callsign.push(charn((n5 % 37) as u8, 1));
    callsign.push(charn((n4 % 36) as u8, 2));
    callsign.push(charn((n3 % 10) as u8, 3));
    callsign.push(charn((n2 % 27) as u8, 4));
    callsign.push(charn((n1 % 27) as u8, 4));
    callsign.push(charn((n % 27) as u8, 4));
    proof {
        assert(callsign@ =~= call_chars(n28 - NTOKENS - MAX22));
    }

    let base = trimmed_vec(&callsign);
    if base.len() == 0 {
        return true;
    }
    push_all(result, &base);

    if ip != 0 {
        if i3 == 1 {
            result.append("/R");
        } else if i3 == 2 {
            result.append("/P");
        }
    }
    false
}

/// The first 28-bit callsign field of a packed standard message.
pub open spec fn field_n28a(a: Seq<u8>) -> u32 {
    ((a[0] as u32) << 21) | ((a[1] as u32) << 13) | ((a[2] as u32) << 5) | ((a[3] as u32) >> 3)
}

/// The second 28-bit callsign field of a packed standard message.
pub open spec fn field_n28b(a: Seq<u8>) -> u32 {
    (((a[3] & 0x07) as u32) << 26) | ((a[4] as u32) << 18) | ((a[5] as u32) << 10) | ((a[6]
        as u32) << 2) | ((a[7] as u32) >> 6)
}

/// The rotate flag of a packed standard message.
pub open spec fn field_ir(a: Seq<u8>) -> u16 {
    ((a[7] & 0x20) as u16) >> 5
}

/// The 15-bit grid field of a packed standard message.
pub open spec fn field_igrid4(a: Seq<u8>) -> u16 {
    (((a[7] & 0x1f) as u16) << 10) | ((a[8] as u16) << 2) | ((a[9] as u16) >> 6)
}

/// The four characters of a grid locator value, most significant first.
pub open spec fn grid4_chars(g: int) -> Seq<char> {
    let n1 = g / 10;
    let n2 = n1 / 10;
    let n3 = n2 / 18;
    seq![
        (('A' as u8) + (n3 % 18)) as char,
        (('A' as u8) + (n2 % 18)) as char,
        (('0' as u8) + (n1 % 10)) as char,
        (('0' as u8) + (g % 10)) as char,
    ]
}

/// The text of the grid field: a 4-character locator (preceded by "R " when
/// the rotate flag is set), an acknowledgement, a blank, or a signed report.
pub open spec fn grid_text(igrid4: u16, ir: u16) -> Seq<char> {
    if igrid4 <= MAXGRID4 {
        (if ir > 0 {
            "R "@
        } else {
            Seq::empty()
        }) + grid4_chars(igrid4 as int)
    } else {
        let irpt = igrid4 - MAXGRID4;
        if irpt == 1 {
            Seq::empty()
        } else if irpt == 2 {
            "RRR"@
        } else if irpt == 3 {
            "RR73"@
        } else if irpt == 4 {
            "73"@
        } else {
            (if ir > 0 {
                "R"@
            } else {
                Seq::empty()
            }) + int_dd(irpt - 35, 2, true)
        }
    }
}

/// The three text fields of a standard message: both callsigns and the grid
/// or report; None when either callsign code names nothing.
pub open spec fn unpack_type1_spec(a: Seq<u8>, i3: u8) -> Option<
    (Seq<char>, Seq<char>, Seq<char>),
> {
    let na = field_n28a(a);
    let nb = field_n28b(a);
    let ca = unpack_callsign_spec(na >> 1, (na as u8) & 0x01, i3);
    let cb = unpack_callsign_spec(nb >> 1, (nb as u8) & 0x01, i3);
    if ca is None || cb is None {
        None
    } else {
        Some((ca.unwrap(), cb.unwrap(), grid_text(field_igrid4(a), field_ir(a))))
    }
}

/// Append the three fields of a standard message to the given strings;
/// returns 0 on success, -1 or -2 when the first or second callsign code
/// names nothing.
pub fn unpack_type1(
    a77: &[u8; FTX_LDPC_K_BYTES],
    i3: u8,
    call_to: &mut String,
    call_de: &mut String,
    extra: &mut String,
) -> (rc: i32)
    ensures
        rc == 0 || rc == -1 || rc == -2,
        (rc == 0) <==> unpack_type1_spec(a77@, i3) is Some,
        rc == 0 ==> final(call_to)@ == old(call_to)@ + unpack_type1_spec(a77@, i3).unwrap().0,
        rc == 0 ==> final(call_de)@ == old(call_de)@ + unpack_type1_spec(a77@, i3).unwrap().1,
        rc == 0 ==> final(extra)@ == old(extra)@ + unpack_type1_spec(a77@, i3).unwrap().2,
        rc != 0 ==> final(call_de)@ == old(call_de)@ && final(extra)@ == old(extra)@,
        rc == -1 ==> final(call_to)@ == old(call_to)@,
{
    let mut n28a: u32 = (a77[0] as u32) << 21;
    n28a |= (a77[1] as u32) << 13;
    n28a |= (a77[2] as u32) << 5;
    n28a |= (a77[3] as u32) >> 3;

    let mut n28b: u32 = ((a77[3] & 0x07) as u32) << 26;
    n28b |= (a77[4] as u32) << 18;
    n28b |= (a77[5] as u32) << 10;
    n28b |= (a77[6] as u32) << 2;
    n28b |= (a77[7] as u32) >> 6;

    let ir: u16 = ((a77[7] & 0x20) as u16) >> 5;
    let mut igrid4: u16 = ((a77[7] & 0x1f) as u16) << 10;
    igrid4 |= (a77[8] as u16) << 2;
    igrid4 |= (a77[9] as u16) >> 6;

    if unpack_callsign(n28a >> 1, (n28a as u8) & 0x01, i3, call_to) {
        return -1;
    }
    if unpack_callsign(n28b >> 1, (n28b as u8) & 0x01, i3, call_de) {
        return -2;
    }

    if igrid4 <= MAXGRID4 {
        if ir > 0 {
            extra.append("R ");
        }

        let n1 = igrid4 / 10;
        let n2 = n1 / 10;
        let n3 = n2 / 18;
        let mut dst: Vec<char> = Vec::new();
        dst.push((('A' as u8) + (n3 % 18) as u8) as char);
        dst.push((('A' as u8) + (n2 % 18) as u8) as char);
        dst.push((('0' as u8) + (n1 % 10) as u8) as char);
        dst.push((('0' as u8) + (igrid4 % 10) as u8) as char);
        proof {
            assert(dst@ =~= grid4_chars(igrid4 as int));
        }
        push_all(extra, &dst);
        proof {
            if ir > 0 {
                assert(old(extra)@ + "R "@ + grid4_chars(igrid4 as int) =~= old(extra)@ + ("R "@
                    + grid4_chars(igrid4 as int)));
            } else {
                assert(old(extra)@ + grid4_chars(igrid4 as int) =~= old(extra)@ + (
                Seq::<char>::empty() + grid4_chars(igrid4 as int)));
            }
        }
    } else {
        let irpt = igrid4 - MAXGRID4;

        if irpt == 1 {
            proof {
                assert(extra@ =~= old(extra)@ + Seq::<char>::empty());
            }
        } else if irpt == 2 {
            extra.append("RRR");
        } else if irpt == 3 {
            extra.append("RR73");
        } else if irpt == 4 {
            extra.append("73");
        } else {
            if ir > 0 {
                push_char(extra, 'R');
                proof {
                    reveal_strlit("R");
                    assert(old(extra)@.push('R') =~= old(extra)@ + "R"@);
                }
            }
            int_to_dd(extra, irpt as i32 - 35, 2, true);
            proof {
                if ir > 0 {
                    assert(old(extra)@ + "R"@ + int_dd(irpt - 35, 2, true) =~= old(extra)@ + ("R"@
                        + int_dd(irpt - 35, 2, true)));
                } else {
                    assert(old(extra)@ + int_dd(irpt - 35, 2, true) =~= old(extra)@ + (
                    Seq::<char>::empty() + int_dd(irpt - 35, 2, true)));
                }
            }
        }
    }
    0
}

/// Big-endian value of the first `k` bytes of a buffer.
pub open spec fn be_value(a: Seq<u8>, k: int) -> int
    decreases k,
{
    if k <= 0 {
        0
    } else {
        be_value(a, k - 1) * 256 + a[k - 1]
    }
}

/// Two hundred fifty-six to the power `k`.
pub open spec fn pow256(k: nat) -> int
    decreases k,
{
    if k == 0 {
        1
    } else {
        256 * pow256((k - 1) as nat)
    }
}

proof fn lemma_be_value_bound(a: Seq<u8>, k: nat)
    ensures
        0 <= be_value(a, k as int) < pow256(k),
    decreases k,
{
    if k > 0 {
        lemma_be_value_bound(a, (k - 1) as nat);
    }
}

proof fn lemma_pow256_pos(a: nat)
    ensures
        pow256(a) >= 1,
    decreases a,
{
    if a > 0 {
        lemma_pow256_pos((a - 1) as nat);
    }
}

proof fn lemma_pow256_mono(a: nat, b: nat)
    requires
        a <= b,
    ensures
        pow256(a) <= pow256(b),
    decreases b,
{
    if a < b {
        lemma_pow256_mono(a, (b - 1) as nat);
        lemma_pow256_pos((b - 1) as nat);
    }
}

proof fn lemma_pow256_values()
    ensures
        pow256(9) == 0x1000000000000000000,
{
    assert(pow256(0) == 1);
    assert(pow256(1) == 0x100);
    assert(pow256(2) == 0x10000);
    assert(pow256(3) == 0x1000000);
    assert(pow256(4) == 0x100000000);
    assert(pow256(5) == 0x10000000000);
    assert(pow256(6) == 0x1000000000000);
    assert(pow256(7) == 0x100000000000000);
    assert(pow256(8) == 0x10000000000000000);
    assert(pow256(9) == 0x1000000000000000000);
}

/// The 71-bit free-text value of a payload: the first nine bytes read
/// big-endian, without the trailing alignment bit.
pub open spec fn v71(a: Seq<u8>) -> int {
    be_value(a, 9) / 2
}

/// The thirteen free-text characters of a 71-bit value, most significant
/// base-42 digit first.
pub open spec fn text_chars(v: int) -> Seq<char> {
    Seq::new(13, |k: int| table_char(0, (v / crate::pack::pow42((12 - k) as nat)) % 42))
}

/// The free-text body of a payload: its base-42 digits as characters, with
/// surrounding blanks removed.
pub open spec fn unpack_text_spec(a: Seq<u8>) -> Seq<char> {
    trim_spaces(text_chars(v71(a)))
}

/// Append the free-text body of a payload to `text`; always succeeds.
pub fn unpack_text(a71: &[u8; FTX_LDPC_K_BYTES], text: &mut String) -> (rc: i32)
    ensures
        rc == 0,
        final(text)@ == old(text)@ + unpack_text_spec(a71@),
{
    let mut be: u128 = 0;
    for i in 0..9usize
        invariant
            be == be_value(a71@, i as int),
            0 <= be < pow256(i as nat),
    {
        proof {
            lemma_pow256_values();
            lemma_be_value_bound(a71@, (i + 1) as nat);
            lemma_pow256_mono((i + 1) as nat, 9);
        }
        be = be * 256 + (a71[i] as u128);
    }
    proof {
        lemma_pow256_values();
    }
    let v: u128 = be / 2;

    let mut c14: Vec<char> = Vec::new();
    let mut p: u128 = 30129469486639681536;
    proof {
        crate::pack::lemma_pow42_concrete();
    }
    for k in 0..13usize
        invariant
            v == v71(a71@),
            v < 0x1000000000000000000,
            k < 13 ==> p == crate::pack::pow42((12 - k) as nat),
            p >= 1,
            c14@.len() == k,
            forall|j: int| 0 <= j < k ==> c14@[j] == text_chars(v71(a71@))[j],
    {
        let d = ((v / p) % 42) as u8;
        c14.push(charn(d, 0));
        if k < 12 {
            proof {
                let m = (12 - k) as nat;
                assert(crate::pack::pow42(m) == 42 * crate::pack::pow42((m - 1) as nat));
                vstd::arithmetic::div_mod::lemma_div_multiples_vanish(
                    crate::pack::pow42((m - 1) as nat),
                    42,
                );
                crate::pack::lemma_pow42_pos_pub((m - 1) as nat);
            }
            p = p / 42;
        }
    }
    proof {
        assert(c14@ =~= text_chars(v71(a71@)));
    }
    push_trimmed(text, &c14);
    0
}

/// Hexadecimal character of a value below sixteen.
pub open spec fn hex_char(n: u8) -> char {
    if n > 9 {
        (('A' as u8) + (n - 10)) as char
    } else {
        (('0' as u8) + n) as char
    }
}

/// Byte `i` of the payload shifted right one bit across byte boundaries.
pub open spec fn shifted_byte(a: Seq<u8>, i: int) -> u8 {
    if i == 0 {
        a[0] >> 1u8
    } else {
        ((a[i - 1] & 1) << 7u8) | (a[i] >> 1u8)
    }
}

/// The eighteen hexadecimal characters of a telemetry payload: the 71-bit
/// value as nine bytes, two digits per byte.
pub open spec fn telemetry_chars(a: Seq<u8>) -> Seq<char> {
    Seq::new(
        18,
        |k: int|
            if k % 2 == 0 {
                hex_char(shifted_byte(a, k / 2) >> 4u8)
            } else {
                hex_char(shifted_byte(a, k / 2) & 0x0f)
            },
    )
}

/// Append the eighteen-digit hexadecimal telemetry body of a payload;
/// always succeeds.
pub fn unpack_telemetry(a71: &[u8; FTX_LDPC_K_BYTES], telemetry: &mut String) -> (rc: i32)
    ensures
        rc == 0,
        final(telemetry)@ == old(telemetry)@ + telemetry_chars(a71@),
{
    let mut carry: u8 = 0;
    for i in 0..9usize
        invariant
            carry == (if i == 0 {
                0u8
            } else {
                a71@[i - 1] & 1
            }),
            telemetry@.len() == old(telemetry)@.len() + 2 * i,
            forall|j: int| 0 <= j < old(telemetry)@.len() ==> telemetry@[j] == old(telemetry)@[j],
            forall|j: int|
                0 <= j < 2 * i ==> telemetry@[old(telemetry)@.len() + j] == telemetry_chars(
                    a71@,
                )[j],
    {
        let b: u8 = (carry << 7) | (a71[i] >> 1);
        proof {
            let x = a71@[i as int];
            let c = carry;
            assert(((c << 7u8) | (x >> 1u8)) >> 4u8 < 16 && (((c << 7u8) | (x >> 1u8)) & 0x0f)
                < 16) by (bit_vector);
            if i == 0 {
                assert((0u8 << 7u8) | (x >> 1u8) == x >> 1u8) by (bit_vector);
            }
        }
        let nibble1 = b >> 4;
        let nibble2 = b & 0x0f;
        let c1 = if nibble1 > 9 {
            ((nibble1 - 10) + ('A' as u8)) as char
        } else {
            (nibble1 + ('0' as u8)) as char
        };
        let c2 = if nibble2 > 9 {
            ((nibble2 - 10) + ('A' as u8)) as char
        } else {
            (nibble2 + ('0' as u8)) as char
        };
        push_char(telemetry, c1);
        push_char(telemetry, c2);
        carry = a71[i] & 0x01;
    }
    proof {
        assert(telemetry@ =~= old(telemetry)@ + telemetry_chars(a71@));
    }
    0
}

/// The 58-bit nonstandard-callsign field of a packed payload.
pub open spec fn field_n58(a: Seq<u8>) -> u64 {
    (((a[1] & 0x0f) as u64) << 54) | ((a[2] as u64) << 46) | ((a[3] as u64) << 38) | ((a[4]
        as u64) << 30) | ((a[5] as u64) << 22) | ((a[6] as u64) << 14) | ((a[7] as u64) << 6) | ((
    a[8] as u64) >> 2)
}

/// The eleven base-38 characters of a nonstandard callsign field, most
/// significant digit first.
pub open spec fn c11_chars(n: int) -> Seq<char> {
    Seq::new(11, |k: int| table_char(5, (n / crate::pack::pow38((10 - k) as nat)) % 38))
}

/// The three text fields of a nonstandard message: the hashed-call
/// placeholder and the base-38 call in the order named by the flip bit, a
/// CQ in place of the first call when the CQ flag is set, and an optional
/// acknowledgement.
pub open spec fn nonstd_spec(a: Seq<u8>) -> (Seq<char>, Seq<char>, Seq<char>) {
    let c11r = c11_chars(field_n58(a) as int);
    let iflip = (a[8] >> 1u8) & 0x01;
    let nrpt = (((a[8] & 0x01) as u8) << 1u8) | (a[9] >> 7u8);
    let icq = (a[9] >> 6u8) & 0x01;
    let call_1: Seq<char> = if iflip != 0 {
        c11r
    } else {
        "<...>"@
    };
    let call_2: Seq<char> = if iflip != 0 {
        "<...>"@
    } else {
        c11r
    };
    let call_to: Seq<char> = if icq == 0 {
        call_1
    } else {
        "CQ"@
    };
    let extra: Seq<char> = if icq == 0 {
        if nrpt == 1 {
            "RRR"@
        } else if nrpt == 2 {
            "RR73"@
        } else if nrpt == 3 {
            "73"@
        } else {
            Seq::empty()
        }
    } else {
        Seq::empty()
    };
    (call_to, call_2, extra)
}

/// Append the fields of a nonstandard-callsign message; always succeeds.
pub fn unpack_nonstandard(
    a77: &[u8; FTX_LDPC_K_BYTES],
    call_to: &mut String,
    call_de: &mut String,
    extra: &mut String,
) -> (rc: i32)
    ensures
        rc == 0,
        final(call_to)@ == old(call_to)@ + nonstd_spec(a77@).0,
        final(call_de)@ == old(call_de)@ + nonstd_spec(a77@).1,
        final(extra)@ == old(extra)@ + nonstd_spec(a77@).2,
{
    let mut n58: u64 = ((a77[1] & 0x0f) as u64) << 54;
    n58 |= (a77[2] as u64) << 46;
    n58 |= (a77[3] as u64) << 38;
    n58 |= (a77[4] as u64) << 30;
    n58 |= (a77[5] as u64) << 22;
    n58 |= (a77[6] as u64) << 14;
    n58 |= (a77[7] as u64) << 6;
    n58 |= (a77[8] as u64) >> 2;

    let iflip = (a77[8] >> 1) & 0x01;
    let nrpt = ((a77[8] & 0x01) << 1) | (a77[9] >> 7);
    let icq = (a77[9] >> 6) & 0x01;

    let mut c11: Vec<char> = Vec::new();
    let mut p: u64 = 6278211847988224;
    proof {
        crate::pack::lemma_pow38_concrete();
    }
    for k in 0..11usize
        invariant
            k < 11 ==> p == crate::pack::pow38((10 - k) as nat),
            p >= 1,
            c11@.len() == k,
            forall|j: int| 0 <= j < k ==> c11@[j] == c11_chars(n58 as int)[j],
    {
        let d = ((n58 / p) % 38) as u8;
        c11.push(charn(d, 5));
        if k < 10 {
            proof {
                let m = (10 - k) as nat;
                assert(crate::pack::pow38(m) == 38 * crate::pack::pow38((m - 1) as nat));
                vstd::arithmetic::div_mod::lemma_div_multiples_vanish(
                    crate::pack::pow38((m - 1) as nat),
                    38,
                );
                crate::pack::lemma_pow38_pos_pub((m - 1) as nat);
            }
            p = p / 38;
        }
    }
    proof {
        assert(c11@ =~= c11_chars(n58 as int));
    }

    if icq == 0 {
        if iflip != 0 {
            push_all(call_to, &c11);
        } else {
            call_to.append("<...>");
        }
        if nrpt == 1 {
            extra.append("RRR");
        } else if nrpt == 2 {
            extra.append("RR73");
        } else if nrpt == 3 {
            extra.append("73");
        } else {
            proof {
                assert(extra@ =~= old(extra)@ + Seq::<char>::empty());
            }
        }
    } else {
        call_to.append("CQ");
        proof {
            assert(extra@ =~= old(extra)@ + Seq::<char>::empty());
        }
    }
    if iflip != 0 {
        call_de.append("<...>");
    } else {
        push_all(call_de, &c11);
    }
    0
}

/// The three text fields of a payload, by message type: free text and
/// telemetry fill only the third field, standard and nonstandard messages
/// fill the callsigns; None when the type or a callsign code names nothing.
pub open spec fn fields77(a: Seq<u8>) -> Option<(Seq<char>, Seq<char>, Seq<char>)> {
    let i3 = (a[9] >> 3u8) & 0x07;
    if i3 == 0 {
        let n3 = ((a[8] << 2u8) & 0x04) | ((a[9] >> 6u8) & 0x03);
        if n3 == 0 {
            Some((Seq::empty(), Seq::empty(), unpack_text_spec(a)))
        } else if n3 == 5 {
            Some((Seq::empty(), Seq::empty(), telemetry_chars(a)))
        } else {
            None
        }
    } else if i3 == 1 || i3 == 2 {
        unpack_type1_spec(a, i3)
    } else if i3 == 4 {
        Some(nonstd_spec(a))
    } else {
        None
    }
}

/// Extract the three text fields of a payload; returns 0 on success and a
/// negative code when the message type or a callsign code names nothing.
pub fn unpack77_fields(
    a77: &[u8; FTX_LDPC_K_BYTES],
    call_to: &mut String,
    call_de: &mut String,
    extra: &mut String,
) -> (rc: i32)
    ensures
        -2 <= rc <= 0,
        (rc == 0) <==> fields77(a77@) is Some,
        rc == 0 ==> final(call_to)@ == old(call_to)@ + fields77(a77@).unwrap().0,
        rc == 0 ==> final(call_de)@ == old(call_de)@ + fields77(a77@).unwrap().1,
        rc == 0 ==> final(extra)@ == old(extra)@ + fields77(a77@).unwrap().2,
        rc != 0 ==> final(call_de)@ == old(call_de)@ && final(extra)@ == old(extra)@,
{
    let i3 = (a77[9] >> 3) & 0x07;

    if i3 == 0 {
        let n3 = ((a77[8] << 2) & 0x04) | ((a77[9] >> 6) & 0x03);
        if n3 == 0 {
            proof {
                assert(call_to@ =~= old(call_to)@ + Seq::<char>::empty());
                assert(call_de@ =~= old(call_de)@ + Seq::<char>::empty());
            }
            return unpack_text(a77, extra);
        } else if n3 == 5 {
            proof {
                assert(call_to@ =~= old(call_to)@ + Seq::<char>::empty());
                assert(call_de@ =~= old(call_de)@ + Seq::<char>::empty());
            }
            return unpack_telemetry(a77, extra);
        }
        return -1;
    } else if i3 == 1 || i3 == 2 {
        return unpack_type1(a77, i3, call_to, call_de, extra);
    } else if i3 == 4 {
        return unpack_nonstandard(a77, call_to, call_de, extra);
    }
    -1
}

/// The nonempty fields joined by single blanks.
pub open spec fn join3(c1: Seq<char>, c2: Seq<char>, e: Seq<char>) -> Seq<char> {
    if c1.len() > 0 && c2.len() > 0 && e.len() > 0 {
        c1 + seq![' '] + c2 + seq![' '] + e
    } else if c1.len() > 0 && c2.len() > 0 {
        c1 + seq![' '] + c2
    } else if c1.len() > 0 && e.len() > 0 {
        c1 + seq![' '] + e
    } else if c2.len() > 0 && e.len() > 0 {
        c2 + seq![' '] + e
    } else {
        c1 + c2 + e
    }
}

/// The full text of a payload: its fields joined by single blanks with
/// empty fields omitted; None when the payload names no message.
pub open spec fn unpacked_message(a: Seq<u8>) -> Option<Seq<char>> {
    match fields77(a) {
        Some(f) => Some(join3(f.0, f.1, f.2)),
        None => None,
    }
}

/// Append the full text of a payload to `message`; returns 0 on success
/// and a negative code, leaving `message` unchanged, when the payload
/// names no message.
pub fn unpack77(a77: &[u8; FTX_LDPC_K_BYTES], message: &mut String) -> (rc: i32)
    ensures
        -2 <= rc <= 0,
        (rc == 0) <==> unpacked_message(a77@) is Some,
        rc == 0 ==> final(message)@ == old(message)@ + unpacked_message(a77@).unwrap(),
        rc != 0 ==> final(message)@ == old(message)@,
{
    let mut call_to = String::from_str("");
    let mut call_de = String::from_str("");
    let mut extra = String::from_str("");
    proof {
        reveal_strlit("");
        assert(call_to@.len() == 0);
    }

    let rc = unpack77_fields(a77, &mut call_to, &mut call_de, &mut extra);
    if rc < 0 {
        return rc;
    }

    let ghost f = fields77(a77@).unwrap();
    proof {
        assert(call_to@ =~= f.0);
        assert(call_de@ =~= f.1);
        assert(extra@ =~= f.2);
    }

    let mut first = true;
    if !call_to.as_str().is_empty() {
        message.append(call_to.as_str());
        first = false;
    }
    if !call_de.as_str().is_empty() {
        if !first {
            push_char(message, ' ');
        }
        message.append(call_de.as_str());
        first = false;
    }
    if !extra.as_str().is_empty() {
        if !first {
            push_char(message, ' ');
        }
        message.append(extra.as_str());
    }
    proof {
        assert(message@ =~= old(message)@ + join3(f.0, f.1, f.2));
    }
    0
}

} // verus!
