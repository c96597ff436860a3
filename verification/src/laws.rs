//! Round-trip laws: a standard message packed into the 77-bit payload
//! unpacks to the same text.
use crate::pack::call_index;
use crate::pack::is_digit_char;
use crate::pack::msg_grid_field;
use crate::pack::pack77_1_ok;
use crate::pack::packgrid_spec;
use crate::pack::space_or_end;
use crate::pack::std_payload_byte;
use crate::pack::token0;
use crate::pack::token1;
use crate::pack::token2;
use crate::pack::MAXGRID4;
use crate::text::dd_value;
use crate::text::dec_digits;
use crate::text::dec_value;
use crate::text::int_dd;
use crate::unpack::field_igrid4;
use crate::unpack::field_ir;
use crate::unpack::field_n28a;
use crate::unpack::field_n28b;
use crate::unpack::fields77;
use crate::unpack::grid4_chars;
use crate::unpack::grid_text;
use crate::unpack::join3;
use crate::unpack::unpack_type1_spec;
use crate::unpack::unpacked_message;
use crate::pack::call_ok;
use crate::pack::call_value;
use crate::pack::pack28_spec;
use crate::pack::pad6;
use crate::pack::spaces;
use crate::pack::MAX22;
use crate::pack::NTOKENS;
use crate::text::lemma_table_index_char;
use crate::text::lemma_table_index_size;
use crate::text::trim_back;
use crate::text::trim_front;
use crate::text::trim_spaces;
use crate::unpack::call_chars;
use crate::unpack::unpack_callsign_spec;
use vstd::arithmetic::div_mod::lemma_fundamental_div_mod_converse;
use vstd::prelude::*;

verus! {

/// A token: nonempty text without blanks.
pub open spec fn is_token(s: Seq<char>) -> bool {
    s.len() > 0 && forall|i: int| 0 <= i < s.len() ==> s[i] != ' '
}

/// A callsign that packs in the standard aligned form rather than as a
/// special token.
pub open spec fn is_std_call(s: Seq<char>) -> bool {
    &&& is_token(s)
    &&& !(s.len() >= 2 && s[0] == 'D' && s[1] == 'E')
    &&& !(s.len() >= 3 && s[0] == 'Q' && s[1] == 'R' && s[2] == 'Z')
    &&& !(s.len() >= 2 && s[0] == 'C' && s[1] == 'Q')
    &&& pad6(s) is Some
    &&& call_ok(pad6(s).unwrap())
}

/// Trimming text extended by trailing blanks gives the text back.
proof fn lemma_trim_pad_right(s: Seq<char>, n: int)
    requires
        is_token(s),
        n >= 0,
    ensures
        trim_spaces(s + spaces(n)) == s,
    decreases n,
{
    let x = s + spaces(n);
    assert(x[0] == s[0]);
    assert(trim_front(x) == x);
    if n == 0 {
        assert(x =~= s);
        assert(x.last() == s.last());
        assert(trim_back(s) == s);
    } else {
        assert(x.last() == ' ');
        assert(x.drop_last() =~= s + spaces(n - 1));
        lemma_trim_pad_right(s, n - 1);
        assert(trim_front(s + spaces(n - 1)) == s + spaces(n - 1));
    }
}

/// Trimming text padded by one leading blank and trailing blanks gives the
/// text back.
proof fn lemma_trim_pad_both(s: Seq<char>, n: int)
    requires
        is_token(s),
        n >= 0,
    ensures
        trim_spaces(seq![' '] + s + spaces(n)) == s,
{
    let x = seq![' '] + s + spaces(n);
    assert(x[0] == ' ');
    assert(x.skip(1) =~= s + spaces(n));
    assert((s + spaces(n))[0] == s[0]);
    assert(trim_front(x) == trim_front(s + spaces(n)));
    lemma_trim_pad_right(s, n);
}

/// The mixed-radix digits of an aligned callsign's value are exactly its
/// characters' positions, so the value names the aligned characters back.
proof fn lemma_call_chars_roundtrip(c6: Seq<char>)
    requires
        c6.len() == 6,
        call_ok(c6),
    ensures
        call_chars(call_value(c6)) =~= c6,
        0 <= call_value(c6) < 0x10000000 - NTOKENS - MAX22,
{
    let i0 = call_index(c6, 0);
    let i1 = call_index(c6, 1);
    let i2 = call_index(c6, 2);
    let i3 = call_index(c6, 3);
    let i4 = call_index(c6, 4);
    let i5 = call_index(c6, 5);
    lemma_table_index_size(1, c6[0]);
    lemma_table_index_size(2, c6[1]);
    lemma_table_index_size(3, c6[2]);
    lemma_table_index_size(4, c6[3]);
    lemma_table_index_size(4, c6[4]);
    lemma_table_index_size(4, c6[5]);

    let n5 = i0;
    let n4 = n5 * 36 + i1;
    let n3 = n4 * 10 + i2;
    let n2 = n3 * 27 + i3;
    let n1 = n2 * 27 + i4;
    let n = n1 * 27 + i5;
    assert(n == call_value(c6));

    assert(n4 <= 36 * 36 + 35 && n4 >= 0) by (nonlinear_arith)
        requires
            0 <= n5 <= 36 && n4 == n5 * 36 + i1 && 0 <= i1 <= 35,
    ;
    assert(n3 <= 13319 && n3 >= 0) by (nonlinear_arith)
        requires
            0 <= n4 <= 1331 && n3 == n4 * 10 + i2 && 0 <= i2 <= 9,
    ;
    assert(n2 <= 359639 && n2 >= 0) by (nonlinear_arith)
        requires
            0 <= n3 <= 13319 && n2 == n3 * 27 + i3 && 0 <= i3 <= 26,
    ;
    assert(n1 <= 9710279 && n1 >= 0) by (nonlinear_arith)
        requires
            0 <= n2 <= 359639 && n1 == n2 * 27 + i4 && 0 <= i4 <= 26,
    ;
    assert(n <= 262177559 && n >= 0) by (nonlinear_arith)
        requires
            0 <= n1 <= 9710279 && n == n1 * 27 + i5 && 0 <= i5 <= 26,
    ;

    lemma_fundamental_div_mod_converse(n, 27, n1, i5);
    lemma_fundamental_div_mod_converse(n1, 27, n2, i4);
    lemma_fundamental_div_mod_converse(n2, 27, n3, i3);
    lemma_fundamental_div_mod_converse(n3, 10, n4, i2);
    lemma_fundamental_div_mod_converse(n4, 36, n5, i1);

    lemma_table_index_char(1, c6[0]);
    lemma_table_index_char(2, c6[1]);
    lemma_table_index_char(3, c6[2]);
    lemma_table_index_char(4, c6[3]);
    lemma_table_index_char(4, c6[4]);
    lemma_table_index_char(4, c6[5]);
}

/// A standard callsign unpacks from its own 28-bit code: the aligned
/// characters are recovered digit by digit and the padding blanks trimmed
/// away.
pub proof fn lemma_callsign_roundtrip(s: Seq<char>, i3: u8)
    requires
        is_std_call(s),
    ensures
        pack28_spec(s) >= 0,
        unpack_callsign_spec((pack28_spec(s) * 2) as u32 >> 1u32, ((pack28_spec(s) * 2) as u32
            as u8) & 0x01, i3) == Some(s),
{
    let c6 = pad6(s).unwrap();
    assert(c6.len() == 6);
    lemma_call_chars_roundtrip(c6);
    let v = call_value(c6);
    let code = NTOKENS + MAX22 + v;
    assert(pack28_spec(s) == code);
    assert(0 <= code < 0x10000000);
    let w: u32 = (code * 2) as u32;
    assert(w == 2 * code);
    assert(w % 2 == 0 ==> (w >> 1u32 == w / 2 && ((w as u8) & 0x01) == 0)) by (bit_vector);
    let n28 = (code * 2) as u32 >> 1u32;
    assert(n28 == code);
    assert(n28 >= NTOKENS);
    assert(n28 - NTOKENS >= MAX22);
    assert(n28 - NTOKENS - MAX22 == v);
    assert(call_chars(v) =~= c6);
    if 3 <= s.len() <= 6 && crate::pack::is_digit_char(s[2]) {
        assert(c6 =~= s + spaces(6 - s.len()));
        lemma_trim_pad_right(s, 6 - s.len());
    } else {
        assert(c6 =~= seq![' '] + s + spaces(5 - s.len()));
        lemma_trim_pad_both(s, 5 - s.len());
    }
    assert(trim_spaces(call_chars(v)) == s);
    assert(s.len() > 0);
}

/// A grid or report token in its canonical form: an acknowledgement, a
/// four-character locator, or a signed two-digit report between -30 and
/// +99 (nonzero when negative), optionally preceded by R.
pub open spec fn is_grid_token(g: Seq<char>) -> bool {
    ||| g =~= "RRR"@
    ||| g =~= "RR73"@
    ||| g =~= "73"@
    ||| (g.len() == 4 && 'A' <= g[0] <= 'R' && 'A' <= g[1] <= 'R' && is_digit_char(g[2])
        && is_digit_char(g[3]))
    ||| is_report_token(g)
}

/// A signed two-digit report, optionally preceded by R, whose value lies in
/// the range the packer accepts and that is not a negative zero.
pub open spec fn is_report_token(g: Seq<char>) -> bool {
    let rep = if g.len() > 0 && g[0] == 'R' {
        g.skip(1)
    } else {
        g
    };
    &&& rep.len() == 3
    &&& (rep[0] == '+' || rep[0] == '-')
    &&& is_digit_char(rep[1])
    &&& is_digit_char(rep[2])
    &&& -30 <= dd_value(rep) <= 99
    &&& (rep[0] == '-' ==> dd_value(rep) < 0)
    &&& (rep[0] == '+' ==> dd_value(rep) >= 0)
    &&& !(g.len() == 4 && 'A' <= g[0] <= 'R' && 'A' <= g[1] <= 'R' && is_digit_char(g[2])
        && is_digit_char(g[3]))
}

/// The two digits of a value below one hundred.
proof fn lemma_two_digits(d0: char, d1: char)
    requires
        is_digit_char(d0),
        is_digit_char(d1),
    ensures
        dec_value(seq![d0, d1]) == (d0 as int - '0' as int) * 10 + (d1 as int - '0' as int),
        0 <= dec_value(seq![d0, d1]) <= 99,
        dec_digits(dec_value(seq![d0, d1]), 2) =~= seq![d0, d1],
{
    let s = seq![d0, d1];
    assert(s.drop_last() =~= seq![d0]);
    assert(seq![d0].drop_last() =~= Seq::<char>::empty());
    assert(dec_value(Seq::<char>::empty()) == 0);
    assert(seq![d0].last() == d0);
    assert(dec_value(seq![d0]) == d0 as int - '0' as int);
    assert(s.last() == d1);
    assert(dec_value(s) == dec_value(seq![d0]) * 10 + (d1 as int - '0' as int));
    let a = d0 as int - '0' as int;
    let b = d1 as int - '0' as int;
    let v = a * 10 + b;
    lemma_fundamental_div_mod_converse(v, 10, a, b);
    lemma_fundamental_div_mod_converse(a, 10, 0, a);
    assert(dec_digits(v, 2) =~= dec_digits(v / 10, 1).push((('0' as u8) + (v % 10)) as char));
    assert(dec_digits(a, 1) =~= dec_digits(a / 10, 0).push((('0' as u8) + (a % 10)) as char));
    assert(dec_digits(0, 0) =~= Seq::<char>::empty());
    assert((('0' as u8) + a) as char == d0);
    assert((('0' as u8) + b) as char == d1);
    assert(dec_digits(v, 2) =~= seq![d0, d1]);
}

/// A canonical grid or report token is recovered from its own packed grid
/// field.
pub proof fn lemma_grid_roundtrip(g: Seq<char>)
    requires
        is_grid_token(g),
    ensures
        packgrid_spec(g) is Some,
        grid_text(
            (packgrid_spec(g).unwrap() & 0x7fff) as u16,
            (packgrid_spec(g).unwrap() >> 15u16) as u16,
        ) == g,
{
    reveal_strlit("RRR");
    reveal_strlit("RR73");
    reveal_strlit("73");
    reveal_strlit("R ");
    reveal_strlit(" ");
    if g =~= "RRR"@ {
        assert((32402u16 & 0x7fff) == 32402 && (32402u16 >> 15u16) == 0) by (bit_vector);
    } else if g =~= "RR73"@ {
        assert((32403u16 & 0x7fff) == 32403 && (32403u16 >> 15u16) == 0) by (bit_vector);
    } else if g =~= "73"@ {
        assert((32404u16 & 0x7fff) == 32404 && (32404u16 >> 15u16) == 0) by (bit_vector);
    } else if g.len() == 4 && 'A' <= g[0] <= 'R' && 'A' <= g[1] <= 'R' && is_digit_char(g[2])
        && is_digit_char(g[3]) {
        let a = g[0] as int - 'A' as int;
        let b = g[1] as int - 'A' as int;
        let c = g[2] as int - '0' as int;
        let d = g[3] as int - '0' as int;
        let v = ((a * 18 + b) * 10 + c) * 10 + d;
        assert(0 <= a * 18 + b <= 323) by (nonlinear_arith)
            requires
                0 <= a <= 17 && 0 <= b <= 17,
        ;
        assert(0 <= (a * 18 + b) * 10 + c <= 3239) by (nonlinear_arith)
            requires
                0 <= a * 18 + b <= 323 && 0 <= c <= 9,
        ;
        assert(0 <= v <= 32399) by (nonlinear_arith)
            requires
                0 <= (a * 18 + b) * 10 + c <= 3239 && 0 <= d <= 9 && v == ((a * 18 + b) * 10
                    + c) * 10 + d,
        ;
        let vv = v as u16;
        assert(vv < 32768 ==> ((vv & 0x7fff) == vv && (vv >> 15u16) == 0)) by (bit_vector);
        lemma_fundamental_div_mod_converse(v, 10, (a * 18 + b) * 10 + c, d);
        lemma_fundamental_div_mod_converse((a * 18 + b) * 10 + c, 10, a * 18 + b, c);
        lemma_fundamental_div_mod_converse(a * 18 + b, 18, a, b);
        lemma_fundamental_div_mod_converse(a, 18, 0, a);
        assert(grid4_chars(v) =~= g);
        assert(grid_text(vv, 0) =~= Seq::<char>::empty() + grid4_chars(v));
        assert(Seq::<char>::empty() + grid4_chars(v) =~= grid4_chars(v));
    } else {
        let has_r = g.len() > 0 && g[0] == 'R';
        let rep = if has_r {
            g.skip(1)
        } else {
            g
        };
        assert(rep =~= seq![rep[0], rep[1], rep[2]]);
        assert(rep.skip(1) =~= seq![rep[1], rep[2]]);
        lemma_two_digits(rep[1], rep[2]);
        let dd = dd_value(rep);
        let irpt = 35 + dd;
        let ig0 = (MAXGRID4 + irpt) as u16;
        assert(32405 <= ig0 <= 32534);
        let ig = if has_r {
            (ig0 | 0x8000) as u16
        } else {
            ig0
        };
        assert(packgrid_spec(g) == Some(ig));
        assert(32405 <= ig0 <= 32534 ==> ((ig0 & 0x7fff) == ig0 && (ig0 >> 15u16) == 0 && ((
        ig0 | 0x8000) & 0x7fff) == ig0 && ((ig0 | 0x8000) >> 15u16) == 1)) by (bit_vector);
        assert((ig & 0x7fff) == ig0);
        let ir: u16 = if has_r {
            1
        } else {
            0
        };
        assert((ig >> 15u16) == ir);
        assert(int_dd(dd, 2, true) =~= (if dd >= 0 {
            seq!['+']
        } else {
            seq!['-']
        }) + dec_digits(
            if dd >= 0 {
                dd
            } else {
                -dd
            },
            2,
        ));
        if rep[0] == '+' {
            assert(dd == dec_value(rep.skip(1)));
            assert(dec_digits(dd, 2) =~= seq![rep[1], rep[2]]);
            assert(int_dd(dd, 2, true) =~= rep);
        } else {
            assert(dd == -dec_value(rep.skip(1)));
            assert(dec_digits(-dd, 2) =~= seq![rep[1], rep[2]]);
            assert(int_dd(dd, 2, true) =~= rep);
        }
        if has_r {
            assert(grid_text(ig0, 1) =~= "R"@ + int_dd(dd, 2, true));
            reveal_strlit("R");
            assert("R"@ + rep =~= g);
        } else {
            assert(grid_text(ig0, 0) =~= Seq::<char>::empty() + int_dd(dd, 2, true));
            assert(Seq::<char>::empty() + rep =~= g);
        }
    }
}

/// Extracting the standard-message fields from the packed payload bytes
/// returns the packed values: the two 29-bit callsign fields, the 15-bit
/// grid field with its rotate flag, and message type one.
proof fn lemma_std_fields(na: u32, nb: u32, ig: u16)
    by (bit_vector)
    requires
        na < 0x20000000,
        nb < 0x20000000,
    ensures
        ((((na >> 21) as u8) as u32) << 21) | ((((na >> 13) as u8) as u32) << 13) | ((((na
            >> 5) as u8) as u32) << 5) | (((((na << 3) as u8) | ((nb >> 26) as u8)) as u32)
            >> 3) == na,
        ((((((na << 3) as u8) | ((nb >> 26) as u8)) & 0x07) as u32) << 26) | ((((nb >> 18)
            as u8) as u32) << 18) | ((((nb >> 10) as u8) as u32) << 10) | ((((nb >> 2) as u8)
            as u32) << 2) | (((((nb << 6) as u8) | ((ig >> 10) as u8)) as u32) >> 6) == nb,
        (((((nb << 6) as u8) | ((ig >> 10) as u8)) & 0x20) as u16) >> 5 == (ig >> 15u16),
        (((((nb << 6) as u8) | ((ig >> 10) as u8)) & 0x1f) as u16) << 10 | ((((ig >> 2)
            as u8) as u16) << 2) | (((((ig << 6) as u8) | 8u8) as u16) >> 6) == (ig & 0x7fff),
        ((((ig << 6) as u8) | 8u8) >> 3) & 0x07 == 1u8,
{
}

/// A message in standard canonical form: exactly two callsign tokens and a
/// grid or report token, separated by single blanks, each token in its
/// packable shape.
pub open spec fn standard_form(msg: Seq<char>) -> bool {
    let t0 = token0(msg);
    let t1 = token1(msg);
    let t2 = token2(msg);
    &&& msg =~= t0 + seq![' '] + t1 + seq![' '] + t2
    &&& is_call_token(t0)
    &&& is_call_token(t1)
    &&& is_grid_token(t2)
    &&& t2.len() > 0
}

/// A callsign token: one of the special tokens, or a standard callsign.
pub open spec fn is_call_token(s: Seq<char>) -> bool {
    ||| s =~= "DE"@
    ||| s =~= "QRZ"@
    ||| s =~= "CQ"@
    ||| is_std_call(s)
}

/// The payload that packing a standard message produces: ten packed bytes
/// and two zero bytes.
pub open spec fn std_payload(msg: Seq<char>) -> Seq<u8> {
    Seq::new(
        12,
        |i: int|
            if i < 10 {
                std_payload_byte(msg, i)
            } else {
                0u8
            },
    )
}

/// A callsign token unpacks from its own 28-bit code.
proof fn lemma_call_token_roundtrip(s: Seq<char>, i3: u8)
    requires
        is_call_token(s),
    ensures
        0 <= pack28_spec(s) < 0x10000000,
        unpack_callsign_spec((pack28_spec(s) * 2) as u32 >> 1u32, ((pack28_spec(s) * 2) as u32
            as u8) & 0x01, i3) == Some(s),
{
    reveal_strlit("DE");
    reveal_strlit("QRZ");
    reveal_strlit("CQ");
    if s =~= "DE"@ {
        assert(pack28_spec(s) == 0);
        assert((0u32 >> 1u32) == 0 && ((0u32 as u8) & 0x01) == 0) by (bit_vector);
    } else if s =~= "QRZ"@ {
        assert(pack28_spec(s) == 1);
        assert((2u32 >> 1u32) == 1 && ((2u32 as u8) & 0x01) == 0) by (bit_vector);
    } else if s =~= "CQ"@ {
        assert(pack28_spec(s) == 2);
        assert((4u32 >> 1u32) == 2 && ((4u32 as u8) & 0x01) == 0) by (bit_vector);
    } else {
        lemma_callsign_roundtrip(s, i3);
    }
}

/// Round-trip packing: a standard message packs in the standard form, and
/// unpacking the packed payload returns exactly the message text.
pub proof fn lemma_pack77_roundtrip(msg: Seq<char>)
    requires
        standard_form(msg),
    ensures
        pack77_1_ok(msg),
        unpacked_message(std_payload(msg)) == Some(msg),
{
    let t0 = token0(msg);
    let t1 = token1(msg);
    let t2 = token2(msg);

    lemma_call_token_roundtrip(t0, 1);
    lemma_call_token_roundtrip(t1, 1);
    lemma_grid_roundtrip(t2);

    let sp1 = space_or_end(msg, 0);
    lemma_space_structure(msg);

    let na: u32 = (pack28_spec(t0) * 2) as u32;
    let nb: u32 = (pack28_spec(t1) * 2) as u32;
    let ig: u16 = packgrid_spec(t2).unwrap();
    assert(na < 0x20000000 && nb < 0x20000000);
    lemma_std_fields(na, nb, ig);

    let p = std_payload(msg);
    assert(field_n28a(p) == na);
    assert(field_n28b(p) == nb);
    assert(field_ir(p) == (ig >> 15u16));
    assert(field_igrid4(p) == (ig & 0x7fff));
    assert((p[9] >> 3u8) & 0x07 == 1);

    assert(unpack_type1_spec(p, 1) == Some((t0, t1, t2)));
    assert(fields77(p) == Some((t0, t1, t2)));
    assert(join3(t0, t1, t2) =~= msg);
}

/// In a standard message the first blank follows the first token, the
/// second blank follows the second token, and the third token runs to the
/// end.
proof fn lemma_space_structure(msg: Seq<char>)
    requires
        standard_form(msg),
    ensures
        space_or_end(msg, 0) < msg.len(),
        space_or_end(msg, space_or_end(msg, 0) + 1) < msg.len(),
{
    let t0 = token0(msg);
    let sp1 = space_or_end(msg, 0);
    lemma_space_or_end_range(msg, 0);
    assert(msg[(t0.len()) as int] == ' ');
    assert(sp1 <= t0.len()) by {
        lemma_space_or_end_le(msg, 0, t0.len() as int);
    }
    assert(sp1 == t0.len());
    let t1 = token1(msg);
    let sp2 = space_or_end(msg, sp1 + 1);
    lemma_space_or_end_range(msg, sp1 + 1);
    assert(msg[sp1 + 1 + t1.len()] == ' ');
    assert(sp2 <= sp1 + 1 + t1.len()) by {
        lemma_space_or_end_le(msg, sp1 + 1, sp1 + 1 + t1.len());
    }
}

/// The first blank at or after `from` lies between `from` and the end.
proof fn lemma_space_or_end_range(s: Seq<char>, from: int)
    requires
        0 <= from <= s.len(),
    ensures
        from <= space_or_end(s, from) <= s.len(),
    decreases s.len() - from,
{
    if from < s.len() && s[from] != ' ' {
        lemma_space_or_end_range(s, from + 1);
    }
}

/// The first blank at or after `from` comes no later than any blank.
proof fn lemma_space_or_end_le(s: Seq<char>, from: int, k: int)
    requires
        0 <= from <= k < s.len(),
        s[k] == ' ',
    ensures
        space_or_end(s, from) <= k,
    decreases k - from,
{
    if from < k && s[from] != ' ' {
        lemma_space_or_end_le(s, from + 1, k);
    }
}

/// A message of two callsign tokens alone, separated by a single blank.
pub open spec fn standard_form_two(msg: Seq<char>) -> bool {
    let t0 = token0(msg);
    let t1 = token1(msg);
    &&& msg =~= t0 + seq![' '] + t1
    &&& is_call_token(t0)
    &&& is_call_token(t1)
    &&& t1.len() > 0
}

proof fn lemma_space_or_end_none(s: Seq<char>, from: int)
    requires
        0 <= from <= s.len(),
        forall|j: int| from <= j < s.len() ==> s[j] != ' ',
    ensures
        space_or_end(s, from) == s.len(),
    decreases s.len() - from,
{
    if from < s.len() {
        lemma_space_or_end_none(s, from + 1);
    }
}

/// Round-trip packing of a bare two-callsign message: it packs with the
/// blank grid sentinel, and unpacking returns exactly the message text.
pub proof fn lemma_pack77_roundtrip_two_tokens(msg: Seq<char>)
    requires
        standard_form_two(msg),
    ensures
        pack77_1_ok(msg),
        unpacked_message(std_payload(msg)) == Some(msg),
{
    let t0 = token0(msg);
    let t1 = token1(msg);

    lemma_call_token_roundtrip(t0, 1);
    lemma_call_token_roundtrip(t1, 1);

    let sp1 = space_or_end(msg, 0);
    lemma_space_or_end_range(msg, 0);
    assert(msg[(t0.len()) as int] == ' ');
    assert(sp1 <= t0.len()) by {
        lemma_space_or_end_le(msg, 0, t0.len() as int);
    }
    assert(sp1 == t0.len());
    reveal_strlit("DE");
    reveal_strlit("QRZ");
    reveal_strlit("CQ");
    assert forall|j: int| sp1 + 1 <= j < msg.len() implies msg[j] != ' ' by {
        assert(msg.len() == t0.len() + 1 + t1.len());
        assert(msg[j] == t1[j - t0.len() - 1]);
        assert(t1[j - t0.len() - 1] != ' ');
    }
    lemma_space_or_end_none(msg, sp1 + 1);
    let sp2 = space_or_end(msg, sp1 + 1);
    assert(sp2 == msg.len());
    assert(t1 =~= msg.subrange(sp1 + 1, sp2));

    let ig: u16 = (MAXGRID4 + 1) as u16;
    assert(msg_grid_field(msg) == Some(ig));

    let na: u32 = (pack28_spec(t0) * 2) as u32;
    let nb: u32 = (pack28_spec(t1) * 2) as u32;
    assert(na < 0x20000000 && nb < 0x20000000);
    lemma_std_fields(na, nb, ig);

    let p = std_payload(msg);
    assert(field_n28a(p) == na);
    assert(field_n28b(p) == nb);
    assert(field_ir(p) == (ig >> 15u16));
    assert(field_igrid4(p) == (ig & 0x7fff));
    assert((p[9] >> 3u8) & 0x07 == 1);
    assert((32401u16 & 0x7fff) == 32401 && (32401u16 >> 15u16) == 0) by (bit_vector);
    assert(grid_text(ig & 0x7fff, ig >> 15u16) =~= Seq::<char>::empty());

    assert(unpack_type1_spec(p, 1) == Some((t0, t1, Seq::<char>::empty())));
    assert(fields77(p) == Some((t0, t1, Seq::<char>::empty())));
    assert(join3(t0, t1, Seq::<char>::empty()) =~= msg);
}

} // verus!
