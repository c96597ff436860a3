//! Packing of standard and free-text messages into the 77-bit payload.
use crate::constants::FTX_LDPC_K_BYTES;
use crate::text::char_index;
use crate::text::table_index;
use crate::text::trim_spaces;
use crate::text::trim_str;
use crate::text::dd_to_int;
use crate::text::dd_value;
use crate::text::is_dd_seq;
use crate::text::lemma_dec_value_bound;
use crate::text::pow10;
use vstd::prelude::*;

verus! {

/// Number of special token values in the 28-bit callsign encoding.
pub const NTOKENS: u32 = 2063592;

/// Number of 22-bit hash values in the 28-bit callsign encoding.
pub const MAX22: u32 = 4194304;

/// Number of standard 4-character grid locators.
pub const MAXGRID4: u16 = 32400;

/// A run of `n` blanks.
pub open spec fn spaces(n: int) -> Seq<char> {
    Seq::new(n as nat, |i: int| ' ')
}

/// True when `c` is a decimal digit.
pub open spec fn is_digit_char(c: char) -> bool {
    '0' <= c <= '9'
}

/// Align a callsign in a 6-character field: a call with a digit in third
/// position is left-aligned, one with a digit in second position gets one
/// leading blank; anything else does not fit the standard format.
pub open spec fn pad6(s: Seq<char>) -> Option<Seq<char>> {
    if 3 <= s.len() <= 6 && is_digit_char(s[2]) {
        Some(s + spaces(6 - s.len()))
    } else if 2 <= s.len() <= 5 && is_digit_char(s[1]) {
        Some(seq![' '] + s + spaces(5 - s.len()))
    } else {
        None
    }
}

/// Positions of the six characters in their positional alphabets, or -1.
pub open spec fn call_index(c6: Seq<char>, k: int) -> int {
    table_index(
        if k == 0 {
            1
        } else if k == 1 {
            2
        } else if k == 2 {
            3
        } else {
            4
        },
        c6[k],
    )
}

/// True when every character of the aligned callsign lies in its alphabet.
pub open spec fn call_ok(c6: Seq<char>) -> bool {
    forall|k: int| 0 <= k < 6 ==> call_index(c6, k) >= 0
}

/// Mixed-radix value of an aligned 6-character callsign.
pub open spec fn call_value(c6: Seq<char>) -> int {
    ((((call_index(c6, 0) * 36 + call_index(c6, 1)) * 10 + call_index(c6, 2)) * 27 + call_index(
        c6,
        3,
    )) * 27 + call_index(c6, 4)) * 27 + call_index(c6, 5)
}

/// The 28-bit callsign code: special tokens DE, QRZ and CQ (matched as
/// prefixes) come first, then hash codes, then aligned standard callsigns;
/// -1 when the string fits no form.
pub open spec fn pack28_spec(s: Seq<char>) -> int {
    if s.len() >= 2 && s[0] == 'D' && s[1] == 'E' {
        0
    } else if s.len() >= 3 && s[0] == 'Q' && s[1] == 'R' && s[2] == 'Z' {
        1
    } else if s.len() >= 2 && s[0] == 'C' && s[1] == 'Q' {
        2
    } else {
        match pad6(s) {
            Some(c6) => if call_ok(c6) {
                NTOKENS + MAX22 + call_value(c6)
            } else {
                -1
            },
            None => -1,
        }
    }
}

/// Pack a special token or a standard base callsign into a 28-bit code;
/// -1 when the string fits no form.
pub fn pack28(callsign: &str) -> (r: i32)
    ensures
        r == pack28_spec(callsign@),
        -1 <= r < 0x10000000,
{
    let n = callsign.unicode_len();
    if n >= 2 && callsign.get_char(0) == 'D' && callsign.get_char(1) == 'E' {
        return 0;
    }
    if n >= 3 && callsign.get_char(0) == 'Q' && callsign.get_char(1) == 'R' && callsign.get_char(
        2,
    ) == 'Z' {
        return 1;
    }
    if n >= 2 && callsign.get_char(0) == 'C' && callsign.get_char(1) == 'Q' {
        return 2;
    }

    let mut c6: [char; 6] = [' ', ' ', ' ', ' ', ' ', ' '];
    if n >= 3 && n <= 6 && char_index(3, callsign.get_char(2)) >= 0 {
        for i in 0..n
            invariant
                n == callsign@.len(),
                3 <= n <= 6,
                c6@.len() == 6,
                forall|j: int| 0 <= j < i ==> c6@[j] == callsign@[j],
                forall|j: int| i <= j < 6 ==> c6@[j] == ' ',
        {
            c6[i] = callsign.get_char(i);
        }
        proof {
            assert(c6@ =~= callsign@ + spaces(6 - callsign@.len()));
        }
    } else if n >= 2 && n <= 5 && char_index(3, callsign.get_char(1)) >= 0 {
        for i in 0..n
            invariant
                n == callsign@.len(),
                2 <= n <= 5,
                c6@.len() == 6,
                c6@[0] == ' ',
                forall|j: int| 1 <= j < i + 1 ==> c6@[j] == callsign@[j - 1],
                forall|j: int| i + 1 <= j < 6 ==> c6@[j] == ' ',
        {
            c6[i + 1] = callsign.get_char(i);
        }
        proof {
            assert(c6@ =~= seq![' '] + callsign@ + spaces(5 - callsign@.len()));
        }
    } else {
        return -1;
    }

    let i0 = char_index(1, c6[0]);
    let i1 = char_index(2, c6[1]);
    let i2 = char_index(3, c6[2]);
    let i3 = char_index(4, c6[3]);
    let i4 = char_index(4, c6[4]);
    let i5 = char_index(4, c6[5]);
    if i0 < 0 || i1 < 0 || i2 < 0 || i3 < 0 || i4 < 0 || i5 < 0 {
        return -1;
    }

    let mut n28: i32 = i0;
    n28 = n28 * 36 + i1;
    n28 = n28 * 10 + i2;
    n28 = n28 * 27 + i3;
    n28 = n28 * 27 + i4;
    n28 = n28 * 27 + i5;

    (NTOKENS + MAX22) as i32 + n28
}

/// True when the string is a plausible standard or compound callsign: at
/// most 11 characters, not the rejected punctuation marker, and a call
/// longer than 6 characters must contain a slash.
pub open spec fn chkcall_spec(s: Seq<char>) -> bool {
    if s.len() > 11 {
        false
    } else if exists|i: int|
        0 <= i <= s.len() - 4 && #[trigger] s[i] == '.' && s[i + 1] == '+' && s[i + 2] == '-'
            && s[i + 3] == '?' {
        false
    } else if s.len() > 6 {
        exists|i: int| 0 <= i < s.len() && #[trigger] s[i] == '/'
    } else {
        true
    }
}

/// Check whether a string could be a valid standard or compound callsign.
pub fn chkcall(call: &str) -> (r: bool)
    ensures
        r == chkcall_spec(call@),
{
    let n = call.unicode_len();
    if n > 11 {
        return false;
    }
    if n >= 4 {
        for i in 0..(n - 3)
            invariant
                n == call@.len(),
                4 <= n <= 11,
                forall|j: int|
                    0 <= j < i ==> !(#[trigger] call@[j] == '.' && call@[j + 1] == '+' && call@[j
                        + 2] == '-' && call@[j + 3] == '?'),
        {
            if call.get_char(i) == '.' && call.get_char(i + 1) == '+' && call.get_char(i + 2)
                == '-' && call.get_char(i + 3) == '?' {
                return false;
            }
        }
    }
    if n > 6 {
        for i in 0..n
            invariant
                n == call@.len(),
                7 <= n <= 11,
                forall|j: int|
                    0 <= j <= n - 4 ==> !(#[trigger] call@[j] == '.' && call@[j + 1] == '+'
                        && call@[j + 2] == '-' && call@[j + 3] == '?'),
                forall|j: int| 0 <= j < i ==> call@[j] != '/',
        {
            if call.get_char(i) == '/' {
                return true;
            }
        }
        return false;
    }
    true
}

/// The 15-bit grid or report field with the rotate flag in bit 15: standard
/// grids map below MAXGRID4, the acknowledgements and the blank use the
/// sentinels above it, and signed two-digit reports (optionally after an R)
/// land at MAXGRID4 + 35 + report; None when the string fits no form.
pub open spec fn packgrid_spec(g: Seq<char>) -> Option<u16> {
    if g =~= "RRR"@ {
        Some((MAXGRID4 + 2) as u16)
    } else if g =~= "RR73"@ {
        Some((MAXGRID4 + 3) as u16)
    } else if g =~= "73"@ {
        Some((MAXGRID4 + 4) as u16)
    } else if g.len() == 0 || g =~= " "@ {
        Some((MAXGRID4 + 1) as u16)
    } else if g.len() == 4 && 'A' <= g[0] <= 'R' && 'A' <= g[1] <= 'R' && is_digit_char(g[2])
        && is_digit_char(g[3]) {
        Some(
            ((((g[0] as int - 'A' as int) * 18 + (g[1] as int - 'A' as int)) * 10 + (g[2] as int
                - '0' as int)) * 10 + (g[3] as int - '0' as int)) as u16,
        )
    } else {
        let rep = if g.len() > 0 && g[0] == 'R' {
            g.skip(1)
        } else {
            g
        };
        if is_dd_seq(rep) && rep.len() >= 1 && (if rep[0] == '+' || rep[0] == '-' {
            rep.len() == 3
        } else {
            rep.len() == 2
        }) && -30 <= dd_value(rep) <= 99 {
            if g.len() > 0 && g[0] == 'R' {
                Some((((MAXGRID4 + 35 + dd_value(rep)) as u16) | 0x8000) as u16)
            } else {
                Some(((MAXGRID4 + 35 + dd_value(rep)) as u16))
            }
        } else {
            None
        }
    }
}

/// Pack a grid locator, acknowledgement, blank, or signed report into the
/// 16-bit grid field; None when the string fits no form.
pub fn packgrid(grid4: &str) -> (r: Option<u16>)
    ensures
        r == packgrid_spec(grid4@),
{
    proof {
        reveal_strlit("RRR");
        reveal_strlit("RR73");
        reveal_strlit("73");
        reveal_strlit(" ");
    }
    let n = grid4.unicode_len();

    if n == 3 && grid4.get_char(0) == 'R' && grid4.get_char(1) == 'R' && grid4.get_char(2)
        == 'R' {
        proof {
            assert(grid4@ =~= "RRR"@);
        }
        return Some(MAXGRID4 + 2);
    }
    if n == 4 && grid4.get_char(0) == 'R' && grid4.get_char(1) == 'R' && grid4.get_char(2) == '7'
        && grid4.get_char(3) == '3' {
        proof {
            assert(grid4@ =~= "RR73"@);
        }
        return Some(MAXGRID4 + 3);
    }
    if n == 2 && grid4.get_char(0) == '7' && grid4.get_char(1) == '3' {
        proof {
            assert(grid4@ =~= "73"@);
        }
        return Some(MAXGRID4 + 4);
    }
    if n == 0 || (n == 1 && grid4.get_char(0) == ' ') {
        return Some(MAXGRID4 + 1);
    }

    if n == 4 {
        let g0 = grid4.get_char(0);
        let g1 = grid4.get_char(1);
        let g2 = grid4.get_char(2);
        let g3 = grid4.get_char(3);
        if g0 >= 'A' && g0 <= 'R' && g1 >= 'A' && g1 <= 'R' && g2 >= '0' && g2 <= '9' && g3
            >= '0' && g3 <= '9' {
            let mut igrid4: u16 = (g0 as u8 - 'A' as u8) as u16;
            igrid4 = igrid4 * 18 + (g1 as u8 - 'A' as u8) as u16;
            igrid4 = igrid4 * 10 + (g2 as u8 - '0' as u8) as u16;
            igrid4 = igrid4 * 10 + (g3 as u8 - '0' as u8) as u16;
            return Some(igrid4);
        }
    }

    let has_r = grid4.get_char(0) == 'R';
    let from: usize = if has_r {
        1
    } else {
        0
    };
    let m = n - from;
    if m < 2 || m > 3 {
        return None;
    }
    let first = grid4.get_char(from);
    proof {
        assert(grid4@.skip(from as int)[0] == grid4@[from as int]);
    }
    let signed = first == '+' || first == '-';
    if (signed && m != 3) || (!signed && m != 2) {
        return None;
    }
    let d0 = grid4.get_char(from + (m - 2));
    let d1 = grid4.get_char(from + (m - 1));
    proof {
        assert(grid4@.skip(from as int)[m - 2] == grid4@[from + (m - 2)]);
        assert(grid4@.skip(from as int)[m - 1] == grid4@[from + (m - 1)]);
    }
    if !(d0 >= '0' && d0 <= '9' && d1 >= '0' && d1 <= '9') {
        return None;
    }
    let rep = grid4.substring_char(from, n);
    proof {
        assert(rep@ =~= grid4@.skip(from as int));
        let repv = grid4@.skip(from as int);
        assert forall|k: int| (if repv[0] == '+' || repv[0] == '-' {
            1int
        } else {
            0int
        }) <= k < repv.len() implies '0' <= #[trigger] repv[k] <= '9' by {
            assert(repv[k] == grid4@[k + from]);
        }
    }
    let dd = dd_to_int(rep);
    proof {
        let repv = grid4@.skip(from as int);
        let k: int = if repv[0] == '+' || repv[0] == '-' {
            1
        } else {
            0
        };
        lemma_dec_value_bound(repv.skip(k));
        assert(pow10(0) == 1);
        assert(pow10(1) == 10);
        assert(pow10(2) == 100);
        assert(repv.skip(k).len() == 2);
        assert(k == 0 ==> repv.skip(0) =~= repv);
        assert(grid4@.skip(0) =~= grid4@);
        assert(-99 <= dd_value(repv) <= 99);
    }
    if dd < -30 {
        return None;
    }
    let irpt = (35 + dd) as u16;
    if has_r {
        Some((MAXGRID4 + irpt) | 0x8000)
    } else {
        Some(MAXGRID4 + irpt)
    }
}

/// Position of the first blank at or after `from`, or the length when none.
pub open spec fn space_or_end(s: Seq<char>, from: int) -> int
    decreases s.len() - from,
{
    if from < 0 || from >= s.len() {
        s.len() as int
    } else if s[from] == ' ' {
        from
    } else {
        space_or_end(s, from + 1)
    }
}

/// First token of a blank-separated message.
pub open spec fn token0(s: Seq<char>) -> Seq<char> {
    s.take(space_or_end(s, 0))
}

/// Second token of a blank-separated message; empty when there is none.
pub open spec fn token1(s: Seq<char>) -> Seq<char> {
    let sp1 = space_or_end(s, 0);
    if sp1 < s.len() {
        s.subrange(sp1 + 1, space_or_end(s, sp1 + 1))
    } else {
        Seq::empty()
    }
}

/// Third token of a blank-separated message; empty when there is none.
pub open spec fn token2(s: Seq<char>) -> Seq<char> {
    let sp1 = space_or_end(s, 0);
    let sp2 = space_or_end(s, sp1 + 1);
    if sp1 < s.len() && sp2 < s.len() {
        s.subrange(sp2 + 1, space_or_end(s, sp2 + 1))
    } else {
        Seq::empty()
    }
}

/// The grid field that a standard message packs: the third token when the
/// message has one, the blank sentinel otherwise.
pub open spec fn msg_grid_field(s: Seq<char>) -> Option<u16> {
    let sp1 = space_or_end(s, 0);
    let sp2 = space_or_end(s, sp1 + 1);
    if sp1 < s.len() && sp2 < s.len() {
        packgrid_spec(token2(s))
    } else {
        Some((MAXGRID4 + 1) as u16)
    }
}

/// True when a message packs in the standard form: two callsign tokens and
/// a packable grid or report field.
pub open spec fn pack77_1_ok(s: Seq<char>) -> bool {
    space_or_end(s, 0) < s.len() && pack28_spec(token0(s)) >= 0 && pack28_spec(token1(s)) >= 0
        && msg_grid_field(s) is Some
}

/// The ten packed payload bytes of a standard message: the two 29-bit
/// callsign fields, the 16-bit grid field, and the message type.
pub open spec fn std_payload_byte(s: Seq<char>, i: int) -> u8 {
    let na = (pack28_spec(token0(s)) * 2) as u32;
    let nb = (pack28_spec(token1(s)) * 2) as u32;
    let ig = msg_grid_field(s).unwrap();
    if i == 0 {
        (na >> 21) as u8
    } else if i == 1 {
        (na >> 13) as u8
    } else if i == 2 {
        (na >> 5) as u8
    } else if i == 3 {
        ((na << 3) as u8) | ((nb >> 26) as u8)
    } else if i == 4 {
        (nb >> 18) as u8
    } else if i == 5 {
        (nb >> 10) as u8
    } else if i == 6 {
        (nb >> 2) as u8
    } else if i == 7 {
        ((nb << 6) as u8) | ((ig >> 10) as u8)
    } else if i == 8 {
        (ig >> 2) as u8
    } else {
        ((ig << 6) as u8) | 8u8
    }
}

/// Position of the first blank at or after `from`.
fn find_space(s: &str, from: usize) -> (r: usize)
    requires
        from <= s@.len(),
    ensures
        r == space_or_end(s@, from as int),
        from <= r <= s@.len(),
{
    let n = s.unicode_len();
    let mut i = from;
    while i < n && s.get_char(i) != ' '
        invariant
            n == s@.len(),
            from <= i <= n,
            space_or_end(s@, from as int) == space_or_end(s@, i as int),
        decreases n - i,
    {
        i += 1;
    }
    i
}

/// Pack a standard two-callsign message with an optional grid or report
/// into the 77-bit payload; returns 0 on success and leaves the buffer
/// bytes past the payload untouched, or returns -1 when either callsign or
/// the grid field fits no standard form.
pub fn pack77_1(msg: &String, b77: &mut [u8; FTX_LDPC_K_BYTES]) -> (r: i32)
    ensures
        r == 0 || r == -1,
        (r == 0) <==> pack77_1_ok(msg@),
        r == 0 ==> forall|i: int| 0 <= i < 10 ==> final(b77)@[i] == std_payload_byte(msg@, i),
        r == 0 ==> final(b77)@[10] == old(b77)@[10] && final(b77)@[11] == old(b77)@[11],
        r == -1 ==> final(b77)@ == old(b77)@,
{
    let s = msg.as_str();
    let n = s.unicode_len();
    let sp1 = find_space(s, 0);
    if sp1 >= n {
        return -1;
    }
    let sp2 = find_space(s, sp1 + 1);
    let t0 = s.substring_char(0, sp1);
    let t1 = s.substring_char(sp1 + 1, sp2);
    proof {
        assert(t0@ =~= token0(msg@));
        assert(t1@ =~= token1(msg@));
    }
    let n28a = pack28(t0);
    let n28b = pack28(t1);
    if n28a < 0 || n28b < 0 {
        return -1;
    }

    let igrid4: u16;
    if sp2 < n {
        let sp3 = find_space(s, sp2 + 1);
        let t2 = s.substring_char(sp2 + 1, sp3);
        proof {
            assert(t2@ =~= token2(msg@));
        }
        match packgrid(t2) {
            Some(g) => {
                igrid4 = g;
            },
            None => {
                return -1;
            },
        }
    } else {
        igrid4 = MAXGRID4 + 1;
    }

    let i3: u8 = 1;

    let na = (n28a as u32) << 1;
    let nb = (n28b as u32) << 1;

    b77[0] = (na >> 21) as u8;
    b77[1] = (na >> 13) as u8;
    b77[2] = (na >> 5) as u8;
    b77[3] = ((na << 3) as u8) | ((nb >> 26) as u8);
    b77[4] = (nb >> 18) as u8;
    b77[5] = (nb >> 10) as u8;
    b77[6] = (nb >> 2) as u8;
    b77[7] = ((nb << 6) as u8) | ((igrid4 >> 10) as u8);
    b77[8] = (igrid4 >> 2) as u8;
    b77[9] = ((igrid4 << 6) as u8) | (i3 << 3);

    proof {
        assert(0 <= n28a < 0x10000000 ==> ((n28a as u32) << 1) == (n28a * 2) as u32)
            by (bit_vector);
        assert(0 <= n28b < 0x10000000 ==> ((n28b as u32) << 1) == (n28b * 2) as u32)
            by (bit_vector);
        assert((1u8 << 3) == 8u8) by (bit_vector);
    }

    0
}

/// Code of the character at position `j` of the free-text body: its place
/// in the full alphabet, or zero when absent or past the end.
pub open spec fn text_code(t: Seq<char>, j: int) -> int {
    if 0 <= j < t.len() && table_index(0, t[j]) > 0 {
        table_index(0, t[j])
    } else {
        0
    }
}

/// Base-42 value of the first `j` positions of the free-text body.
pub open spec fn text_value(t: Seq<char>, j: int) -> int
    decreases j,
{
    if j <= 0 {
        0
    } else {
        text_value(t, j - 1) * 42 + text_code(t, j - 1)
    }
}

/// Forty-two to the power `j`.
pub open spec fn pow42(j: nat) -> int
    decreases j,
{
    if j == 0 {
        1
    } else {
        42 * pow42((j - 1) as nat)
    }
}

/// Byte `i` of the free-text payload: the doubled 71-bit base-42 value of
/// the trimmed 13-character text, stored big-endian in nine bytes with the
/// type bits cleared.
pub open spec fn text77_byte(t: Seq<char>, i: int) -> u8 {
    let w = (2 * text_value(trim_spaces(t), 13)) as u128;
    if i == 8 {
        ((w >> 0u128) as u8) & 0xfe
    } else {
        (w >> ((8 * (8 - i)) as u128)) as u8
    }
}

/// Thirty-eight to the power `j`.
pub open spec fn pow38(j: nat) -> int
    decreases j,
{
    if j == 0 {
        1
    } else {
        38 * pow38((j - 1) as nat)
    }
}

/// The concrete values of the small powers of thirty-eight.
pub proof fn lemma_pow38_concrete()
    ensures
        pow38(0) == 1,
        pow38(10) == 6278211847988224,
{
    assert(pow38(0) == 1);
    assert(pow38(1) == 38);
    assert(pow38(2) == 1444);
    assert(pow38(3) == 54872);
    assert(pow38(4) == 2085136);
    assert(pow38(5) == 79235168);
    assert(pow38(6) == 3010936384);
    assert(pow38(7) == 114415582592);
    assert(pow38(8) == 4347792138496);
    assert(pow38(9) == 165216101262848);
    assert(pow38(10) == 6278211847988224);
}

/// A power of thirty-eight is at least one.
pub proof fn lemma_pow38_pos_pub(a: nat)
    ensures
        pow38(a) >= 1,
    decreases a,
{
    if a > 0 {
        lemma_pow38_pos_pub((a - 1) as nat);
    }
}

/// The concrete values of the small powers of forty-two.
pub proof fn lemma_pow42_concrete()
    ensures
        pow42(0) == 1,
        pow42(12) == 30129469486639681536,
{
    lemma_pow42_values();
    assert(pow42(0) == 1);
}

/// A power of forty-two is at least one.
pub proof fn lemma_pow42_pos_pub(a: nat)
    ensures
        pow42(a) >= 1,
{
    lemma_pow42_pos(a);
}

proof fn lemma_pow42_values()
    ensures
        pow42(13) < 0x80_0000_0000_0000_0000,
        pow42(12) == 30129469486639681536,
{
    assert(pow42(0) == 1);
    assert(pow42(1) == 42);
    assert(pow42(2) == 1764);
    assert(pow42(3) == 74088);
    assert(pow42(4) == 3111696);
    assert(pow42(5) == 130691232);
    assert(pow42(6) == 5489031744);
    assert(pow42(7) == 230539333248);
    assert(pow42(8) == 9682651996416);
    assert(pow42(9) == 406671383849472);
    assert(pow42(10) == 17080198121677824);
    assert(pow42(11) == 717368321110468608);
    assert(pow42(12) == 30129469486639681536);
    assert(pow42(13) == 1265437718438866624512);
}

proof fn lemma_pow42_pos(a: nat)
    ensures
        pow42(a) >= 1,
    decreases a,
{
    if a > 0 {
        lemma_pow42_pos((a - 1) as nat);
    }
}

proof fn lemma_pow42_mono(a: nat, b: nat)
    requires
        a <= b,
    ensures
        pow42(a) <= pow42(b),
    decreases b,
{
    if a < b {
        lemma_pow42_mono(a, (b - 1) as nat);
        lemma_pow42_pos((b - 1) as nat);
    }
}

proof fn lemma_text_value_bound(t: Seq<char>, j: nat)
    ensures
        0 <= text_value(t, j as int) < pow42(j),
    decreases j,
{
    if j == 0 {
    } else {
        lemma_text_value_bound(t, (j - 1) as nat);
    }
}

/// Pack free text into the 77-bit payload: the trimmed text, read as a
/// 13-digit base-42 number, fills the first 71 bits, and the type fields
/// are zero.
pub fn packtext77(text: &String, b77: &mut [u8; FTX_LDPC_K_BYTES])
    ensures
        forall|i: int| 0 <= i < 9 ==> final(b77)@[i] == text77_byte(text@, i),
        final(b77)@[9] == 0,
        final(b77)@[10] == old(b77)@[10],
        final(b77)@[11] == old(b77)@[11],
{
    let t = trim_str(text.as_str());
    let tn = t.unicode_len();

    let mut v: u128 = 0;
    for j in 0..13usize
        invariant
            t@ == trim_spaces(text@),
            tn == t@.len(),
            v == text_value(t@, j as int),
            0 <= v < pow42(j as nat),
    {
        proof {
            lemma_pow42_values();
            lemma_text_value_bound(t@, (j + 1) as nat);
            lemma_pow42_mono((j + 1) as nat, 13);
            lemma_pow42_pos(j as nat);
        }
        let q: u128 = if j < tn {
            let ci = char_index(0, t.get_char(j));
            if ci > 0 {
                ci as u128
            } else {
                0
            }
        } else {
            0
        };
        v = v * 42 + q;
    }
    proof {
        lemma_pow42_values();
    }
    let w: u128 = 2 * v;

    for i in 0..9usize
        invariant
            w == (2 * text_value(trim_spaces(text@), 13)) as u128,
            forall|k: int| 0 <= k < i ==> b77@[k] == (w >> ((8 * (8 - k)) as u128)) as u8,
            b77@[10] == old(b77)@[10],
            b77@[11] == old(b77)@[11],
    {
        let sh: u128 = (8 * (8 - i)) as u128;
        b77[i] = (w >> sh) as u8;
    }
    b77[8] = b77[8] & 0xfe;
    b77[9] = 0;
}

/// Pack a message into the 77-bit payload: in the standard two-callsign
/// form when it fits, as free text otherwise. Always succeeds.
pub fn pack77(msg: &String, c77: &mut [u8; FTX_LDPC_K_BYTES]) -> (r: i32)
    ensures
        r == 0,
        pack77_1_ok(msg@) ==> forall|i: int| 0 <= i < 10 ==> final(c77)@[i] == std_payload_byte(
            msg@,
            i,
        ),
        !pack77_1_ok(msg@) ==> (forall|i: int| 0 <= i < 9 ==> final(c77)@[i] == text77_byte(
            msg@,
            i,
        )) && final(c77)@[9] == 0,
        final(c77)@[10] == old(c77)@[10] && final(c77)@[11] == old(c77)@[11],
{
    if pack77_1(msg, c77) == 0 {
        return 0;
    }
    packtext77(msg, c77);
    0
}

} // verus!
