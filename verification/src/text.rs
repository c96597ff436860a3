//! Character tables and fixed-width decimal helpers used by message packing
//! and unpacking.
use vstd::prelude::*;

verus! {

/// Relies on String::push: appends one character at the end.
#[verifier::external_body]
pub fn push_char(s: &mut String, c: char)
    ensures
        final(s)@ == old(s)@.push(c),
{
    s.push(c);
}

/// Number of characters in packing alphabet `t`: blank and specials extend
/// the digit and letter ranges depending on the table.
pub open spec fn table_size(t: int) -> int {
    if t == 0 {
        42
    } else if t == 1 {
        37
    } else if t == 2 {
        36
    } else if t == 3 {
        10
    } else if t == 4 {
        27
    } else if t == 5 {
        38
    } else {
        0
    }
}

/// Character `i` of packing alphabet `t`: an optional blank, then digits,
/// then letters, then the table's special characters; `_` past the end.
pub open spec fn table_char(t: int, i: int) -> char {
    let sp: int = if t == 2 || t == 3 {
        0
    } else {
        1
    };
    if sp == 1 && i == 0 {
        ' '
    } else {
        let j = i - sp;
        if t != 4 && 0 <= j < 10 {
            (('0' as u8) + j) as char
        } else {
            let k = if t != 4 {
                j - 10
            } else {
                j
            };
            if t != 3 && 0 <= k < 26 {
                (('A' as u8) + k) as char
            } else {
                let e = if t != 3 {
                    k - 26
                } else {
                    k
                };
                if t == 0 && e == 0 {
                    '+'
                } else if t == 0 && e == 1 {
                    '-'
                } else if t == 0 && e == 2 {
                    '.'
                } else if t == 0 && e == 3 {
                    '/'
                } else if t == 0 && e == 4 {
                    '?'
                } else if t == 5 && e == 0 {
                    '/'
                } else {
                    '_'
                }
            }
        }
    }
}

/// Position of character `c` in packing alphabet `t`, or -1 if absent.
pub open spec fn table_index(t: int, c: char) -> int {
    let sp: int = if t == 2 || t == 3 {
        0
    } else {
        1
    };
    if c == ' ' {
        if sp == 1 {
            0
        } else {
            -1
        }
    } else if '0' <= c <= '9' {
        if t != 4 {
            sp + (c as int - '0' as int)
        } else {
            -1
        }
    } else if 'A' <= c <= 'Z' {
        if t != 3 {
            sp + (if t != 4 {
                10int
            } else {
                0int
            }) + (c as int - 'A' as int)
        } else {
            -1
        }
    } else if t == 0 && c == '+' {
        37
    } else if t == 0 && c == '-' {
        38
    } else if t == 0 && c == '.' {
        39
    } else if t == 0 && c == '/' {
        40
    } else if t == 0 && c == '?' {
        41
    } else if t == 5 && c == '/' {
        37
    } else {
        -1
    }
}

/// Mapping a position found in a table back through the table returns the
/// original character.
pub proof fn lemma_table_index_char(t: int, c: char)
    requires
        0 <= t < 6,
        table_index(t, c) >= 0,
    ensures
        table_char(t, table_index(t, c)) == c,
{
}

/// A position found in a table lies below the table's size.
pub proof fn lemma_table_index_size(t: int, c: char)
    requires
        0 <= t < 6,
    ensures
        -1 <= table_index(t, c) < table_size(t),
{
}

/// Map position `c` of packing alphabet `table_idx` to its character;
/// positions past the table's end give `_`.
pub fn charn(c: u8, table_idx: u8) -> (r: char)
    ensures
        r == table_char(table_idx as int, c as int),
{
    let mut c = c;
    if table_idx != 2 && table_idx != 3 {
        if c == 0 {
            return ' ';
        }
        c -= 1;
    }

    if table_idx != 4 {
        if c < 10 {
            return (('0' as u8) + c) as char;
        }
        c -= 10;
    }

    if table_idx != 3 {
        if c < 26 {
            return (('A' as u8) + c) as char;
        }
        c -= 26;
    }

    if table_idx == 0 {
        if c == 0 {
            return '+';
        }
        if c == 1 {
            return '-';
        }
        if c == 2 {
            return '.';
        }
        if c == 3 {
            return '/';
        }
        if c == 4 {
            return '?';
        }
    } else if table_idx == 5 && c == 0 {
        return '/';
    }
    '_'
}

/// Position of `c` in packing alphabet `table_idx`, or -1 if absent.
pub fn char_index(table_idx: u8, c: char) -> (r: i32)
    ensures
        r == table_index(table_idx as int, c),
        -1 <= r < 42,
{
    let t = table_idx;
    if c == ' ' {
        if t != 2 && t != 3 {
            return 0;
        }
        return -1;
    }
    if c >= '0' && c <= '9' {
        if t != 4 {
            let d = (c as u8) - ('0' as u8);
            if t == 2 || t == 3 {
                return d as i32;
            }
            return d as i32 + 1;
        }
        return -1;
    }
    if c >= 'A' && c <= 'Z' {
        if t == 3 {
            return -1;
        }
        let d = (c as u8) - ('A' as u8);
        let sp: i32 = if t == 2 {
            0
        } else {
            1
        };
        let dig: i32 = if t != 4 {
            10
        } else {
            0
        };
        return sp + dig + d as i32;
    }
    if t == 0 {
        if c == '+' {
            return 37;
        }
        if c == '-' {
            return 38;
        }
        if c == '.' {
            return 39;
        }
        if c == '/' {
            return 40;
        }
        if c == '?' {
            return 41;
        }
    }
    if t == 5 && c == '/' {
        return 37;
    }
    -1
}

/// True when `c` lies between `min` and `max` in byte value (the helper
/// compares the low bytes of the character codes, as the packers expect
/// ASCII input).
pub fn in_range(c: char, min: char, max: char) -> (r: bool)
    ensures
        r == ((min as u8) <= (c as u8) && (c as u8) <= (max as u8)),
{
    (c as u8 >= min as u8) && (c as u8 <= max as u8)
}

/// The last `w` decimal digits of `v`, most significant first.
pub open spec fn dec_digits(v: int, w: nat) -> Seq<char>
    decreases w,
{
    if w == 0 {
        Seq::empty()
    } else {
        dec_digits(v / 10, (w - 1) as nat).push((('0' as u8) + (v % 10)) as char)
    }
}

/// A fixed-width decimal rendering: an optional sign followed by exactly
/// `w` digits of the magnitude.
pub open spec fn int_dd(value: int, w: nat, full_sign: bool) -> Seq<char> {
    let sign: Seq<char> = if full_sign {
        seq![if value >= 0 {
            '+'
        } else {
            '-'
        }]
    } else if value < 0 {
        seq!['-']
    } else {
        Seq::empty()
    };
    sign + dec_digits(if value >= 0 {
        value
    } else {
        -value
    }, w)
}

fn push_digits(mesg: &mut String, v: u32, w: usize)
    ensures
        final(mesg)@ == old(mesg)@ + dec_digits(v as int, w as nat),
    decreases w,
{
    if w == 0 {
        proof {
            assert(old(mesg)@ + dec_digits(v as int, 0) =~= old(mesg)@);
        }
        return ;
    }
    push_digits(mesg, v / 10, w - 1);
    push_char(mesg, (('0' as u8) + (v % 10) as u8) as char);
}

/// Append `value` as a fixed-width decimal of `width` digits; a sign is
/// always written when `full_sign` is set, and only for negative values
/// otherwise.
pub fn int_to_dd(mesg: &mut String, value: i32, width: usize, full_sign: bool)
    requires
        -1000000 < value < 1000000,
    ensures
        final(mesg)@ == old(mesg)@ + int_dd(value as int, width as nat, full_sign),
{
    if full_sign {
        if value >= 0 {
            push_char(mesg, '+');
        } else {
            push_char(mesg, '-');
        }
    } else if value < 0 {
        push_char(mesg, '-');
    }
    let mag: u32 = if value >= 0 {
        value as u32
    } else {
        (-value) as u32
    };
    push_digits(mesg, mag, width);
    proof {
        assert(final(mesg)@ =~= old(mesg)@ + int_dd(value as int, width as nat, full_sign));
    }
}

/// A decimal string shape that `dd_to_int` accepts: an optional sign, then
/// one to five digits.
pub open spec fn is_dd_seq(s: Seq<char>) -> bool {
    let k: int = if s.len() > 0 && (s[0] == '+' || s[0] == '-') {
        1
    } else {
        0
    };
    1 <= s.len() - k <= 5 && forall|i: int| k <= i < s.len() ==> '0' <= #[trigger] s[i] <= '9'
}

/// Value of a digit string, most significant digit first.
pub open spec fn dec_value(s: Seq<char>) -> int
    decreases s.len(),
{
    if s.len() == 0 {
        0
    } else {
        dec_value(s.drop_last()) * 10 + (s.last() as int - '0' as int)
    }
}

/// Ten to the power `k`.
pub open spec fn pow10(k: nat) -> int
    decreases k,
{
    if k == 0 {
        1
    } else {
        10 * pow10((k - 1) as nat)
    }
}

/// A `k`-digit string has a value below ten to the `k`.
pub proof fn lemma_dec_value_bound(s: Seq<char>)
    requires
        forall|i: int| 0 <= i < s.len() ==> '0' <= #[trigger] s[i] <= '9',
    ensures
        0 <= dec_value(s) < pow10(s.len()),
    decreases s.len(),
{
    if s.len() > 0 {
        lemma_dec_value_bound(s.drop_last());
    }
}

/// Value of an optionally signed digit string.
pub open spec fn dd_value(s: Seq<char>) -> int {
    if s.len() > 0 && s[0] == '-' {
        -dec_value(s.skip(1))
    } else if s.len() > 0 && s[0] == '+' {
        dec_value(s.skip(1))
    } else {
        dec_value(s)
    }
}

/// Parse an optionally signed decimal string.
pub fn dd_to_int(s: &str) -> (r: i32)
    requires
        is_dd_seq(s@),
    ensures
        r == dd_value(s@),
{
    let len = s.unicode_len();
    let first = s.get_char(0);
    let neg = first == '-';
    let start: usize = if first == '-' || first == '+' {
        1
    } else {
        0
    };
    proof {
        assert(s@.skip(start as int).take(0) =~= Seq::<char>::empty());
    }
    let mut v: i32 = 0;
    let mut i: usize = start;
    while i < len
        invariant
            s@.len() == len,
            start <= 1,
            start <= i <= len,
            len - start <= 5,
            forall|k: int| start <= k < len ==> '0' <= #[trigger] s@[k] <= '9',
            v == dec_value(s@.skip(start as int).take(i - start)),
            0 <= v < 100000,
        decreases len - i,
    {
        let c = s.get_char(i);
        proof {
            let digits = s@.skip(start as int);
            assert forall|k2: int| 0 <= k2 < i - start + 1 implies '0' <= #[trigger] digits.take(
                i - start + 1,
            )[k2] <= '9' by {
                assert(digits.take(i - start + 1)[k2] == s@[k2 + start]);
            }
            assert(digits.take(i - start + 1).drop_last() =~= digits.take(i - start));
            assert(digits.take(i - start + 1).last() == digits[i - start]);
            assert(digits[i - start] == s@[i as int]);
            lemma_dec_value_bound(digits.take(i - start + 1));
            assert(pow10(0) == 1);
            assert(pow10(1) == 10);
            assert(pow10(2) == 100);
            assert(pow10(3) == 1000);
            assert(pow10(4) == 10000);
            assert(pow10(5) == 100000);
            assert(pow10((i - start + 1) as nat) <= 100000);
        }
        v = v * 10 + ((c as u8) - ('0' as u8)) as i32;
        i += 1;
    }
    proof {
        assert(s@.skip(start as int).take(len - start) =~= s@.skip(start as int));
        assert(s@.skip(0) =~= s@);
    }
    if neg {
        -v
    } else {
        v
    }
}

/// The sequence with its leading blanks removed.
pub open spec fn trim_front(s: Seq<char>) -> Seq<char>
    decreases s.len(),
{
    if s.len() > 0 && s[0] == ' ' {
        trim_front(s.skip(1))
    } else {
        s
    }
}

/// The sequence with its trailing blanks removed.
pub open spec fn trim_back(s: Seq<char>) -> Seq<char>
    decreases s.len(),
{
    if s.len() > 0 && s.last() == ' ' {
        trim_back(s.drop_last())
    } else {
        s
    }
}

/// The sequence with leading and trailing blanks removed.
pub open spec fn trim_spaces(s: Seq<char>) -> Seq<char> {
    trim_back(trim_front(s))
}

pub proof fn lemma_trim_front_skip(s: Seq<char>, lo: int)
    requires
        0 <= lo <= s.len(),
        forall|j: int| 0 <= j < lo ==> s[j] == ' ',
        lo == s.len() || s[lo] != ' ',
    ensures
        trim_front(s) == s.skip(lo),
    decreases lo,
{
    if lo == 0 {
        assert(s.skip(0) =~= s);
    } else {
        lemma_trim_front_skip(s.skip(1), lo - 1);
        assert(s.skip(1).skip(lo - 1) =~= s.skip(lo));
    }
}

pub proof fn lemma_trim_back_take(s: Seq<char>, hi: int)
    requires
        0 <= hi <= s.len(),
        forall|j: int| hi <= j < s.len() ==> s[j] == ' ',
        hi == 0 || s[hi - 1] != ' ',
    ensures
        trim_back(s) == s.take(hi),
    decreases s.len(),
{
    if hi == s.len() {
        assert(s.take(hi) =~= s);
    } else {
        lemma_trim_back_take(s.drop_last(), hi);
        assert(s.drop_last() =~= s.take(s.len() - 1));
        assert(s.take(s.len() - 1).take(hi) =~= s.take(hi));
    }
}

/// The string slice with leading and trailing blanks removed.
pub fn trim_str<'a>(s: &'a str) -> (r: &'a str)
    ensures
        r@ == trim_spaces(s@),
{
    let n = s.unicode_len();
    let mut lo: usize = 0;
    while lo < n && s.get_char(lo) == ' '
        invariant
            n == s@.len(),
            0 <= lo <= n,
            forall|j: int| 0 <= j < lo ==> s@[j] == ' ',
        decreases n - lo,
    {
        lo += 1;
    }
    let mut hi: usize = n;
    while hi > lo && s.get_char(hi - 1) == ' '
        invariant
            n == s@.len(),
            lo <= hi <= n,
            lo == n || s@[lo as int] != ' ',
            forall|j: int| 0 <= j < lo ==> s@[j] == ' ',
            forall|j: int| hi <= j < n ==> s@[j] == ' ',
        decreases hi,
    {
        hi -= 1;
    }
    proof {
        lemma_trim_front_skip(s@, lo as int);
        let t = s@.skip(lo as int);
        assert forall|j: int| hi - lo <= j < t.len() implies t[j] == ' ' by {
            assert(t[j] == s@[j + lo]);
        }
        if hi > lo {
            assert(t[hi - lo - 1] == s@[hi - 1]);
        }
        lemma_trim_back_take(t, hi - lo);
        assert(t.take(hi - lo) =~= s@.subrange(lo as int, hi as int));
    }
    s.substring_char(lo, hi)
}

/// Append the characters to the string with leading and trailing blanks
/// removed.
pub fn push_trimmed(out: &mut String, chars: &Vec<char>)
    ensures
        final(out)@ == old(out)@ + trim_spaces(chars@),
{
    let n = chars.len();
    let mut lo: usize = 0;
    while lo < n && *chars.get(lo).unwrap() == ' '
        invariant
            n == chars@.len(),
            0 <= lo <= n,
            forall|j: int| 0 <= j < lo ==> chars@[j] == ' ',
        decreases n - lo,
    {
        lo += 1;
    }
    let mut hi: usize = n;
    while hi > lo && *chars.get(hi - 1).unwrap() == ' '
        invariant
            n == chars@.len(),
            lo <= hi <= n,
            lo == n || chars@[lo as int] != ' ',
            forall|j: int| 0 <= j < lo ==> chars@[j] == ' ',
            forall|j: int| hi <= j < n ==> chars@[j] == ' ',
        decreases hi,
    {
        hi -= 1;
    }
    let mut k = lo;
    while k < hi
        invariant
            n == chars@.len(),
            lo <= k <= hi <= n,
            out@ == old(out)@ + chars@.subrange(lo as int, k as int),
        decreases hi - k,
    {
        proof {
            assert(out@.push(chars@[k as int]) =~= old(out)@ + chars@.subrange(
                lo as int,
                k + 1,
            ));
        }
        push_char(out, *chars.get(k).unwrap());
        k += 1;
    }
    proof {
        lemma_trim_front_skip(chars@, lo as int);
        let t = chars@.skip(lo as int);
        assert forall|j: int| hi - lo <= j < t.len() implies t[j] == ' ' by {
            assert(t[j] == chars@[j + lo]);
        }
        if hi > lo {
            assert(t[hi - lo - 1] == chars@[hi - 1]);
        }
        lemma_trim_back_take(t, hi - lo);
        assert(t.take(hi - lo) =~= chars@.subrange(lo as int, hi as int));
        assert(out@ =~= old(out)@ + trim_spaces(chars@));
    }
}

/// The characters with leading and trailing blanks removed, as a new vector.
pub fn trimmed_vec(chars: &Vec<char>) -> (r: Vec<char>)
    ensures
        r@ == trim_spaces(chars@),
{
    let n = chars.len();
    let mut lo: usize = 0;
    while lo < n && *chars.get(lo).unwrap() == ' '
        invariant
            n == chars@.len(),
            0 <= lo <= n,
            forall|j: int| 0 <= j < lo ==> chars@[j] == ' ',
        decreases n - lo,
    {
        lo += 1;
    }
    let mut hi: usize = n;
    while hi > lo && *chars.get(hi - 1).unwrap() == ' '
        invariant
            n == chars@.len(),
            lo <= hi <= n,
            lo == n || chars@[lo as int] != ' ',
            forall|j: int| 0 <= j < lo ==> chars@[j] == ' ',
            forall|j: int| hi <= j < n ==> chars@[j] == ' ',
        decreases hi,
    {
        hi -= 1;
    }
    let mut r: Vec<char> = Vec::new();
    let mut k = lo;
    while k < hi
        invariant
            n == chars@.len(),
            lo <= k <= hi <= n,
            r@ == chars@.subrange(lo as int, k as int),
        decreases hi - k,
    {
        proof {
            assert(r@.push(chars@[k as int]) =~= chars@.subrange(lo as int, k + 1));
        }
        r.push(*chars.get(k).unwrap());
        k += 1;
    }
    proof {
        lemma_trim_front_skip(chars@, lo as int);
        let t = chars@.skip(lo as int);
        assert forall|j: int| hi - lo <= j < t.len() implies t[j] == ' ' by {
            assert(t[j] == chars@[j + lo]);
        }
        if hi > lo {
            assert(t[hi - lo - 1] == chars@[hi - 1]);
        }
        lemma_trim_back_take(t, hi - lo);
        assert(t.take(hi - lo) =~= chars@.subrange(lo as int, hi as int));
        assert(r@ =~= trim_spaces(chars@));
    }
    r
}

/// Append every character of the vector to the string.
pub fn push_all(out: &mut String, chars: &Vec<char>)
    ensures
        final(out)@ == old(out)@ + chars@,
{
    let n = chars.len();
    let mut k: usize = 0;
    while k < n
        invariant
            n == chars@.len(),
            0 <= k <= n,
            out@ == old(out)@ + chars@.subrange(0, k as int),
        decreases n - k,
    {
        proof {
            assert(out@.push(chars@[k as int]) =~= old(out)@ + chars@.subrange(0, k + 1));
        }
        push_char(out, *chars.get(k).unwrap());
        k += 1;
    }
    proof {
        assert(chars@.subrange(0, n as int) =~= chars@);
    }
}

} // verus!
