//! Snapshot document encoding and decoding.
//!
//! Every collection of the store is persisted as one JSON array with one
//! object per entity. The encoder always emits the same canonical text for a
//! given collection, and the decoder accepts exactly that canonical text, so
//! a document written by the encoder always reloads to the collection it was
//! written from.

use vstd::prelude::*;
use vstd::string::*;

use crate::storage::{AdminUser, AdminUserV, MenuCategory, MenuItem, MenuItemV, MenuPreset,
    MenuPresetV, MenuSchedule, MenuScheduleV, Notice, NoticeV, ScheduleRecurrence,
    ScheduleStatus};

verus! {

// ---------------------------------------------------------------------------
// Decimal digits
// ---------------------------------------------------------------------------

/// The character for the decimal digit `d`.
pub open spec fn dec_digit(d: u128) -> char {
    ((48 + d) as u8) as char
}

/// The canonical decimal text of `n`: no sign, no leading zeros.
pub open spec fn dec_digits(n: u128) -> Seq<char>
    decreases n,
{
    if n < 10 {
        seq![dec_digit(n)]
    } else {
        dec_digits(n / 10) + seq![dec_digit(n % 10)]
    }
}

/// The canonical decimal text of `n`, with a leading minus sign when negative.
pub open spec fn dec_digits_i64(n: i64) -> Seq<char> {
    if n >= 0 {
        dec_digits(n as u128)
    } else {
        seq!['-'] + dec_digits((-(n as int)) as u128)
    }
}

fn dec_digit_exec(d: u128) -> (c: char)
    requires
        d < 10,
    ensures
        c == dec_digit(d),
{
    ((48 + d) as u8) as char
}

/// Appends the decimal text of `n` to `out`.
pub fn push_u128(out: &mut Vec<char>, n: u128)
    ensures
        final(out)@ == old(out)@ + dec_digits(n),
    decreases n,
{
    if n < 10 {
        out.push(dec_digit_exec(n));
        proof {
            assert(out@ =~= old(out)@ + dec_digits(n));
        }
    } else {
        push_u128(out, n / 10);
        out.push(dec_digit_exec(n % 10));
        proof {
            assert(out@ =~= old(out)@ + dec_digits(n));
        }
    }
}

/// Appends the decimal text of `n` to `out`.
pub fn push_i64(out: &mut Vec<char>, n: i64)
    ensures
        final(out)@ == old(out)@ + dec_digits_i64(n),
{
    if n >= 0 {
        push_u128(out, n as u128);
    } else {
        out.push('-');
        let m: u128 = (-(n as i128)) as u128;
        proof {
            assert(m == (-(n as int)) as u128);
        }
        push_u128(out, m);
        proof {
            assert(out@ =~= old(out)@ + dec_digits_i64(n));
        }
    }
}

/// Relies on the standard library's `FromIterator` for `String`: collecting
/// a sequence of characters yields the string of exactly those characters.
#[verifier::external_body]
pub fn chars_to_string(v: &Vec<char>) -> (r: String)
    ensures
        r@ == v@,
{
    v.iter().collect()
}

/// Character-for-character equality of two text slices.
pub fn str_eq(a: &str, b: &str) -> (r: bool)
    ensures
        r == (a@ == b@),
{
    let la = a.unicode_len();
    let lb = b.unicode_len();
    if la != lb {
        return false;
    }
    let mut i: usize = 0;
    while i < la
        invariant
            i <= la,
            la == a@.len(),
            la == b@.len(),
            forall|k: int| 0 <= k < i ==> a@[k] == b@[k],
        decreases la - i,
    {
        if a.get_char(i) != b.get_char(i) {
            return false;
        }
        i = i + 1;
    }
    proof {
        assert(a@ =~= b@);
    }
    true
}

/// The characters the standard library treats as whitespace.
pub open spec fn is_space(c: char) -> bool {
    let u = c as u32;
    u == 32 || u == 9 || u == 10 || u == 11 || u == 12 || u == 13 || u == 0x85 || u == 0xa0
        || u == 0x1680 || (0x2000 <= u && u <= 0x200a) || u == 0x2028 || u == 0x2029
        || u == 0x202f || u == 0x205f || u == 0x3000
}

/// Whole text is whitespace (or empty): what trimming it leaves nothing of.
pub open spec fn blank(s: Seq<char>) -> bool {
    forall|k: int| 0 <= k < s.len() ==> is_space(s[k])
}

fn is_space_exec(c: char) -> (r: bool)
    ensures
        r == is_space(c),
{
    let u = c as u32;
    u == 32 || u == 9 || u == 10 || u == 11 || u == 12 || u == 13 || u == 0x85 || u == 0xa0
        || u == 0x1680 || (0x2000 <= u && u <= 0x200a) || u == 0x2028 || u == 0x2029
        || u == 0x202f || u == 0x205f || u == 0x3000
}

/// True when `s` trims to the empty text.
pub fn is_blank(s: &str) -> (r: bool)
    ensures
        r == blank(s@),
{
    let n = s.unicode_len();
    let mut i: usize = 0;
    while i < n
        invariant
            i <= n,
            n == s@.len(),
            forall|k: int| 0 <= k < i ==> is_space(s@[k]),
        decreases n - i,
    {
        if !is_space_exec(s.get_char(i)) {
            return false;
        }
        i = i + 1;
    }
    true
}

/// The decimal text of `n` as a `String`.
pub fn u128_to_string(n: u128) -> (r: String)
    ensures
        r@ == dec_digits(n),
{
    let mut out: Vec<char> = Vec::new();
    push_u128(&mut out, n);
    chars_to_string(&out)
}

// ---------------------------------------------------------------------------
// Number parsing
// ---------------------------------------------------------------------------

pub open spec fn is_dec_digit(c: char) -> bool {
    48 <= c as u32 <= 57
}

pub open spec fn digit_val(c: char) -> u128 {
    (c as u32 - 48) as u128
}

fn is_dec_digit_exec(c: char) -> (r: bool)
    ensures
        r == is_dec_digit(c),
{
    let u = c as u32;
    48 <= u && u <= 57
}

/// The value of a run of decimal digits, folded from the left.
pub open spec fn dec_val(ds: Seq<char>) -> int
    decreases ds.len(),
{
    if ds.len() == 0 {
        0
    } else {
        dec_val(ds.drop_last()) * 10 + digit_val(ds.last())
    }
}

/// A maximal digit run, accumulated left to right with an overflow guard.
pub open spec fn sp_u128_run(s: Seq<char>, pos: int, acc: u128) -> Option<(u128, int)>
    decreases s.len() - pos,
{
    if pos < 0 || pos >= s.len() || !is_dec_digit(s[pos]) {
        Some((acc, pos))
    } else {
        let d = digit_val(s[pos]);
        if acc <= (u128::MAX - d) / 10 {
            sp_u128_run(s, pos + 1, (10 * acc + d) as u128)
        } else {
            None
        }
    }
}

/// Parses the canonical decimal text of a `u128` at `pos`: at least one
/// digit, no leading zero, rejected on overflow.
pub open spec fn sp_parse_u128(s: Seq<char>, pos: int) -> Option<(u128, int)> {
    if 0 <= pos < s.len() && is_dec_digit(s[pos]) {
        if s[pos] == '0' {
            if pos + 1 < s.len() && is_dec_digit(s[pos + 1]) {
                None
            } else {
                Some((0, pos + 1))
            }
        } else {
            sp_u128_run(s, pos, 0)
        }
    } else {
        None
    }
}

fn u128_run(s: &Vec<char>, pos: usize, acc: u128) -> (r: Option<(u128, usize)>)
    requires
        pos <= s@.len(),
    ensures
        match r {
            Some((v, e)) => sp_u128_run(s@, pos as int, acc) == Some((v, e as int)) && pos <= e
                <= s@.len(),
            None => sp_u128_run(s@, pos as int, acc) is None,
        },
    decreases s@.len() - pos,
{
    if pos >= s.len() || !is_dec_digit_exec(s[pos]) {
        return Some((acc, pos));
    }
    let d: u128 = (s[pos] as u32 - 48) as u128;
    if acc <= (u128::MAX - d) / 10 {
        u128_run(s, pos + 1, 10 * acc + d)
    } else {
        None
    }
}

/// Parses a canonical `u128` at `pos`.
pub fn parse_u128(s: &Vec<char>, pos: usize) -> (r: Option<(u128, usize)>)
    requires
        pos <= s@.len(),
    ensures
        match r {
            Some((v, e)) => sp_parse_u128(s@, pos as int) == Some((v, e as int)) && pos < e
                <= s@.len(),
            None => sp_parse_u128(s@, pos as int) is None,
        },
{
    if pos >= s.len() || !is_dec_digit_exec(s[pos]) {
        return None;
    }
    if s[pos] == '0' {
        if pos + 1 < s.len() && is_dec_digit_exec(s[pos + 1]) {
            return None;
        }
        return Some((0, pos + 1));
    }
    match u128_run(s, pos, 0) {
        Some((v, e)) => {
            proof {
                lemma_sp_u128_run_advances(s@, pos as int, 0);
            }
            Some((v, e))
        },
        None => None,
    }
}

/// A run that accepts at least one digit moves the position forward.
proof fn lemma_sp_u128_run_advances(s: Seq<char>, pos: int, acc: u128)
    requires
        0 <= pos < s.len(),
        is_dec_digit(s[pos]),
        sp_u128_run(s, pos, acc) is Some,
    ensures
        (sp_u128_run(s, pos, acc)->0).1 > pos,
    decreases s.len() - pos,
{
    let d = digit_val(s[pos]);
    let acc2 = (10 * acc + d) as u128;
    if acc <= (u128::MAX - d) / 10 {
        if pos + 1 < s.len() && is_dec_digit(s[pos + 1]) {
            lemma_sp_u128_run_advances(s, pos + 1, acc2);
        } else {
            assert(sp_u128_run(s, pos + 1, acc2) == Some((acc2, pos + 1)));
        }
    }
}

/// Every character of a canonical decimal text is a digit.
proof fn lemma_dec_digits_are_digits(n: u128)
    ensures
        forall|k: int| 0 <= k < dec_digits(n).len() ==> is_dec_digit(#[trigger] dec_digits(n)[k]),
        dec_digits(n).len() >= 1,
    decreases n,
{
    if n >= 10 {
        lemma_dec_digits_are_digits(n / 10);
        assert forall|k: int| 0 <= k < dec_digits(n).len() implies is_dec_digit(
            #[trigger] dec_digits(n)[k],
        ) by {
            if k < dec_digits(n / 10).len() {
                assert(dec_digits(n)[k] == dec_digits(n / 10)[k]);
            } else {
                assert(dec_digits(n)[k] == dec_digit(n % 10));
            }
        }
    }
}

/// Folding the digits of `n` back up yields `n`.
proof fn lemma_dec_val_of_dec_digits(n: u128)
    ensures
        dec_val(dec_digits(n)) == n,
    decreases n,
{
    if n < 10 {
        assert(dec_digits(n) =~= seq![dec_digit(n)]);
        assert(dec_val(dec_digits(n).drop_last()) == 0);
    } else {
        lemma_dec_val_of_dec_digits(n / 10);
        assert(dec_digits(n).drop_last() =~= dec_digits(n / 10));
        assert(dec_digits(n).last() == dec_digit(n % 10));
    }
}

/// A positive number's canonical text never starts with a zero.
proof fn lemma_dec_digits_leading(n: u128)
    requires
        n > 0,
    ensures
        dec_digits(n)[0] != '0',
    decreases n,
{
    if n >= 10 {
        lemma_dec_digits_leading(n / 10);
        assert(dec_digits(n)[0] == dec_digits(n / 10)[0]);
    } else {
        assert(dec_digit(n) as u32 == 48 + n);
    }
}

/// The value of a digit-run prefix never exceeds the value of the run.
proof fn lemma_dec_val_prefix_le(s: Seq<char>, start: int, a: int, b: int)
    requires
        0 <= start <= a <= b <= s.len(),
        forall|k: int| start <= k < b ==> is_dec_digit(#[trigger] s[k]),
    ensures
        0 <= dec_val(s.subrange(start, a)) <= dec_val(s.subrange(start, b)),
    decreases b - a,
{
    if a == b {
        lemma_dec_val_nonneg(s.subrange(start, a));
    } else {
        lemma_dec_val_prefix_le(s, start, a + 1, b);
        let p = s.subrange(start, a);
        let q = s.subrange(start, a + 1);
        assert(q.drop_last() =~= p);
        assert(q.last() == s[a]);
        lemma_dec_val_nonneg(p);
    }
}

proof fn lemma_dec_val_nonneg(ds: Seq<char>)
    ensures
        dec_val(ds) >= 0,
    decreases ds.len(),
{
    if ds.len() > 0 {
        lemma_dec_val_nonneg(ds.drop_last());
        assert(digit_val(ds.last()) >= 0);
    }
}

/// Running the accumulator over the digit region `[start, e)` of `s` ends
/// at `e` with the region's value.
proof fn lemma_sp_u128_run_region(s: Seq<char>, start: int, pos: int, e: int)
    requires
        0 <= start <= pos <= e <= s.len(),
        forall|k: int| start <= k < e ==> is_dec_digit(#[trigger] s[k]),
        e == s.len() || !is_dec_digit(s[e]),
        0 <= dec_val(s.subrange(start, e)) <= u128::MAX,
    ensures
        sp_u128_run(s, pos, dec_val(s.subrange(start, pos)) as u128) == Some(
            (dec_val(s.subrange(start, e)) as u128, e),
        ),
    decreases e - pos,
{
    lemma_dec_val_prefix_le(s, start, pos, e);
    let acc = dec_val(s.subrange(start, pos)) as u128;
    if pos == e {
        assert(sp_u128_run(s, pos, acc) == Some((acc, pos)));
    } else {
        let d = digit_val(s[pos]);
        let q = s.subrange(start, pos + 1);
        assert(q.drop_last() =~= s.subrange(start, pos));
        assert(q.last() == s[pos]);
        assert(dec_val(q) == acc * 10 + d);
        lemma_dec_val_prefix_le(s, start, pos + 1, e);
        assert(acc * 10 + d <= u128::MAX);
        assert(acc <= (u128::MAX - d) / 10) by {
            assert(acc * 10 <= u128::MAX - d);
        }
        lemma_sp_u128_run_region(s, start, pos + 1, e);
    }
}

/// Parsing right after the canonical text of `n` recovers `n`, as long as
/// what follows does not begin with a digit.
pub proof fn lemma_parse_u128_inverts(pre: Seq<char>, n: u128, rest: Seq<char>)
    requires
        rest.len() == 0 || !is_dec_digit(rest[0]),
    ensures
        sp_parse_u128(pre + dec_digits(n) + rest, pre.len() as int) == Some(
            (n, (pre.len() + dec_digits(n).len()) as int),
        ),
{
    let s = pre + dec_digits(n) + rest;
    let start = pre.len() as int;
    let e = start + dec_digits(n).len();
    lemma_dec_digits_are_digits(n);
    assert forall|k: int| start <= k < e implies is_dec_digit(#[trigger] s[k]) by {
        assert(s[k] == dec_digits(n)[k - start]);
    }
    assert(s[start] == dec_digits(n)[0]);
    if e < s.len() {
        assert(s[e] == rest[0]);
    }
    if n == 0 {
        assert(dec_digits(0) =~= seq![dec_digit(0)]);
        assert(s[start] == '0') by {
            assert(dec_digit(0) as u32 == 48);
            assert('0' as u32 == 48);
        }
        assert(e == start + 1);
    } else {
        lemma_dec_digits_leading(n);
        assert(s[start] != '0');
        assert(s.subrange(start, e) =~= dec_digits(n));
        lemma_dec_val_of_dec_digits(n);
        assert(s.subrange(start, start) =~= Seq::<char>::empty());
        lemma_sp_u128_run_region(s, start, start, e);
    }
}

// ---------------------------------------------------------------------------
// Signed numbers
// ---------------------------------------------------------------------------

/// Parses the canonical decimal text of an `i64` at `pos`.
pub open spec fn sp_parse_i64(s: Seq<char>, pos: int) -> Option<(i64, int)> {
    if 0 <= pos < s.len() && s[pos] == '-' {
        match sp_parse_u128(s, pos + 1) {
            Some((m, e)) => if 1 <= m <= 0x8000_0000_0000_0000u128 {
                Some(((-(m as int)) as i64, e))
            } else {
                None
            },
            None => None,
        }
    } else {
        match sp_parse_u128(s, pos) {
            Some((m, e)) => if m <= i64::MAX as u128 {
                Some((m as i64, e))
            } else {
                None
            },
            None => None,
        }
    }
}

/// Parses a canonical `i64` at `pos`.
pub fn parse_i64(s: &Vec<char>, pos: usize) -> (r: Option<(i64, usize)>)
    requires
        pos <= s@.len(),
    ensures
        match r {
            Some((v, e)) => sp_parse_i64(s@, pos as int) == Some((v, e as int)) && pos < e
                <= s@.len(),
            None => sp_parse_i64(s@, pos as int) is None,
        },
{
    if pos < s.len() && s[pos] == '-' {
        match parse_u128(s, pos + 1) {
            Some((m, e)) => {
                if 1 <= m && m <= 0x8000_0000_0000_0000u128 {
                    let v: i64 = (-(m as i128)) as i64;
                    proof {
                        assert(v as int == -(m as int));
                    }
                    Some((v, e))
                } else {
                    None
                }
            },
            None => None,
        }
    } else {
        match parse_u128(s, pos) {
            Some((m, e)) => {
                if m <= i64::MAX as u128 {
                    Some((m as i64, e))
                } else {
                    None
                }
            },
            None => None,
        }
    }
}

/// Parsing right after the canonical text of `n` recovers `n`, as long as
/// what follows does not begin with a digit.
pub proof fn lemma_parse_i64_inverts(pre: Seq<char>, n: i64, rest: Seq<char>)
    requires
        rest.len() == 0 || !is_dec_digit(rest[0]),
    ensures
        sp_parse_i64(pre + dec_digits_i64(n) + rest, pre.len() as int) == Some(
            (n, (pre.len() + dec_digits_i64(n).len()) as int),
        ),
{
    let s = pre + dec_digits_i64(n) + rest;
    let p = pre.len() as int;
    if n >= 0 {
        let m = n as u128;
        assert(pre + dec_digits_i64(n) + rest =~= pre + dec_digits(m) + rest);
        lemma_parse_u128_inverts(pre, m, rest);
        lemma_dec_digits_are_digits(m);
        assert(s[p] == dec_digits(m)[0]);
        assert(s[p] != '-') by {
            assert(is_dec_digit(dec_digits(m)[0]));
            assert('-' as u32 == 45);
        }
    } else {
        let m = (-(n as int)) as u128;
        let pre2 = pre + seq!['-'];
        assert(pre + dec_digits_i64(n) + rest =~= pre2 + dec_digits(m) + rest);
        lemma_parse_u128_inverts(pre2, m, rest);
        assert(s[p] == '-') by {
            assert(dec_digits_i64(n)[0] == '-');
        }
        assert(1 <= m <= 0x8000_0000_0000_0000u128);
        assert((-(m as int)) as i64 == n);
        assert(dec_digits_i64(n).len() == 1 + dec_digits(m).len());
    }
}

// ---------------------------------------------------------------------------
// Fixed text
// ---------------------------------------------------------------------------

/// Consumes exactly `lit` at `pos`.
pub open spec fn sp_expect(s: Seq<char>, pos: int, lit: Seq<char>) -> Option<int> {
    if 0 <= pos && pos + lit.len() <= s.len() && s.subrange(pos, pos + lit.len()) == lit {
        Some(pos + lit.len())
    } else {
        None
    }
}

/// Consumes exactly `lit` at `pos`.
pub fn expect_lit(s: &Vec<char>, pos: usize, lit: &str) -> (r: Option<usize>)
    requires
        pos <= s@.len(),
    ensures
        match r {
            Some(e) => sp_expect(s@, pos as int, lit@) == Some(e as int) && pos <= e <= s@.len(),
            None => sp_expect(s@, pos as int, lit@) is None,
        },
{
    let n = lit.unicode_len();
    let total = s.len();
    if n > total - pos {
        return None;
    }
    let mut k: usize = 0;
    while k < n
        invariant
            k <= n,
            n == lit@.len(),
            total == s@.len(),
            pos + n <= total,
            forall|m: int| 0 <= m < k ==> s@[pos + m] == lit@[m],
        decreases n - k,
    {
        if s[pos + k] != lit.get_char(k) {
            proof {
                assert(s@.subrange(pos as int, pos + n as int)[k as int] != lit@[k as int]);
            }
            return None;
        }
        k = k + 1;
    }
    proof {
        assert(s@.subrange(pos as int, pos + n as int) =~= lit@);
    }
    Some(pos + n)
}

/// A literal placed at `pos` is consumed exactly.
pub proof fn lemma_expect_inverts(pre: Seq<char>, lit: Seq<char>, rest: Seq<char>)
    ensures
        sp_expect(pre + lit + rest, pre.len() as int, lit) == Some((pre.len() + lit.len()) as int),
{
    let s = pre + lit + rest;
    assert(s.subrange(pre.len() as int, (pre.len() + lit.len()) as int) =~= lit);
}

/// Appends the text of `lit` to `out`.
pub fn push_str(out: &mut Vec<char>, lit: &str)
    ensures
        final(out)@ == old(out)@ + lit@,
{
    let n = lit.unicode_len();
    let mut k: usize = 0;
    while k < n
        invariant
            k <= n,
            n == lit@.len(),
            out@ =~= old(out)@ + lit@.take(k as int),
        decreases n - k,
    {
        out.push(lit.get_char(k));
        proof {
            assert(out@ =~= old(out)@ + lit@.take(k + 1));
        }
        k = k + 1;
    }
    proof {
        assert(lit@.take(n as int) =~= lit@);
    }
}

// ---------------------------------------------------------------------------
// Booleans
// ---------------------------------------------------------------------------

/// The canonical text of a boolean.
pub open spec fn enc_bool(b: bool) -> Seq<char> {
    if b {
        "true"@
    } else {
        "false"@
    }
}

/// Parses a boolean at `pos`.
pub open spec fn sp_parse_bool(s: Seq<char>, pos: int) -> Option<(bool, int)> {
    if sp_expect(s, pos, "true"@) is Some {
        Some((true, sp_expect(s, pos, "true"@)->0))
    } else if sp_expect(s, pos, "false"@) is Some {
        Some((false, sp_expect(s, pos, "false"@)->0))
    } else {
        None
    }
}

/// Parses a boolean at `pos`.
pub fn parse_bool(s: &Vec<char>, pos: usize) -> (r: Option<(bool, usize)>)
    requires
        pos <= s@.len(),
    ensures
        match r {
            Some((v, e)) => sp_parse_bool(s@, pos as int) == Some((v, e as int)) && pos <= e
                <= s@.len(),
            None => sp_parse_bool(s@, pos as int) is None,
        },
{
    match expect_lit(s, pos, "true") {
        Some(e) => Some((true, e)),
        None => {
            match expect_lit(s, pos, "false") {
                Some(e) => Some((false, e)),
                None => None,
            }
        },
    }
}

/// Appends the text of `b` to `out`.
pub fn push_bool(out: &mut Vec<char>, b: bool)
    ensures
        final(out)@ == old(out)@ + enc_bool(b),
{
    if b {
        push_str(out, "true");
    } else {
        push_str(out, "false");
    }
}

/// A boolean's text parses back to the boolean.
pub proof fn lemma_parse_bool_inverts(pre: Seq<char>, b: bool, rest: Seq<char>)
    ensures
        sp_parse_bool(pre + enc_bool(b) + rest, pre.len() as int) == Some(
            (b, (pre.len() + enc_bool(b).len()) as int),
        ),
{
    reveal_strlit("true");
    reveal_strlit("false");
    let s = pre + enc_bool(b) + rest;
    let p = pre.len() as int;
    lemma_expect_inverts(pre, enc_bool(b), rest);
    if b {
    } else {
        assert(sp_expect(s, p, "true"@) is None) by {
            if sp_expect(s, p, "true"@) is Some {
                assert(s.subrange(p, p + 4)[0] == s[p]);
                assert(s[p] == 'f');
            }
        }
    }
}

// ---------------------------------------------------------------------------
// Text fields
// ---------------------------------------------------------------------------

/// The hexadecimal digit character for `d`, lower case.
pub open spec fn hex_char(d: u32) -> char {
    if d < 10 {
        ((48 + d) as u8) as char
    } else {
        ((87 + d) as u8) as char
    }
}

pub open spec fn is_hex_digit(c: char) -> bool {
    let u = c as u32;
    (48 <= u <= 57) || (97 <= u <= 102)
}

pub open spec fn hex_val(c: char) -> u32 {
    let u = c as u32;
    if u >= 97 {
        (u - 87) as u32
    } else {
        (u - 48) as u32
    }
}

/// How one character is written inside a quoted text field: quotes and
/// backslashes get a backslash, control characters are spelled in hex,
/// everything else stands for itself.
pub open spec fn esc_char(c: char) -> Seq<char> {
    if c == '"' {
        seq!['\\', '"']
    } else if c == '\\' {
        seq!['\\', '\\']
    } else if (c as u32) < 32 {
        seq!['\\', 'u', '0', '0', hex_char((c as u32) / 16), hex_char((c as u32) % 16)]
    } else {
        seq![c]
    }
}

/// The escaped body of a text field.
pub open spec fn esc_body(t: Seq<char>) -> Seq<char>
    decreases t.len(),
{
    if t.len() == 0 {
        Seq::empty()
    } else {
        esc_char(t[0]) + esc_body(t.drop_first())
    }
}

/// A quoted text field: the escaped body between two quotes.
pub open spec fn enc_string(t: Seq<char>) -> Seq<char> {
    seq!['"'] + esc_body(t) + seq!['"']
}

/// Escaping distributes over concatenation.
pub proof fn lemma_esc_body_append(a: Seq<char>, b: Seq<char>)
    ensures
        esc_body(a + b) == esc_body(a) + esc_body(b),
    decreases a.len(),
{
    if a.len() == 0 {
        assert(a + b =~= b);
        assert(esc_body(a) + esc_body(b) =~= esc_body(b));
    } else {
        lemma_esc_body_append(a.drop_first(), b);
        assert((a + b).drop_first() =~= a.drop_first() + b);
        assert((a + b)[0] == a[0]);
        assert(esc_char(a[0]) + (esc_body(a.drop_first()) + esc_body(b)) =~= (esc_char(a[0])
            + esc_body(a.drop_first())) + esc_body(b));
    }
}

fn hex_char_exec(d: u32) -> (c: char)
    requires
        d < 16,
    ensures
        c == hex_char(d),
{
    if d < 10 {
        ((48 + d) as u8) as char
    } else {
        ((87 + d) as u8) as char
    }
}

fn push_escaped_char(out: &mut Vec<char>, c: char)
    ensures
        final(out)@ == old(out)@ + esc_char(c),
{
    let u = c as u32;
    if c == '"' {
        out.push('\\');
        out.push('"');
        proof {
            assert(out@ =~= old(out)@ + esc_char(c));
        }
    } else if c == '\\' {
        out.push('\\');
        out.push('\\');
        proof {
            assert(out@ =~= old(out)@ + esc_char(c));
        }
    } else if u < 32 {
        out.push('\\');
        out.push('u');
        out.push('0');
        out.push('0');
        out.push(hex_char_exec(u / 16));
        out.push(hex_char_exec(u % 16));
        proof {
            assert(out@ =~= old(out)@ + esc_char(c));
        }
    } else {
        out.push(c);
        proof {
            assert(out@ =~= old(out)@ + esc_char(c));
        }
    }
}

/// Appends the quoted, escaped form of `t` to `out`.
pub fn push_string(out: &mut Vec<char>, t: &str)
    ensures
        final(out)@ == old(out)@ + enc_string(t@),
{
    out.push('"');
    let n = t.unicode_len();
    let mut k: usize = 0;
    while k < n
        invariant
            k <= n,
            n == t@.len(),
            out@ =~= old(out)@ + seq!['"'] + esc_body(t@.take(k as int)),
        decreases n - k,
    {
        push_escaped_char(out, t.get_char(k));
        proof {
            assert(t@.take(k + 1) =~= t@.take(k as int) + seq![t@[k as int]]);
            lemma_esc_body_append(t@.take(k as int), seq![t@[k as int]]);
            assert(seq![t@[k as int]].drop_first() =~= Seq::<char>::empty());
            assert(esc_body(Seq::<char>::empty()) =~= Seq::<char>::empty());
            assert(esc_body(seq![t@[k as int]]) == esc_char(t@[k as int])
                + esc_body(seq![t@[k as int]].drop_first()));
            assert(esc_body(seq![t@[k as int]]) =~= esc_char(t@[k as int]));
            assert(out@ =~= old(out)@ + seq!['"'] + esc_body(t@.take(k + 1)));
        }
        k = k + 1;
    }
    out.push('"');
    proof {
        assert(t@.take(n as int) =~= t@);
        assert(out@ =~= old(out)@ + enc_string(t@));
    }
}

/// Parses the rest of a quoted text field, after the opening quote: every
/// escape the encoder writes, and nothing else, up to the closing quote.
pub open spec fn sp_string_body(s: Seq<char>, pos: int) -> Option<(Seq<char>, int)>
    decreases s.len() - pos,
{
    if pos < 0 || pos >= s.len() {
        None
    } else if s[pos] == '"' {
        Some((Seq::empty(), pos + 1))
    } else if s[pos] == '\\' {
        if pos + 1 >= s.len() {
            None
        } else if s[pos + 1] == '"' {
            match sp_string_body(s, pos + 2) {
                Some((t, e)) => Some((seq!['"'] + t, e)),
                None => None,
            }
        } else if s[pos + 1] == '\\' {
            match sp_string_body(s, pos + 2) {
                Some((t, e)) => Some((seq!['\\'] + t, e)),
                None => None,
            }
        } else if s[pos + 1] == 'u' {
            if pos + 5 < s.len() && s[pos + 2] == '0' && s[pos + 3] == '0' && is_hex_digit(
                s[pos + 4],
            ) && is_hex_digit(s[pos + 5]) && hex_val(s[pos + 4]) * 16 + hex_val(s[pos + 5]) < 32 {
                let c = ((hex_val(s[pos + 4]) * 16 + hex_val(s[pos + 5])) as u8) as char;
                match sp_string_body(s, pos + 6) {
                    Some((t, e)) => Some((seq![c] + t, e)),
                    None => None,
                }
            } else {
                None
            }
        } else {
            None
        }
    } else if (s[pos] as u32) < 32 {
        None
    } else {
        match sp_string_body(s, pos + 1) {
            Some((t, e)) => Some((seq![s[pos]] + t, e)),
            None => None,
        }
    }
}

/// Parses a quoted text field at `pos`.
pub open spec fn sp_parse_string(s: Seq<char>, pos: int) -> Option<(Seq<char>, int)> {
    if 0 <= pos < s.len() && s[pos] == '"' {
        sp_string_body(s, pos + 1)
    } else {
        None
    }
}

fn is_hex_digit_exec(c: char) -> (r: bool)
    ensures
        r == is_hex_digit(c),
{
    let u = c as u32;
    (48 <= u && u <= 57) || (97 <= u && u <= 102)
}

/// Parses a quoted text field at `pos`.
#[verifier::loop_isolation(false)]
pub fn parse_string(s: &Vec<char>, pos: usize) -> (r: Option<(Vec<char>, usize)>)
    requires
        pos <= s@.len(),
    ensures
        match r {
            Some(p) => sp_parse_string(s@, pos as int) == Some((p.0@, p.1 as int)) && pos < p.1
                <= s@.len(),
            None => sp_parse_string(s@, pos as int) is None,
        },
{
    let total = s.len();
    if pos >= total || s[pos] != '"' {
        return None;
    }
    let mut out: Vec<char> = Vec::new();
    let mut p: usize = pos + 1;
    loop
        invariant
            pos + 1 <= p <= total,
            total == s@.len(),
            out@.len() <= p - pos,
            match sp_string_body(s@, p as int) {
                Some(te) => sp_string_body(s@, pos + 1) == Some::<(Seq<char>, int)>(
                    (out@ + te.0, te.1),
                ),
                None => sp_string_body(s@, pos + 1) is None,
            },
        decreases total - p,
    {
        if p >= total {
            return None;
        }
        let c = s[p];
        if c == '"' {
            proof {
                assert(out@ + Seq::<char>::empty() =~= out@);
            }
            return Some((out, p + 1));
        }
        if c == '\\' {
            if p + 1 >= total {
                return None;
            }
            let d = s[p + 1];
            if d == '"' {
                proof {
                    lemma_string_body_step(s@, p as int, pos + 1, out@, '"', p + 2);
                }
                out.push('"');
                p = p + 2;
            } else if d == '\\' {
                proof {
                    lemma_string_body_step(s@, p as int, pos + 1, out@, '\\', p + 2);
                }
                out.push('\\');
                p = p + 2;
            } else if d == 'u' {
                if total - p > 5 && s[p + 2] == '0' && s[p + 3] == '0' && is_hex_digit_exec(
                    s[p + 4],
                ) && is_hex_digit_exec(s[p + 5]) {
                    let hi = s[p + 4] as u32;
                    let lo = s[p + 5] as u32;
                    let hv = if hi >= 97 {
                        hi - 87
                    } else {
                        hi - 48
                    };
                    let lv = if lo >= 97 {
                        lo - 87
                    } else {
                        lo - 48
                    };
                    let v = hv * 16 + lv;
                    if v < 32 {
                        let decoded = (v as u8) as char;
                        proof {
                            lemma_string_body_step(s@, p as int, pos + 1, out@, decoded, p + 6);
                        }
                        out.push(decoded);
                        p = p + 6;
                    } else {
                        return None;
                    }
                } else {
                    return None;
                }
            } else {
                return None;
            }
        } else if (c as u32) < 32 {
            return None;
        } else {
            proof {
                lemma_string_body_step(s@, p as int, pos + 1, out@, c, p + 1);
            }
            out.push(c);
            p = p + 1;
        }
    }
}

/// One consumed chunk of a text field keeps the accumulated relation
/// between the whole body and the rest.
proof fn lemma_string_body_step(
    s: Seq<char>,
    p: int,
    start: int,
    acc: Seq<char>,
    c: char,
    next: int,
)
    requires
        sp_string_body(s, p) == match sp_string_body(s, next) {
            Some((t, e)) => Some::<(Seq<char>, int)>((seq![c] + t, e)),
            None => None::<(Seq<char>, int)>,
        },
        match sp_string_body(s, p) {
            Some(te) => sp_string_body(s, start) == Some::<(Seq<char>, int)>((acc + te.0, te.1)),
            None => sp_string_body(s, start) is None,
        },
    ensures
        match sp_string_body(s, next) {
            Some(te) => sp_string_body(s, start) == Some::<(Seq<char>, int)>(
                (acc.push(c) + te.0, te.1),
            ),
            None => sp_string_body(s, start) is None,
        },
{
    match sp_string_body(s, next) {
        Some((t, e)) => {
            assert(acc + (seq![c] + t) =~= acc.push(c) + t);
        },
        None => {},
    }
}

/// The escaped text between the quotes parses back to the original text.
proof fn lemma_string_body_inverts(pre: Seq<char>, t: Seq<char>, rest: Seq<char>)
    ensures
        sp_string_body(pre + esc_body(t) + seq!['"'] + rest, pre.len() as int) == Some(
            (t, (pre.len() + esc_body(t).len() + 1) as int),
        ),
    decreases t.len(),
{
    let s = pre + esc_body(t) + seq!['"'] + rest;
    let p = pre.len() as int;
    if t.len() == 0 {
        assert(s[p] == '"');
        assert(sp_string_body(s, p) == Some((Seq::<char>::empty(), p + 1)));
        assert(t =~= Seq::<char>::empty());
    } else {
        let c = t[0];
        let tail = t.drop_first();
        let pre2 = pre + esc_char(c);
        assert(esc_body(t) == esc_char(c) + esc_body(tail));
        assert(s =~= pre2 + esc_body(tail) + seq!['"'] + rest);
        lemma_string_body_inverts(pre2, tail, rest);
        let inner = sp_string_body(s, pre2.len() as int);
        assert(inner == Some((tail, (pre2.len() + esc_body(tail).len() + 1) as int)));
        assert(forall|k: int|
            0 <= k < esc_char(c).len() ==> s[p + k] == #[trigger] esc_char(c)[k]);
        if c == '"' {
            assert(s[p] == '\\' && s[p + 1] == '"');
            assert(seq![c] + tail =~= t);
        } else if c == '\\' {
            assert(s[p] == '\\' && s[p + 1] == '\\');
            assert(seq![c] + tail =~= t);
        } else if (c as u32) < 32 {
            let u = c as u32;
            assert(s[p] == '\\' && s[p + 1] == 'u' && s[p + 2] == '0' && s[p + 3] == '0');
            assert(s[p + 4] == hex_char(u / 16));
            assert(s[p + 5] == hex_char(u % 16));
            lemma_hex_char_val(u / 16);
            lemma_hex_char_val(u % 16);
            assert(hex_val(s[p + 4]) * 16 + hex_val(s[p + 5]) == u);
            lemma_u8_char_roundtrip(c);
            assert(((u as u8) as char) == c);
            assert(seq![c] + tail =~= t);
        } else {
            assert(s[p] == c);
            assert(s[p] != '"' && s[p] != '\\');
            assert(seq![c] + tail =~= t);
        }
    }
}

proof fn lemma_u8_char_roundtrip(c: char)
    requires
        (c as u32) < 32,
    ensures
        (((c as u32) as u8) as char) == c,
{
}

proof fn lemma_hex_char_val(d: u32)
    requires
        d < 16,
    ensures
        is_hex_digit(hex_char(d)),
        hex_val(hex_char(d)) == d,
{
}

/// A quoted, escaped text field parses back to the original text.
pub proof fn lemma_parse_string_inverts(pre: Seq<char>, t: Seq<char>, rest: Seq<char>)
    ensures
        sp_parse_string(pre + enc_string(t) + rest, pre.len() as int) == Some(
            (t, (pre.len() + enc_string(t).len()) as int),
        ),
{
    let s = pre + enc_string(t) + rest;
    let pre2 = pre + seq!['"'];
    assert(s =~= pre2 + esc_body(t) + seq!['"'] + rest);
    assert(s[pre.len() as int] == '"');
    lemma_string_body_inverts(pre2, t, rest);
}

// ---------------------------------------------------------------------------
// Optional text fields
// ---------------------------------------------------------------------------

/// An optional text field: `null`, or the quoted text.
pub open spec fn enc_opt_string(o: Option<Seq<char>>) -> Seq<char> {
    match o {
        None => "null"@,
        Some(t) => enc_string(t),
    }
}

/// Parses an optional text field at `pos`.
pub open spec fn sp_parse_opt_string(s: Seq<char>, pos: int) -> Option<(Option<Seq<char>>, int)> {
    if 0 <= pos < s.len() && s[pos] == '"' {
        match sp_parse_string(s, pos) {
            Some((t, e)) => Some((Some(t), e)),
            None => None,
        }
    } else {
        match sp_expect(s, pos, "null"@) {
            Some(e) => Some((None, e)),
            None => None,
        }
    }
}

/// Appends an optional text field to `out`.
pub fn push_opt_string(out: &mut Vec<char>, o: &Option<String>)
    ensures
        final(out)@ == old(out)@ + enc_opt_string(o.deep_view()),
{
    match o {
        None => push_str(out, "null"),
        Some(t) => push_string(out, t.as_str()),
    }
}

/// Parses an optional text field at `pos`.
pub fn parse_opt_string(s: &Vec<char>, pos: usize) -> (r: Option<(Option<Vec<char>>, usize)>)
    requires
        pos <= s@.len(),
    ensures
        match r {
            Some(p) => sp_parse_opt_string(s@, pos as int) == Some(
                (
                    match p.0 {
                        Some(v) => Some(v@),
                        None => None,
                    },
                    p.1 as int,
                ),
            ) && pos < p.1 <= s@.len(),
            None => sp_parse_opt_string(s@, pos as int) is None,
        },
{
    if pos < s.len() && s[pos] == '"' {
        match parse_string(s, pos) {
            Some((t, e)) => Some((Some(t), e)),
            None => None,
        }
    } else {
        match expect_lit(s, pos, "null") {
            Some(e) => {
                proof {
                    reveal_strlit("null");
                }
                Some((None, e))
            },
            None => None,
        }
    }
}

/// An optional text field parses back to itself.
pub proof fn lemma_parse_opt_string_inverts(pre: Seq<char>, o: Option<Seq<char>>, rest: Seq<char>)
    ensures
        sp_parse_opt_string(pre + enc_opt_string(o) + rest, pre.len() as int) == Some(
            (o, (pre.len() + enc_opt_string(o).len()) as int),
        ),
{
    reveal_strlit("null");
    let s = pre + enc_opt_string(o) + rest;
    let p = pre.len() as int;
    match o {
        None => {
            assert(s[p] == 'n') by {
                assert(s[p] == "null"@[0]);
            }
            lemma_expect_inverts(pre, "null"@, rest);
        },
        Some(t) => {
            assert(s[p] == '"');
            lemma_parse_string_inverts(pre, t, rest);
        },
    }
}

// ---------------------------------------------------------------------------
// Arrays of text fields and of ids
// ---------------------------------------------------------------------------

/// The elements after the first in a text array: a comma before each.
pub open spec fn enc_str_array_rest(a: Seq<Seq<char>>) -> Seq<char>
    decreases a.len(),
{
    if a.len() == 0 {
        Seq::empty()
    } else {
        seq![','] + enc_string(a[0]) + enc_str_array_rest(a.drop_first())
    }
}

/// A text array.
pub open spec fn enc_str_array(a: Seq<Seq<char>>) -> Seq<char> {
    if a.len() == 0 {
        seq!['[', ']']
    } else {
        seq!['['] + enc_string(a[0]) + enc_str_array_rest(a.drop_first()) + seq![']']
    }
}

/// Parses text-array elements from the first element on.
pub open spec fn sp_str_elems(s: Seq<char>, pos: int) -> Option<(Seq<Seq<char>>, int)>
    decreases s.len() - pos,
{
    match sp_parse_string(s, pos) {
        Some((t, e)) => if pos < e < s.len() {
            if s[e] == ']' {
                Some((seq![t], e + 1))
            } else if s[e] == ',' {
                match sp_str_elems(s, e + 1) {
                    Some((ts, e2)) => Some((seq![t] + ts, e2)),
                    None => None,
                }
            } else {
                None
            }
        } else {
            None
        },
        None => None,
    }
}

/// Parses a text array at `pos`.
pub open spec fn sp_parse_str_array(s: Seq<char>, pos: int) -> Option<(Seq<Seq<char>>, int)> {
    if 0 <= pos && pos + 1 < s.len() && s[pos] == '[' {
        if s[pos + 1] == ']' {
            Some((Seq::empty(), pos + 2))
        } else {
            sp_str_elems(s, pos + 1)
        }
    } else {
        None
    }
}

/// Appends a text array to `out`.
pub fn push_str_array(out: &mut Vec<char>, a: &Vec<String>)
    ensures
        final(out)@ == old(out)@ + enc_str_array(a.deep_view()),
{
    let ghost av = a.deep_view();
    out.push('[');
    if a.len() == 0 {
        out.push(']');
        proof {
            assert(out@ =~= old(out)@ + enc_str_array(av));
        }
        return ;
    }
    push_string(out, a[0].as_str());
    let mut i: usize = 1;
    while i < a.len()
        invariant
            1 <= i <= a.len(),
            av == a.deep_view(),
            av.len() == a.len(),
            out@ =~= old(out)@ + seq!['['] + enc_string(av[0]) + enc_upto(av, i as int),
        decreases a.len() - i,
    {
        out.push(',');
        push_string(out, a[i].as_str());
        proof {
            lemma_enc_upto_step(av, i as int);
        }
        i = i + 1;
    }
    out.push(']');
    proof {
        lemma_enc_upto_full(av);
        assert(out@ =~= old(out)@ + enc_str_array(av));
    }
}

/// The encoded comma-led elements with indices in `[1, i)`.
pub open spec fn enc_upto(a: Seq<Seq<char>>, i: int) -> Seq<char>
    decreases i,
{
    if i <= 1 {
        Seq::empty()
    } else {
        enc_upto(a, i - 1) + seq![','] + enc_string(a[i - 1])
    }
}

proof fn lemma_enc_upto_step(a: Seq<Seq<char>>, i: int)
    requires
        1 <= i,
    ensures
        enc_upto(a, i + 1) == enc_upto(a, i) + seq![','] + enc_string(a[i]),
{
}

/// The comma-led elements cover the whole tail.
proof fn lemma_enc_upto_full(a: Seq<Seq<char>>)
    requires
        a.len() >= 1,
    ensures
        enc_upto(a, a.len() as int) =~= enc_str_array_rest(a.drop_first()),
{
    lemma_enc_upto_eq_from(a, 1);
    lemma_enc_upto_shift(a, 1);
    assert(a.drop_first() =~= a.skip(1));
}

/// The tail elements from index `k` on, both ways of writing them.
proof fn lemma_enc_upto_shift(a: Seq<Seq<char>>, k: int)
    requires
        1 <= k <= a.len(),
    ensures
        enc_str_array_rest(a.skip(k)) =~= enc_from(a, k),
    decreases a.len() - k,
{
    if k == a.len() {
        assert(a.skip(k).len() == 0);
    } else {
        lemma_enc_upto_shift(a, k + 1);
        assert(a.skip(k)[0] == a[k]);
        assert(a.skip(k).drop_first() =~= a.skip(k + 1));
    }
}

/// The comma-led elements from index `k` to the end, front-recursive.
pub open spec fn enc_from(a: Seq<Seq<char>>, k: int) -> Seq<char>
    decreases a.len() - k,
{
    if k < 1 || k >= a.len() {
        Seq::empty()
    } else {
        seq![','] + enc_string(a[k]) + enc_from(a, k + 1)
    }
}

/// `enc_upto` counted up equals `enc_from` counted down.
proof fn lemma_enc_upto_eq_from(a: Seq<Seq<char>>, i: int)
    requires
        1 <= i <= a.len(),
    ensures
        enc_upto(a, a.len() as int) =~= enc_upto(a, i) + enc_from(a, i),
    decreases a.len() - i,
{
    if i == a.len() {
    } else {
        lemma_enc_upto_eq_from(a, i + 1);
        lemma_enc_upto_step(a, i);
    }
}

/// Parses a text array at `pos`.
#[verifier::loop_isolation(false)]
pub fn parse_str_array(s: &Vec<char>, pos: usize) -> (r: Option<(Vec<String>, usize)>)
    requires
        pos <= s@.len(),
    ensures
        match r {
            Some(p) => sp_parse_str_array(s@, pos as int) == Some((p.0.deep_view(), p.1 as int))
                && pos < p.1 <= s@.len(),
            None => sp_parse_str_array(s@, pos as int) is None,
        },
{
    let total = s.len();
    if pos >= total || s[pos] != '[' || pos + 1 >= total {
        return None;
    }
    if s[pos + 1] == ']' {
        let out: Vec<String> = Vec::new();
        proof {
            assert(out.deep_view() =~= Seq::<Seq<char>>::empty());
        }
        return Some((out, pos + 2));
    }
    let mut out: Vec<String> = Vec::new();
    let mut p: usize = pos + 1;
    loop
        invariant
            pos + 1 <= p <= total,
            total == s@.len(),
            match sp_str_elems(s@, p as int) {
                Some(te) => sp_str_elems(s@, pos + 1) == Some::<(Seq<Seq<char>>, int)>(
                    (out.deep_view() + te.0, te.1),
                ),
                None => sp_str_elems(s@, pos + 1) is None,
            },
        decreases total - p,
    {
        match parse_string(s, p) {
            None => {
                return None;
            },
            Some((chars, e)) => {
                if e >= total {
                    return None;
                }
                let c = s[e];
                if c == ']' {
                    let ghost pre_out = out.deep_view();
                    let text = chars_to_string(&chars);
                    out.push(text);
                    proof {
                        assert(out.deep_view() =~= pre_out.push(chars@));
                        assert(pre_out + seq![chars@] =~= pre_out.push(chars@));
                    }
                    return Some((out, e + 1));
                } else if c == ',' {
                    let ghost pre_out = out.deep_view();
                    let text = chars_to_string(&chars);
                    out.push(text);
                    proof {
                        assert(out.deep_view() =~= pre_out.push(chars@));
                        match sp_str_elems(s@, e + 1) {
                            Some(te) => {
                                assert(pre_out + (seq![chars@] + te.0) =~= pre_out.push(chars@)
                                    + te.0);
                            },
                            None => {},
                        }
                    }
                    p = e + 1;
                } else {
                    return None;
                }
            },
        }
    }
}

/// Text-array elements placed at `pos` parse back to themselves.
proof fn lemma_str_elems_inverts(pre: Seq<char>, a: Seq<Seq<char>>, rest: Seq<char>)
    requires
        a.len() >= 1,
    ensures
        ({
            let body = enc_string(a[0]) + enc_str_array_rest(a.drop_first()) + seq![']'];
            sp_str_elems(pre + body + rest, pre.len() as int) == Some(
                (a, (pre.len() + body.len()) as int),
            )
        }),
    decreases a.len(),
{
    let body = enc_string(a[0]) + enc_str_array_rest(a.drop_first()) + seq![']'];
    let s = pre + body + rest;
    let p = pre.len() as int;
    let tail = a.drop_first();
    if tail.len() == 0 {
        assert(s =~= pre + enc_string(a[0]) + (seq![']'] + rest));
        lemma_parse_string_inverts(pre, a[0], seq![']'] + rest);
        let e = p + enc_string(a[0]).len();
        assert(s[e] == ']');
        assert(seq![a[0]] =~= a);
        assert(enc_str_array_rest(tail).len() == 0);
    } else {
        let pre2 = pre + enc_string(a[0]) + seq![','];
        let body2 = enc_string(tail[0]) + enc_str_array_rest(tail.drop_first()) + seq![']'];
        assert(enc_str_array_rest(tail) == seq![','] + enc_string(tail[0])
            + enc_str_array_rest(tail.drop_first()));
        assert(s =~= pre + enc_string(a[0]) + (seq![','] + body2 + rest));
        lemma_parse_string_inverts(pre, a[0], seq![','] + body2 + rest);
        let e = p + enc_string(a[0]).len();
        assert(s[e] == ',');
        assert(s =~= pre2 + body2 + rest);
        lemma_str_elems_inverts(pre2, tail, rest);
        assert(seq![a[0]] + tail =~= a);
    }
}

/// A text array parses back to itself.
pub proof fn lemma_parse_str_array_inverts(pre: Seq<char>, a: Seq<Seq<char>>, rest: Seq<char>)
    ensures
        sp_parse_str_array(pre + enc_str_array(a) + rest, pre.len() as int) == Some(
            (a, (pre.len() + enc_str_array(a).len()) as int),
        ),
{
    let s = pre + enc_str_array(a) + rest;
    let p = pre.len() as int;
    assert(s[p] == '[');
    if a.len() == 0 {
        assert(s[p + 1] == ']');
        assert(Seq::<Seq<char>>::empty() =~= a);
    } else {
        assert(s[p + 1] == '"') by {
            assert(s[p + 1] == enc_str_array(a)[1]);
            assert(enc_str_array(a)[1] == enc_string(a[0])[0]);
        }
        let pre2 = pre + seq!['['];
        let body = enc_string(a[0]) + enc_str_array_rest(a.drop_first()) + seq![']'];
        assert(s =~= pre2 + body + rest);
        lemma_str_elems_inverts(pre2, a, rest);
    }
}

/// The elements after the first in an id array.
pub open spec fn enc_id_array_rest(a: Seq<u128>) -> Seq<char>
    decreases a.len(),
{
    if a.len() == 0 {
        Seq::empty()
    } else {
        seq![','] + dec_digits(a[0]) + enc_id_array_rest(a.drop_first())
    }
}

/// An id array.
pub open spec fn enc_id_array(a: Seq<u128>) -> Seq<char> {
    if a.len() == 0 {
        seq!['[', ']']
    } else {
        seq!['['] + dec_digits(a[0]) + enc_id_array_rest(a.drop_first()) + seq![']']
    }
}

/// Parses id-array elements from the first element on.
pub open spec fn sp_id_elems(s: Seq<char>, pos: int) -> Option<(Seq<u128>, int)>
    decreases s.len() - pos,
{
    match sp_parse_u128(s, pos) {
        Some((v, e)) => if pos < e < s.len() {
            if s[e] == ']' {
                Some((seq![v], e + 1))
            } else if s[e] == ',' {
                match sp_id_elems(s, e + 1) {
                    Some((vs, e2)) => Some((seq![v] + vs, e2)),
                    None => None,
                }
            } else {
                None
            }
        } else {
            None
        },
        None => None,
    }
}

/// Parses an id array at `pos`.
pub open spec fn sp_parse_id_array(s: Seq<char>, pos: int) -> Option<(Seq<u128>, int)> {
    if 0 <= pos && pos + 1 < s.len() && s[pos] == '[' {
        if s[pos + 1] == ']' {
            Some((Seq::empty(), pos + 2))
        } else {
            sp_id_elems(s, pos + 1)
        }
    } else {
        None
    }
}

/// The encoded comma-led ids with indices in `[1, i)`.
pub open spec fn enc_ids_upto(a: Seq<u128>, i: int) -> Seq<char>
    decreases i,
{
    if i <= 1 {
        Seq::empty()
    } else {
        enc_ids_upto(a, i - 1) + seq![','] + dec_digits(a[i - 1])
    }
}

/// The comma-led ids from index `k` to the end, front-recursive.
pub open spec fn enc_ids_from(a: Seq<u128>, k: int) -> Seq<char>
    decreases a.len() - k,
{
    if k < 1 || k >= a.len() {
        Seq::empty()
    } else {
        seq![','] + dec_digits(a[k]) + enc_ids_from(a, k + 1)
    }
}

proof fn lemma_enc_ids_upto_eq_from(a: Seq<u128>, i: int)
    requires
        1 <= i <= a.len(),
    ensures
        enc_ids_upto(a, a.len() as int) =~= enc_ids_upto(a, i) + enc_ids_from(a, i),
    decreases a.len() - i,
{
    if i == a.len() {
    } else {
        lemma_enc_ids_upto_eq_from(a, i + 1);
    }
}

proof fn lemma_enc_ids_shift(a: Seq<u128>, k: int)
    requires
        1 <= k <= a.len(),
    ensures
        enc_id_array_rest(a.skip(k)) =~= enc_ids_from(a, k),
    decreases a.len() - k,
{
    if k == a.len() {
        assert(a.skip(k).len() == 0);
    } else {
        lemma_enc_ids_shift(a, k + 1);
        assert(a.skip(k)[0] == a[k]);
        assert(a.skip(k).drop_first() =~= a.skip(k + 1));
    }
}

proof fn lemma_enc_ids_full(a: Seq<u128>)
    requires
        a.len() >= 1,
    ensures
        enc_ids_upto(a, a.len() as int) =~= enc_id_array_rest(a.drop_first()),
{
    lemma_enc_ids_upto_eq_from(a, 1);
    lemma_enc_ids_shift(a, 1);
    assert(a.drop_first() =~= a.skip(1));
}

/// Appends an id array to `out`.
pub fn push_id_array(out: &mut Vec<char>, a: &Vec<u128>)
    ensures
        final(out)@ == old(out)@ + enc_id_array(a.deep_view()),
{
    let ghost av = a.deep_view();
    out.push('[');
    if a.len() == 0 {
        out.push(']');
        proof {
            assert(out@ =~= old(out)@ + enc_id_array(av));
        }
        return ;
    }
    push_u128(out, a[0]);
    let mut i: usize = 1;
    while i < a.len()
        invariant
            1 <= i <= a.len(),
            av == a.deep_view(),
            av.len() == a.len(),
            out@ =~= old(out)@ + seq!['['] + dec_digits(av[0]) + enc_ids_upto(av, i as int),
        decreases a.len() - i,
    {
        out.push(',');
        push_u128(out, a[i]);
        proof {
            assert(out@ =~= old(out)@ + seq!['['] + dec_digits(av[0]) + enc_ids_upto(
                av,
                i + 1,
            ));
        }
        i = i + 1;
    }
    out.push(']');
    proof {
        lemma_enc_ids_full(av);
        assert(out@ =~= old(out)@ + enc_id_array(av));
    }
}

/// Parses an id array at `pos`.
#[verifier::loop_isolation(false)]
pub fn parse_id_array(s: &Vec<char>, pos: usize) -> (r: Option<(Vec<u128>, usize)>)
    requires
        pos <= s@.len(),
    ensures
        match r {
            Some(p) => sp_parse_id_array(s@, pos as int) == Some((p.0.deep_view(), p.1 as int))
                && pos < p.1 <= s@.len(),
            None => sp_parse_id_array(s@, pos as int) is None,
        },
{
    let total = s.len();
    if pos >= total || s[pos] != '[' || pos + 1 >= total {
        return None;
    }
    if s[pos + 1] == ']' {
        let out: Vec<u128> = Vec::new();
        proof {
            assert(out.deep_view() =~= Seq::<u128>::empty());
        }
        return Some((out, pos + 2));
    }
    let mut out: Vec<u128> = Vec::new();
    let mut p: usize = pos + 1;
    loop
        invariant
            pos + 1 <= p <= total,
            total == s@.len(),
            match sp_id_elems(s@, p as int) {
                Some(te) => sp_id_elems(s@, pos + 1) == Some::<(Seq<u128>, int)>(
                    (out.deep_view() + te.0, te.1),
                ),
                None => sp_id_elems(s@, pos + 1) is None,
            },
        decreases total - p,
    {
        match parse_u128(s, p) {
            None => {
                return None;
            },
            Some((v, e)) => {
                if e >= total {
                    return None;
                }
                let c = s[e];
                if c == ']' {
                    let ghost pre_out = out.deep_view();
                    out.push(v);
                    proof {
                        assert(out.deep_view() =~= pre_out.push(v));
                        assert(pre_out + seq![v] =~= pre_out.push(v));
                    }
                    return Some((out, e + 1));
                } else if c == ',' {
                    let ghost pre_out = out.deep_view();
                    out.push(v);
                    proof {
                        assert(out.deep_view() =~= pre_out.push(v));
                        match sp_id_elems(s@, e + 1) {
                            Some(te) => {
                                assert(pre_out + (seq![v] + te.0) =~= pre_out.push(v) + te.0);
                            },
                            None => {},
                        }
                    }
                    p = e + 1;
                } else {
                    return None;
                }
            },
        }
    }
}

/// Id-array elements placed at `pos` parse back to themselves.
proof fn lemma_id_elems_inverts(pre: Seq<char>, a: Seq<u128>, rest: Seq<char>)
    requires
        a.len() >= 1,
    ensures
        ({
            let body = dec_digits(a[0]) + enc_id_array_rest(a.drop_first()) + seq![']'];
            sp_id_elems(pre + body + rest, pre.len() as int) == Some(
                (a, (pre.len() + body.len()) as int),
            )
        }),
    decreases a.len(),
{
    let body = dec_digits(a[0]) + enc_id_array_rest(a.drop_first()) + seq![']'];
    let s = pre + body + rest;
    let p = pre.len() as int;
    let tail = a.drop_first();
    if tail.len() == 0 {
        assert(s =~= pre + dec_digits(a[0]) + (seq![']'] + rest));
        lemma_parse_u128_inverts(pre, a[0], seq![']'] + rest);
        let e = p + dec_digits(a[0]).len();
        assert(s[e] == ']');
        assert(seq![a[0]] =~= a);
        assert(enc_id_array_rest(tail).len() == 0);
    } else {
        let pre2 = pre + dec_digits(a[0]) + seq![','];
        let body2 = dec_digits(tail[0]) + enc_id_array_rest(tail.drop_first()) + seq![']'];
        assert(enc_id_array_rest(tail) == seq![','] + dec_digits(tail[0]) + enc_id_array_rest(
            tail.drop_first(),
        ));
        assert(s =~= pre + dec_digits(a[0]) + (seq![','] + body2 + rest));
        lemma_parse_u128_inverts(pre, a[0], seq![','] + body2 + rest);
        let e = p + dec_digits(a[0]).len();
        assert(s[e] == ',');
        assert(s =~= pre2 + body2 + rest);
        lemma_id_elems_inverts(pre2, tail, rest);
        assert(seq![a[0]] + tail =~= a);
    }
}

/// An id array parses back to itself.
pub proof fn lemma_parse_id_array_inverts(pre: Seq<char>, a: Seq<u128>, rest: Seq<char>)
    ensures
        sp_parse_id_array(pre + enc_id_array(a) + rest, pre.len() as int) == Some(
            (a, (pre.len() + enc_id_array(a).len()) as int),
        ),
{
    let s = pre + enc_id_array(a) + rest;
    let p = pre.len() as int;
    assert(s[p] == '[');
    if a.len() == 0 {
        assert(s[p + 1] == ']');
        assert(Seq::<u128>::empty() =~= a);
    } else {
        lemma_dec_digits_are_digits(a[0]);
        assert(s[p + 1] == dec_digits(a[0])[0]) by {
            assert(s[p + 1] == enc_id_array(a)[1]);
        }
        assert(is_dec_digit(s[p + 1]));
        assert(s[p + 1] != ']');
        let pre2 = pre + seq!['['];
        let body = dec_digits(a[0]) + enc_id_array_rest(a.drop_first()) + seq![']'];
        assert(s =~= pre2 + body + rest);
        lemma_id_elems_inverts(pre2, a, rest);
    }
}

// ---------------------------------------------------------------------------
// Enum names
// ---------------------------------------------------------------------------

/// The quoted name of a category value.
pub open spec fn enc_category(v: MenuCategory) -> Seq<char> {
    match v {
        MenuCategory::Mains => "\"Mains\""@,
        MenuCategory::Sides => "\"Sides\""@,
        MenuCategory::Desserts => "\"Desserts\""@,
        MenuCategory::Beverages => "\"Beverages\""@,
    }
}

/// Parses a quoted category name at `pos`.
pub open spec fn sp_parse_category(s: Seq<char>, pos: int) -> Option<(MenuCategory, int)> {
    if sp_expect(s, pos, "\"Mains\""@) is Some {
        Some((MenuCategory::Mains, sp_expect(s, pos, "\"Mains\""@)->0))
    } else if sp_expect(s, pos, "\"Sides\""@) is Some {
        Some((MenuCategory::Sides, sp_expect(s, pos, "\"Sides\""@)->0))
    } else if sp_expect(s, pos, "\"Desserts\""@) is Some {
        Some((MenuCategory::Desserts, sp_expect(s, pos, "\"Desserts\""@)->0))
    } else if sp_expect(s, pos, "\"Beverages\""@) is Some {
        Some((MenuCategory::Beverages, sp_expect(s, pos, "\"Beverages\""@)->0))
    } else {
        None
    }
}

/// Appends the quoted name of `v` to `out`.
pub fn push_category(out: &mut Vec<char>, v: MenuCategory)
    ensures
        final(out)@ == old(out)@ + enc_category(v),
{
    match v {
        MenuCategory::Mains => push_str(out, "\"Mains\""),
        MenuCategory::Sides => push_str(out, "\"Sides\""),
        MenuCategory::Desserts => push_str(out, "\"Desserts\""),
        MenuCategory::Beverages => push_str(out, "\"Beverages\""),
    }
}

/// Parses a quoted category name at `pos`.
pub fn parse_category(s: &Vec<char>, pos: usize) -> (r: Option<(MenuCategory, usize)>)
    requires
        pos <= s@.len(),
    ensures
        match r {
            Some((v, e)) => sp_parse_category(s@, pos as int) == Some((v, e as int)) && pos <= e
                <= s@.len(),
            None => sp_parse_category(s@, pos as int) is None,
        },
{
    match expect_lit(s, pos, "\"Mains\"") {
        Some(e) => {
            return Some((MenuCategory::Mains, e));
        },
        None => {},
    }
    match expect_lit(s, pos, "\"Sides\"") {
        Some(e) => {
            return Some((MenuCategory::Sides, e));
        },
        None => {},
    }
    match expect_lit(s, pos, "\"Desserts\"") {
        Some(e) => {
            return Some((MenuCategory::Desserts, e));
        },
        None => {},
    }
    match expect_lit(s, pos, "\"Beverages\"") {
        Some(e) => {
            return Some((MenuCategory::Beverages, e));
        },
        None => {},
    }
    None
}

/// A quoted category name parses back to the value.
pub proof fn lemma_parse_category_inverts(pre: Seq<char>, v: MenuCategory, rest: Seq<char>)
    ensures
        sp_parse_category(pre + enc_category(v) + rest, pre.len() as int) == Some(
            (v, (pre.len() + enc_category(v).len()) as int),
        ),
{
    reveal_strlit("\"Mains\"");
    reveal_strlit("\"Sides\"");
    reveal_strlit("\"Desserts\"");
    reveal_strlit("\"Beverages\"");
    let s = pre + enc_category(v) + rest;
    let p = pre.len() as int;
    lemma_expect_inverts(pre, enc_category(v), rest);
    match v {
        MenuCategory::Mains => {
            assert(s[p + 1] == 'M') by {
                assert(s[p + 1] == enc_category(v)[1]);
            }
            // first alternative matches
        },
        MenuCategory::Sides => {
            assert(s[p + 1] == 'S') by {
                assert(s[p + 1] == enc_category(v)[1]);
            }
            assert(sp_expect(s, p, "\"Mains\""@) is None) by {
                if sp_expect(s, p, "\"Mains\""@) is Some {
                    assert(s.subrange(p, p + "\"Mains\""@.len())[1] == s[p + 1]);
                    assert(s[p + 1] == 'S');
                }
            }
        },
        MenuCategory::Desserts => {
            assert(s[p + 1] == 'D') by {
                assert(s[p + 1] == enc_category(v)[1]);
            }
            assert(sp_expect(s, p, "\"Mains\""@) is None) by {
                if sp_expect(s, p, "\"Mains\""@) is Some {
                    assert(s.subrange(p, p + "\"Mains\""@.len())[1] == s[p + 1]);
                    assert(s[p + 1] == 'D');
                }
            }
            assert(sp_expect(s, p, "\"Sides\""@) is None) by {
                if sp_expect(s, p, "\"Sides\""@) is Some {
                    assert(s.subrange(p, p + "\"Sides\""@.len())[1] == s[p + 1]);
                    assert(s[p + 1] == 'D');
                }
            }
        },
        MenuCategory::Beverages => {
            assert(s[p + 1] == 'B') by {
                assert(s[p + 1] == enc_category(v)[1]);
            }
            assert(sp_expect(s, p, "\"Mains\""@) is None) by {
                if sp_expect(s, p, "\"Mains\""@) is Some {
                    assert(s.subrange(p, p + "\"Mains\""@.len())[1] == s[p + 1]);
                    assert(s[p + 1] == 'B');
                }
            }
            assert(sp_expect(s, p, "\"Sides\""@) is None) by {
                if sp_expect(s, p, "\"Sides\""@) is Some {
                    assert(s.subrange(p, p + "\"Sides\""@.len())[1] == s[p + 1]);
                    assert(s[p + 1] == 'B');
                }
            }
            assert(sp_expect(s, p, "\"Desserts\""@) is None) by {
                if sp_expect(s, p, "\"Desserts\""@) is Some {
                    assert(s.subrange(p, p + "\"Desserts\""@.len())[1] == s[p + 1]);
                    assert(s[p + 1] == 'B');
                }
            }
        },
    }
}

/// The quoted name of a recurrence value.
pub open spec fn enc_recurrence(v: ScheduleRecurrence) -> Seq<char> {
    match v {
        ScheduleRecurrence::Daily => "\"Daily\""@,
        ScheduleRecurrence::Weekly => "\"Weekly\""@,
        ScheduleRecurrence::Monthly => "\"Monthly\""@,
        ScheduleRecurrence::Custom => "\"Custom\""@,
    }
}

/// Parses a quoted recurrence name at `pos`.
pub open spec fn sp_parse_recurrence(s: Seq<char>, pos: int) -> Option<(ScheduleRecurrence, int)> {
    if sp_expect(s, pos, "\"Daily\""@) is Some {
        Some((ScheduleRecurrence::Daily, sp_expect(s, pos, "\"Daily\""@)->0))
    } else if sp_expect(s, pos, "\"Weekly\""@) is Some {
        Some((ScheduleRecurrence::Weekly, sp_expect(s, pos, "\"Weekly\""@)->0))
    } else if sp_expect(s, pos, "\"Monthly\""@) is Some {
        Some((ScheduleRecurrence::Monthly, sp_expect(s, pos, "\"Monthly\""@)->0))
    } else if sp_expect(s, pos, "\"Custom\""@) is Some {
        Some((ScheduleRecurrence::Custom, sp_expect(s, pos, "\"Custom\""@)->0))
    } else {
        None
    }
}

/// Appends the quoted name of `v` to `out`.
pub fn push_recurrence(out: &mut Vec<char>, v: ScheduleRecurrence)
    ensures
        final(out)@ == old(out)@ + enc_recurrence(v),
{
    match v {
        ScheduleRecurrence::Daily => push_str(out, "\"Daily\""),
        ScheduleRecurrence::Weekly => push_str(out, "\"Weekly\""),
        ScheduleRecurrence::Monthly => push_str(out, "\"Monthly\""),
        ScheduleRecurrence::Custom => push_str(out, "\"Custom\""),
    }
}

/// Parses a quoted recurrence name at `pos`.
pub fn parse_recurrence(s: &Vec<char>, pos: usize) -> (r: Option<(ScheduleRecurrence, usize)>)
    requires
        pos <= s@.len(),
    ensures
        match r {
            Some((v, e)) => sp_parse_recurrence(s@, pos as int) == Some((v, e as int)) && pos <= e
                <= s@.len(),
            None => sp_parse_recurrence(s@, pos as int) is None,
        },
{
    match expect_lit(s, pos, "\"Daily\"") {
        Some(e) => {
            return Some((ScheduleRecurrence::Daily, e));
        },
        None => {},
    }
    match expect_lit(s, pos, "\"Weekly\"") {
        Some(e) => {
            return Some((ScheduleRecurrence::Weekly, e));
        },
        None => {},
    }
    match expect_lit(s, pos, "\"Monthly\"") {
        Some(e) => {
            return Some((ScheduleRecurrence::Monthly, e));
        },
        None => {},
    }
    match expect_lit(s, pos, "\"Custom\"") {
        Some(e) => {
            return Some((ScheduleRecurrence::Custom, e));
        },
        None => {},
    }
    None
}

/// A quoted recurrence name parses back to the value.
pub proof fn lemma_parse_recurrence_inverts(pre: Seq<char>, v: ScheduleRecurrence, rest: Seq<char>)
    ensures
        sp_parse_recurrence(pre + enc_recurrence(v) + rest, pre.len() as int) == Some(
            (v, (pre.len() + enc_recurrence(v).len()) as int),
        ),
{
    reveal_strlit("\"Daily\"");
    reveal_strlit("\"Weekly\"");
    reveal_strlit("\"Monthly\"");
    reveal_strlit("\"Custom\"");
    let s = pre + enc_recurrence(v) + rest;
    let p = pre.len() as int;
    lemma_expect_inverts(pre, enc_recurrence(v), rest);
    match v {
        ScheduleRecurrence::Daily => {
            assert(s[p + 1] == 'D') by {
                assert(s[p + 1] == enc_recurrence(v)[1]);
            }
            // first alternative matches
        },
        ScheduleRecurrence::Weekly => {
            assert(s[p + 1] == 'W') by {
                assert(s[p + 1] == enc_recurrence(v)[1]);
            }
            assert(sp_expect(s, p, "\"Daily\""@) is None) by {
                if sp_expect(s, p, "\"Daily\""@) is Some {
                    assert(s.subrange(p, p + "\"Daily\""@.len())[1] == s[p + 1]);
                    assert(s[p + 1] == 'W');
                }
            }
        },
        ScheduleRecurrence::Monthly => {
            assert(s[p + 1] == 'M') by {
                assert(s[p + 1] == enc_recurrence(v)[1]);
            }
            assert(sp_expect(s, p, "\"Daily\""@) is None) by {
                if sp_expect(s, p, "\"Daily\""@) is Some {
                    assert(s.subrange(p, p + "\"Daily\""@.len())[1] == s[p + 1]);
                    assert(s[p + 1] == 'M');
                }
            }
            assert(sp_expect(s, p, "\"Weekly\""@) is None) by {
                if sp_expect(s, p, "\"Weekly\""@) is Some {
                    assert(s.subrange(p, p + "\"Weekly\""@.len())[1] == s[p + 1]);
                    assert(s[p + 1] == 'M');
                }
            }
        },
        ScheduleRecurrence::Custom => {
            assert(s[p + 1] == 'C') by {
                assert(s[p + 1] == enc_recurrence(v)[1]);
            }
            assert(sp_expect(s, p, "\"Daily\""@) is None) by {
                if sp_expect(s, p, "\"Daily\""@) is Some {
                    assert(s.subrange(p, p + "\"Daily\""@.len())[1] == s[p + 1]);
                    assert(s[p + 1] == 'C');
                }
            }
            assert(sp_expect(s, p, "\"Weekly\""@) is None) by {
                if sp_expect(s, p, "\"Weekly\""@) is Some {
                    assert(s.subrange(p, p + "\"Weekly\""@.len())[1] == s[p + 1]);
                    assert(s[p + 1] == 'C');
                }
            }
            assert(sp_expect(s, p, "\"Monthly\""@) is None) by {
                if sp_expect(s, p, "\"Monthly\""@) is Some {
                    assert(s.subrange(p, p + "\"Monthly\""@.len())[1] == s[p + 1]);
                    assert(s[p + 1] == 'C');
                }
            }
        },
    }
}

/// The quoted name of a status value.
pub open spec fn enc_status(v: ScheduleStatus) -> Seq<char> {
    match v {
        ScheduleStatus::Pending => "\"Pending\""@,
        ScheduleStatus::Active => "\"Active\""@,
        ScheduleStatus::Ended => "\"Ended\""@,
        ScheduleStatus::Conflicted => "\"Conflicted\""@,
        ScheduleStatus::Failed => "\"Failed\""@,
    }
}

/// Parses a quoted status name at `pos`.
pub open spec fn sp_parse_status(s: Seq<char>, pos: int) -> Option<(ScheduleStatus, int)> {
    if sp_expect(s, pos, "\"Pending\""@) is Some {
        Some((ScheduleStatus::Pending, sp_expect(s, pos, "\"Pending\""@)->0))
    } else if sp_expect(s, pos, "\"Active\""@) is Some {
        Some((ScheduleStatus::Active, sp_expect(s, pos, "\"Active\""@)->0))
    } else if sp_expect(s, pos, "\"Ended\""@) is Some {
        Some((ScheduleStatus::Ended, sp_expect(s, pos, "\"Ended\""@)->0))
    } else if sp_expect(s, pos, "\"Conflicted\""@) is Some {
        Some((ScheduleStatus::Conflicted, sp_expect(s, pos, "\"Conflicted\""@)->0))
    } else if sp_expect(s, pos, "\"Failed\""@) is Some {
        Some((ScheduleStatus::Failed, sp_expect(s, pos, "\"Failed\""@)->0))
    } else {
        None
    }
}

/// Appends the quoted name of `v` to `out`.
pub fn push_status(out: &mut Vec<char>, v: ScheduleStatus)
    ensures
        final(out)@ == old(out)@ + enc_status(v),
{
    match v {
        ScheduleStatus::Pending => push_str(out, "\"Pending\""),
        ScheduleStatus::Active => push_str(out, "\"Active\""),
        ScheduleStatus::Ended => push_str(out, "\"Ended\""),
        ScheduleStatus::Conflicted => push_str(out, "\"Conflicted\""),
        ScheduleStatus::Failed => push_str(out, "\"Failed\""),
    }
}

/// Parses a quoted status name at `pos`.
pub fn parse_status(s: &Vec<char>, pos: usize) -> (r: Option<(ScheduleStatus, usize)>)
    requires
        pos <= s@.len(),
    ensures
        match r {
            Some((v, e)) => sp_parse_status(s@, pos as int) == Some((v, e as int)) && pos <= e
                <= s@.len(),
            None => sp_parse_status(s@, pos as int) is None,
        },
{
    match expect_lit(s, pos, "\"Pending\"") {
        Some(e) => {
            return Some((ScheduleStatus::Pending, e));
        },
        None => {},
    }
    match expect_lit(s, pos, "\"Active\"") {
        Some(e) => {
            return Some((ScheduleStatus::Active, e));
        },
        None => {},
    }
    match expect_lit(s, pos, "\"Ended\"") {
        Some(e) => {
            return Some((ScheduleStatus::Ended, e));
        },
        None => {},
    }
    match expect_lit(s, pos, "\"Conflicted\"") {
        Some(e) => {
            return Some((ScheduleStatus::Conflicted, e));
        },
        None => {},
    }
    match expect_lit(s, pos, "\"Failed\"") {
        Some(e) => {
            return Some((ScheduleStatus::Failed, e));
        },
        None => {},
    }
    None
}

/// A quoted status name parses back to the value.
pub proof fn lemma_parse_status_inverts(pre: Seq<char>, v: ScheduleStatus, rest: Seq<char>)
    ensures
        sp_parse_status(pre + enc_status(v) + rest, pre.len() as int) == Some(
            (v, (pre.len() + enc_status(v).len()) as int),
        ),
{
    reveal_strlit("\"Pending\"");
    reveal_strlit("\"Active\"");
    reveal_strlit("\"Ended\"");
    reveal_strlit("\"Conflicted\"");
    reveal_strlit("\"Failed\"");
    let s = pre + enc_status(v) + rest;
    let p = pre.len() as int;
    lemma_expect_inverts(pre, enc_status(v), rest);
    match v {
        ScheduleStatus::Pending => {
            assert(s[p + 1] == 'P') by {
                assert(s[p + 1] == enc_status(v)[1]);
            }
            // first alternative matches
        },
        ScheduleStatus::Active => {
            assert(s[p + 1] == 'A') by {
                assert(s[p + 1] == enc_status(v)[1]);
            }
            assert(sp_expect(s, p, "\"Pending\""@) is None) by {
                if sp_expect(s, p, "\"Pending\""@) is Some {
                    assert(s.subrange(p, p + "\"Pending\""@.len())[1] == s[p + 1]);
                    assert(s[p + 1] == 'A');
                }
            }
        },
        ScheduleStatus::Ended => {
            assert(s[p + 1] == 'E') by {
                assert(s[p + 1] == enc_status(v)[1]);
            }
            assert(sp_expect(s, p, "\"Pending\""@) is None) by {
                if sp_expect(s, p, "\"Pending\""@) is Some {
                    assert(s.subrange(p, p + "\"Pending\""@.len())[1] == s[p + 1]);
                    assert(s[p + 1] == 'E');
                }
            }
            assert(sp_expect(s, p, "\"Active\""@) is None) by {
                if sp_expect(s, p, "\"Active\""@) is Some {
                    assert(s.subrange(p, p + "\"Active\""@.len())[1] == s[p + 1]);
                    assert(s[p + 1] == 'E');
                }
            }
        },
        ScheduleStatus::Conflicted => {
            assert(s[p + 1] == 'C') by {
                assert(s[p + 1] == enc_status(v)[1]);
            }
            assert(sp_expect(s, p, "\"Pending\""@) is None) by {
                if sp_expect(s, p, "\"Pending\""@) is Some {
                    assert(s.subrange(p, p + "\"Pending\""@.len())[1] == s[p + 1]);
                    assert(s[p + 1] == 'C');
                }
            }
            assert(sp_expect(s, p, "\"Active\""@) is None) by {
                if sp_expect(s, p, "\"Active\""@) is Some {
                    assert(s.subrange(p, p + "\"Active\""@.len())[1] == s[p + 1]);
                    assert(s[p + 1] == 'C');
                }
            }
            assert(sp_expect(s, p, "\"Ended\""@) is None) by {
                if sp_expect(s, p, "\"Ended\""@) is Some {
                    assert(s.subrange(p, p + "\"Ended\""@.len())[1] == s[p + 1]);
                    assert(s[p + 1] == 'C');
                }
            }
        },
        ScheduleStatus::Failed => {
            assert(s[p + 1] == 'F') by {
                assert(s[p + 1] == enc_status(v)[1]);
            }
            assert(sp_expect(s, p, "\"Pending\""@) is None) by {
                if sp_expect(s, p, "\"Pending\""@) is Some {
                    assert(s.subrange(p, p + "\"Pending\""@.len())[1] == s[p + 1]);
                    assert(s[p + 1] == 'F');
                }
            }
            assert(sp_expect(s, p, "\"Active\""@) is None) by {
                if sp_expect(s, p, "\"Active\""@) is Some {
                    assert(s.subrange(p, p + "\"Active\""@.len())[1] == s[p + 1]);
                    assert(s[p + 1] == 'F');
                }
            }
            assert(sp_expect(s, p, "\"Ended\""@) is None) by {
                if sp_expect(s, p, "\"Ended\""@) is Some {
                    assert(s.subrange(p, p + "\"Ended\""@.len())[1] == s[p + 1]);
                    assert(s[p + 1] == 'F');
                }
            }
            assert(sp_expect(s, p, "\"Conflicted\""@) is None) by {
                if sp_expect(s, p, "\"Conflicted\""@) is Some {
                    assert(s.subrange(p, p + "\"Conflicted\""@.len())[1] == s[p + 1]);
                    assert(s[p + 1] == 'F');
                }
            }
        },
    }
}

// ---------------------------------------------------------------------------
// Entities
// ---------------------------------------------------------------------------

/// The canonical text of one menu item.
pub open spec fn enc_menu_item(v: MenuItemV) -> Seq<char> {
    "{\"id\":"@ + dec_digits(v.id) + ",\"name\":"@ + enc_string(v.name) + ",\"category\":"@ + enc_category(v.category) + ",\"description\":"@ + enc_string(v.description) + ",\"allergens\":"@ + enc_str_array(v.allergens) + ",\"is_available\":"@ + enc_bool(v.is_available) + "}"@
}

/// Appends the canonical text of `e` to `out`.
pub fn push_menu_item(out: &mut Vec<char>, e: &MenuItem)
    ensures
        final(out)@ == old(out)@ + enc_menu_item(e.deep_view()),
{
    push_str(out, "{\"id\":");
    push_u128(out, e.id);
    push_str(out, ",\"name\":");
    push_string(out, e.name.as_str());
    push_str(out, ",\"category\":");
    push_category(out, e.category);
    push_str(out, ",\"description\":");
    push_string(out, e.description.as_str());
    push_str(out, ",\"allergens\":");
    push_str_array(out, &e.allergens);
    push_str(out, ",\"is_available\":");
    push_bool(out, e.is_available);
    push_str(out, "}");
    proof {
        assert(out@ =~= old(out)@ + enc_menu_item(e.deep_view()));
    }
}

/// Parses one menu item at `pos`.
#[verifier::opaque]
pub open spec fn sp_parse_menu_item(s: Seq<char>, pos: int) -> Option<(MenuItemV, int)> {
        match sp_expect(s, pos, "{\"id\":"@) { Some(p0) => {
        match sp_parse_u128(s, p0) { Some((x_id, p1)) => {
        match sp_expect(s, p1, ",\"name\":"@) { Some(p2) => {
        match sp_parse_string(s, p2) { Some((x_name, p3)) => {
        match sp_expect(s, p3, ",\"category\":"@) { Some(p4) => {
        match sp_parse_category(s, p4) { Some((x_category, p5)) => {
        match sp_expect(s, p5, ",\"description\":"@) { Some(p6) => {
        match sp_parse_string(s, p6) { Some((x_description, p7)) => {
        match sp_expect(s, p7, ",\"allergens\":"@) { Some(p8) => {
        match sp_parse_str_array(s, p8) { Some((x_allergens, p9)) => {
        match sp_expect(s, p9, ",\"is_available\":"@) { Some(p10) => {
        match sp_parse_bool(s, p10) { Some((x_is_available, p11)) => {
        match sp_expect(s, p11, "}"@) { Some(p12) => {
        Some((MenuItemV { id: x_id, name: x_name, category: x_category, description: x_description, allergens: x_allergens, is_available: x_is_available }, p12))
        }, None => None }
        }, None => None }
        }, None => None }
        }, None => None }
        }, None => None }
        }, None => None }
        }, None => None }
        }, None => None }
        }, None => None }
        }, None => None }
        }, None => None }
        }, None => None }
        }, None => None }
}

/// Parses one menu item at `pos`.
#[verifier::loop_isolation(false)]
pub fn parse_menu_item(s: &Vec<char>, pos: usize) -> (r: Option<(MenuItem, usize)>)
    requires
        pos <= s@.len(),
    ensures
        match r {
            Some(p) => sp_parse_menu_item(s@, pos as int) == Some((p.0.deep_view(), p.1 as int))
                && pos < p.1 <= s@.len(),
            None => sp_parse_menu_item(s@, pos as int) is None,
        },
{
    proof {
        reveal(sp_parse_menu_item);
    }
    let p = match expect_lit(s, pos, "{\"id\":") {
        Some(p) => p,
        None => {
            return None;
        },
    };
    let (x_id, p) = match parse_u128(s, p) {
        Some(x) => x,
        None => {
            return None;
        },
    };
    let p = match expect_lit(s, p, ",\"name\":") {
        Some(p) => p,
        None => {
            return None;
        },
    };
    let (x_name, p) = match parse_string(s, p) {
        Some(x) => x,
        None => {
            return None;
        },
    };
    let p = match expect_lit(s, p, ",\"category\":") {
        Some(p) => p,
        None => {
            return None;
        },
    };
    let (x_category, p) = match parse_category(s, p) {
        Some(x) => x,
        None => {
            return None;
        },
    };
    let p = match expect_lit(s, p, ",\"description\":") {
        Some(p) => p,
        None => {
            return None;
        },
    };
    let (x_description, p) = match parse_string(s, p) {
        Some(x) => x,
        None => {
            return None;
        },
    };
    let p = match expect_lit(s, p, ",\"allergens\":") {
        Some(p) => p,
        None => {
            return None;
        },
    };
    let (x_allergens, p) = match parse_str_array(s, p) {
        Some(x) => x,
        None => {
            return None;
        },
    };
    let p = match expect_lit(s, p, ",\"is_available\":") {
        Some(p) => p,
        None => {
            return None;
        },
    };
    let (x_is_available, p) = match parse_bool(s, p) {
        Some(x) => x,
        None => {
            return None;
        },
    };
    let p = match expect_lit(s, p, "}") {
        Some(p) => p,
        None => {
            return None;
        },
    };
    Some((
        MenuItem {
        id: x_id,
        name: chars_to_string(&x_name),
        category: x_category,
        description: chars_to_string(&x_description),
        allergens: x_allergens,
        is_available: x_is_available
        },
        p,
    ))
}

/// One menu item's canonical text parses back to the value.
#[verifier::rlimit(100)]
#[verifier::spinoff_prover]
pub proof fn lemma_parse_menu_item_inverts(pre: Seq<char>, v: MenuItemV, rest: Seq<char>)
    ensures
        sp_parse_menu_item(pre + enc_menu_item(v) + rest, pre.len() as int) == Some(
            (v, (pre.len() + enc_menu_item(v).len()) as int),
        ),
{
    reveal(sp_parse_menu_item);
    reveal_strlit(",\"allergens\":");
    reveal_strlit(",\"category\":");
    reveal_strlit(",\"description\":");
    reveal_strlit(",\"is_available\":");
    reveal_strlit(",\"name\":");
    reveal_strlit("{\"id\":");
    reveal_strlit("}");
    let s = pre + enc_menu_item(v) + rest;
    let w0 = "{\"id\":"@;
    let w1 = dec_digits(v.id);
    let w2 = ",\"name\":"@;
    let w3 = enc_string(v.name);
    let w4 = ",\"category\":"@;
    let w5 = enc_category(v.category);
    let w6 = ",\"description\":"@;
    let w7 = enc_string(v.description);
    let w8 = ",\"allergens\":"@;
    let w9 = enc_str_array(v.allergens);
    let w10 = ",\"is_available\":"@;
    let w11 = enc_bool(v.is_available);
    let w12 = "}"@;
    let t13 = rest;
    let t12 = w12 + t13;
    let t11 = w11 + t12;
    let t10 = w10 + t11;
    let t9 = w9 + t10;
    let t8 = w8 + t9;
    let t7 = w7 + t8;
    let t6 = w6 + t7;
    let t5 = w5 + t6;
    let t4 = w4 + t5;
    let t3 = w3 + t4;
    let t2 = w2 + t3;
    let t1 = w1 + t2;
    let t0 = w0 + t1;
    let b0 = w0;
    let b1 = b0 + w1;
    let b2 = b1 + w2;
    let b3 = b2 + w3;
    let b4 = b3 + w4;
    let b5 = b4 + w5;
    let b6 = b5 + w6;
    let b7 = b6 + w7;
    let b8 = b7 + w8;
    let b9 = b8 + w9;
    let b10 = b9 + w10;
    let b11 = b10 + w11;
    let b12 = b11 + w12;
    assert(enc_menu_item(v) == b12);
    assert(s == (pre + b12) + t13);
    vstd::seq_lib::lemma_concat_associative(pre, b11, w12);
    vstd::seq_lib::lemma_concat_associative(pre + b11, w12, t13);
    assert((pre + b12) + t13 == (pre + b11) + t12);
    vstd::seq_lib::lemma_concat_associative(pre, b10, w11);
    vstd::seq_lib::lemma_concat_associative(pre + b10, w11, t12);
    assert((pre + b11) + t12 == (pre + b10) + t11);
    vstd::seq_lib::lemma_concat_associative(pre, b9, w10);
    vstd::seq_lib::lemma_concat_associative(pre + b9, w10, t11);
    assert((pre + b10) + t11 == (pre + b9) + t10);
    vstd::seq_lib::lemma_concat_associative(pre, b8, w9);
    vstd::seq_lib::lemma_concat_associative(pre + b8, w9, t10);
    assert((pre + b9) + t10 == (pre + b8) + t9);
    vstd::seq_lib::lemma_concat_associative(pre, b7, w8);
    vstd::seq_lib::lemma_concat_associative(pre + b7, w8, t9);
    assert((pre + b8) + t9 == (pre + b7) + t8);
    vstd::seq_lib::lemma_concat_associative(pre, b6, w7);
    vstd::seq_lib::lemma_concat_associative(pre + b6, w7, t8);
    assert((pre + b7) + t8 == (pre + b6) + t7);
    vstd::seq_lib::lemma_concat_associative(pre, b5, w6);
    vstd::seq_lib::lemma_concat_associative(pre + b5, w6, t7);
    assert((pre + b6) + t7 == (pre + b5) + t6);
    vstd::seq_lib::lemma_concat_associative(pre, b4, w5);
    vstd::seq_lib::lemma_concat_associative(pre + b4, w5, t6);
    assert((pre + b5) + t6 == (pre + b4) + t5);
    vstd::seq_lib::lemma_concat_associative(pre, b3, w4);
    vstd::seq_lib::lemma_concat_associative(pre + b3, w4, t5);
    assert((pre + b4) + t5 == (pre + b3) + t4);
    vstd::seq_lib::lemma_concat_associative(pre, b2, w3);
    vstd::seq_lib::lemma_concat_associative(pre + b2, w3, t4);
    assert((pre + b3) + t4 == (pre + b2) + t3);
    vstd::seq_lib::lemma_concat_associative(pre, b1, w2);
    vstd::seq_lib::lemma_concat_associative(pre + b1, w2, t3);
    assert((pre + b2) + t3 == (pre + b1) + t2);
    vstd::seq_lib::lemma_concat_associative(pre, b0, w1);
    vstd::seq_lib::lemma_concat_associative(pre + b0, w1, t2);
    assert((pre + b1) + t2 == (pre + b0) + t1);
    let q0 = pre;
    vstd::seq_lib::lemma_concat_associative(pre, w0, t1);
    assert(s == (q0 + w0) + t1);
    lemma_expect_inverts(q0, "{\"id\":"@, t1);
    let q1 = q0 + w0;
    assert(q1 == pre + b0);
    vstd::seq_lib::lemma_concat_associative(q1, w1, t2);
    vstd::seq_lib::lemma_concat_associative(pre, b0, w1);
    assert(q1 + w1 == pre + b1);
    assert(s == (q1 + w1) + t2);
    assert(!is_dec_digit(t2[0])) by {
        assert(t2[0] == ",\"name\":"@[0]);
    }
    lemma_parse_u128_inverts(q1, v.id, t2);
    let q2 = q1 + w1;
    vstd::seq_lib::lemma_concat_associative(pre, b0, w1);
    assert(q2 == pre + b1);
    vstd::seq_lib::lemma_concat_associative(q2, w2, t3);
    vstd::seq_lib::lemma_concat_associative(pre, b1, w2);
    assert(q2 + w2 == pre + b2);
    assert(s == (q2 + w2) + t3);
    lemma_expect_inverts(q2, ",\"name\":"@, t3);
    let q3 = q2 + w2;
    vstd::seq_lib::lemma_concat_associative(pre, b1, w2);
    assert(q3 == pre + b2);
    vstd::seq_lib::lemma_concat_associative(q3, w3, t4);
    vstd::seq_lib::lemma_concat_associative(pre, b2, w3);
    assert(q3 + w3 == pre + b3);
    assert(s == (q3 + w3) + t4);
    lemma_parse_string_inverts(q3, v.name, t4);
    let q4 = q3 + w3;
    vstd::seq_lib::lemma_concat_associative(pre, b2, w3);
    assert(q4 == pre + b3);
    vstd::seq_lib::lemma_concat_associative(q4, w4, t5);
    vstd::seq_lib::lemma_concat_associative(pre, b3, w4);
    assert(q4 + w4 == pre + b4);
    assert(s == (q4 + w4) + t5);
    lemma_expect_inverts(q4, ",\"category\":"@, t5);
    let q5 = q4 + w4;
    vstd::seq_lib::lemma_concat_associative(pre, b3, w4);
    assert(q5 == pre + b4);
    vstd::seq_lib::lemma_concat_associative(q5, w5, t6);
    vstd::seq_lib::lemma_concat_associative(pre, b4, w5);
    assert(q5 + w5 == pre + b5);
    assert(s == (q5 + w5) + t6);
    lemma_parse_category_inverts(q5, v.category, t6);
    let q6 = q5 + w5;
    vstd::seq_lib::lemma_concat_associative(pre, b4, w5);
    assert(q6 == pre + b5);
    vstd::seq_lib::lemma_concat_associative(q6, w6, t7);
    vstd::seq_lib::lemma_concat_associative(pre, b5, w6);
    assert(q6 + w6 == pre + b6);
    assert(s == (q6 + w6) + t7);
    lemma_expect_inverts(q6, ",\"description\":"@, t7);
    let q7 = q6 + w6;
    vstd::seq_lib::lemma_concat_associative(pre, b5, w6);
    assert(q7 == pre + b6);
    vstd::seq_lib::lemma_concat_associative(q7, w7, t8);
    vstd::seq_lib::lemma_concat_associative(pre, b6, w7);
    assert(q7 + w7 == pre + b7);
    assert(s == (q7 + w7) + t8);
    lemma_parse_string_inverts(q7, v.description, t8);
    let q8 = q7 + w7;
    vstd::seq_lib::lemma_concat_associative(pre, b6, w7);
    assert(q8 == pre + b7);
    vstd::seq_lib::lemma_concat_associative(q8, w8, t9);
    vstd::seq_lib::lemma_concat_associative(pre, b7, w8);
    assert(q8 + w8 == pre + b8);
    assert(s == (q8 + w8) + t9);
    lemma_expect_inverts(q8, ",\"allergens\":"@, t9);
    let q9 = q8 + w8;
    vstd::seq_lib::lemma_concat_associative(pre, b7, w8);
    assert(q9 == pre + b8);
    vstd::seq_lib::lemma_concat_associative(q9, w9, t10);
    vstd::seq_lib::lemma_concat_associative(pre, b8, w9);
    assert(q9 + w9 == pre + b9);
    assert(s == (q9 + w9) + t10);
    lemma_parse_str_array_inverts(q9, v.allergens, t10);
    let q10 = q9 + w9;
    vstd::seq_lib::lemma_concat_associative(pre, b8, w9);
    assert(q10 == pre + b9);
    vstd::seq_lib::lemma_concat_associative(q10, w10, t11);
    vstd::seq_lib::lemma_concat_associative(pre, b9, w10);
    assert(q10 + w10 == pre + b10);
    assert(s == (q10 + w10) + t11);
    lemma_expect_inverts(q10, ",\"is_available\":"@, t11);
    let q11 = q10 + w10;
    vstd::seq_lib::lemma_concat_associative(pre, b9, w10);
    assert(q11 == pre + b10);
    vstd::seq_lib::lemma_concat_associative(q11, w11, t12);
    vstd::seq_lib::lemma_concat_associative(pre, b10, w11);
    assert(q11 + w11 == pre + b11);
    assert(s == (q11 + w11) + t12);
    lemma_parse_bool_inverts(q11, v.is_available, t12);
    let q12 = q11 + w11;
    vstd::seq_lib::lemma_concat_associative(pre, b10, w11);
    assert(q12 == pre + b11);
    vstd::seq_lib::lemma_concat_associative(q12, w12, t13);
    vstd::seq_lib::lemma_concat_associative(pre, b11, w12);
    assert(q12 + w12 == pre + b12);
    assert(s == (q12 + w12) + t13);
    lemma_expect_inverts(q12, "}"@, t13);
    assert(v == MenuItemV { id: v.id, name: v.name, category: v.category, description: v.description, allergens: v.allergens, is_available: v.is_available });
}

/// The canonical text of one notice.
pub open spec fn enc_notice(v: NoticeV) -> Seq<char> {
    "{\"id\":"@ + dec_digits(v.id) + ",\"title\":"@ + enc_string(v.title) + ",\"content\":"@ + enc_string(v.content) + ",\"is_active\":"@ + enc_bool(v.is_active) + ",\"created_at\":"@ + dec_digits_i64(v.created_at) + ",\"updated_at\":"@ + dec_digits_i64(v.updated_at) + "}"@
}

/// Appends the canonical text of `e` to `out`.
pub fn push_notice(out: &mut Vec<char>, e: &Notice)
    ensures
        final(out)@ == old(out)@ + enc_notice(e.deep_view()),
{
    push_str(out, "{\"id\":");
    push_u128(out, e.id);
    push_str(out, ",\"title\":");
    push_string(out, e.title.as_str());
    push_str(out, ",\"content\":");
    push_string(out, e.content.as_str());
    push_str(out, ",\"is_active\":");
    push_bool(out, e.is_active);
    push_str(out, ",\"created_at\":");
    push_i64(out, e.created_at);
    push_str(out, ",\"updated_at\":");
    push_i64(out, e.updated_at);
    push_str(out, "}");
    proof {
        assert(out@ =~= old(out)@ + enc_notice(e.deep_view()));
    }
}

/// Parses one notice at `pos`.
#[verifier::opaque]
pub open spec fn sp_parse_notice(s: Seq<char>, pos: int) -> Option<(NoticeV, int)> {
        match sp_expect(s, pos, "{\"id\":"@) { Some(p0) => {
        match sp_parse_u128(s, p0) { Some((x_id, p1)) => {
        match sp_expect(s, p1, ",\"title\":"@) { Some(p2) => {
        match sp_parse_string(s, p2) { Some((x_title, p3)) => {
        match sp_expect(s, p3, ",\"content\":"@) { Some(p4) => {
        match sp_parse_string(s, p4) { Some((x_content, p5)) => {
        match sp_expect(s, p5, ",\"is_active\":"@) { Some(p6) => {
        match sp_parse_bool(s, p6) { Some((x_is_active, p7)) => {
        match sp_expect(s, p7, ",\"created_at\":"@) { Some(p8) => {
        match sp_parse_i64(s, p8) { Some((x_created_at, p9)) => {
        match sp_expect(s, p9, ",\"updated_at\":"@) { Some(p10) => {
        match sp_parse_i64(s, p10) { Some((x_updated_at, p11)) => {
        match sp_expect(s, p11, "}"@) { Some(p12) => {
        Some((NoticeV { id: x_id, title: x_title, content: x_content, is_active: x_is_active, created_at: x_created_at, updated_at: x_updated_at }, p12))
        }, None => None }
        }, None => None }
        }, None => None }
        }, None => None }
        }, None => None }
        }, None => None }
        }, None => None }
        }, None => None }
        }, None => None }
        }, None => None }
        }, None => None }
        }, None => None }
        }, None => None }
}

/// Parses one notice at `pos`.
#[verifier::loop_isolation(false)]
pub fn parse_notice(s: &Vec<char>, pos: usize) -> (r: Option<(Notice, usize)>)
    requires
        pos <= s@.len(),
    ensures
        match r {
            Some(p) => sp_parse_notice(s@, pos as int) == Some((p.0.deep_view(), p.1 as int))
                && pos < p.1 <= s@.len(),
            None => sp_parse_notice(s@, pos as int) is None,
        },
{
    proof {
        reveal(sp_parse_notice);
    }
    let p = match expect_lit(s, pos, "{\"id\":") {
        Some(p) => p,
        None => {
            return None;
        },
    };
    let (x_id, p) = match parse_u128(s, p) {
        Some(x) => x,
        None => {
            return None;
        },
    };
    let p = match expect_lit(s, p, ",\"title\":") {
        Some(p) => p,
        None => {
            return None;
        },
    };
    let (x_title, p) = match parse_string(s, p) {
        Some(x) => x,
        None => {
            return None;
        },
    };
    let p = match expect_lit(s, p, ",\"content\":") {
        Some(p) => p,
        None => {
            return None;
        },
    };
    let (x_content, p) = match parse_string(s, p) {
        Some(x) => x,
        None => {
            return None;
        },
    };
    let p = match expect_lit(s, p, ",\"is_active\":") {
        Some(p) => p,
        None => {
            return None;
        },
    };
    let (x_is_active, p) = match parse_bool(s, p) {
        Some(x) => x,
        None => {
            return None;
        },
    };
    let p = match expect_lit(s, p, ",\"created_at\":") {
        Some(p) => p,
        None => {
            return None;
        },
    };
    let (x_created_at, p) = match parse_i64(s, p) {
        Some(x) => x,
        None => {
            return None;
        },
    };
    let p = match expect_lit(s, p, ",\"updated_at\":") {
        Some(p) => p,
        None => {
            return None;
        },
    };
    let (x_updated_at, p) = match parse_i64(s, p) {
        Some(x) => x,
        None => {
            return None;
        },
    };
    let p = match expect_lit(s, p, "}") {
        Some(p) => p,
        None => {
            return None;
        },
    };
    Some((
        Notice {
        id: x_id,
        title: chars_to_string(&x_title),
        content: chars_to_string(&x_content),
        is_active: x_is_active,
        created_at: x_created_at,
        updated_at: x_updated_at
        },
        p,
    ))
}

/// One notice's canonical text parses back to the value.
#[verifier::rlimit(100)]
#[verifier::spinoff_prover]
pub proof fn lemma_parse_notice_inverts(pre: Seq<char>, v: NoticeV, rest: Seq<char>)
    ensures
        sp_parse_notice(pre + enc_notice(v) + rest, pre.len() as int) == Some(
            (v, (pre.len() + enc_notice(v).len()) as int),
        ),
{
    reveal(sp_parse_notice);
    reveal_strlit(",\"content\":");
    reveal_strlit(",\"created_at\":");
    reveal_strlit(",\"is_active\":");
    reveal_strlit(",\"title\":");
    reveal_strlit(",\"updated_at\":");
    reveal_strlit("{\"id\":");
    reveal_strlit("}");
    let s = pre + enc_notice(v) + rest;
    let w0 = "{\"id\":"@;
    let w1 = dec_digits(v.id);
    let w2 = ",\"title\":"@;
    let w3 = enc_string(v.title);
    let w4 = ",\"content\":"@;
    let w5 = enc_string(v.content);
    let w6 = ",\"is_active\":"@;
    let w7 = enc_bool(v.is_active);
    let w8 = ",\"created_at\":"@;
    let w9 = dec_digits_i64(v.created_at);
    let w10 = ",\"updated_at\":"@;
    let w11 = dec_digits_i64(v.updated_at);
    let w12 = "}"@;
    let t13 = rest;
    let t12 = w12 + t13;
    let t11 = w11 + t12;
    let t10 = w10 + t11;
    let t9 = w9 + t10;
    let t8 = w8 + t9;
    let t7 = w7 + t8;
    let t6 = w6 + t7;
    let t5 = w5 + t6;
    let t4 = w4 + t5;
    let t3 = w3 + t4;
    let t2 = w2 + t3;
    let t1 = w1 + t2;
    let t0 = w0 + t1;
    let b0 = w0;
    let b1 = b0 + w1;
    let b2 = b1 + w2;
    let b3 = b2 + w3;
    let b4 = b3 + w4;
    let b5 = b4 + w5;
    let b6 = b5 + w6;
    let b7 = b6 + w7;
    let b8 = b7 + w8;
    let b9 = b8 + w9;
    let b10 = b9 + w10;
    let b11 = b10 + w11;
    let b12 = b11 + w12;
    assert(enc_notice(v) == b12);
    assert(s == (pre + b12) + t13);
    vstd::seq_lib::lemma_concat_associative(pre, b11, w12);
    vstd::seq_lib::lemma_concat_associative(pre + b11, w12, t13);
    assert((pre + b12) + t13 == (pre + b11) + t12);
    vstd::seq_lib::lemma_concat_associative(pre, b10, w11);
    vstd::seq_lib::lemma_concat_associative(pre + b10, w11, t12);
    assert((pre + b11) + t12 == (pre + b10) + t11);
    vstd::seq_lib::lemma_concat_associative(pre, b9, w10);
    vstd::seq_lib::lemma_concat_associative(pre + b9, w10, t11);
    assert((pre + b10) + t11 == (pre + b9) + t10);
    vstd::seq_lib::lemma_concat_associative(pre, b8, w9);
    vstd::seq_lib::lemma_concat_associative(pre + b8, w9, t10);
    assert((pre + b9) + t10 == (pre + b8) + t9);
    vstd::seq_lib::lemma_concat_associative(pre, b7, w8);
    vstd::seq_lib::lemma_concat_associative(pre + b7, w8, t9);
    assert((pre + b8) + t9 == (pre + b7) + t8);
    vstd::seq_lib::lemma_concat_associative(pre, b6, w7);
    vstd::seq_lib::lemma_concat_associative(pre + b6, w7, t8);
    assert((pre + b7) + t8 == (pre + b6) + t7);
    vstd::seq_lib::lemma_concat_associative(pre, b5, w6);
    vstd::seq_lib::lemma_concat_associative(pre + b5, w6, t7);
    assert((pre + b6) + t7 == (pre + b5) + t6);
    vstd::seq_lib::lemma_concat_associative(pre, b4, w5);
    vstd::seq_lib::lemma_concat_associative(pre + b4, w5, t6);
    assert((pre + b5) + t6 == (pre + b4) + t5);
    vstd::seq_lib::lemma_concat_associative(pre, b3, w4);
    vstd::seq_lib::lemma_concat_associative(pre + b3, w4, t5);
    assert((pre + b4) + t5 == (pre + b3) + t4);
    vstd::seq_lib::lemma_concat_associative(pre, b2, w3);
    vstd::seq_lib::lemma_concat_associative(pre + b2, w3, t4);
    assert((pre + b3) + t4 == (pre + b2) + t3);
    vstd::seq_lib::lemma_concat_associative(pre, b1, w2);
    vstd::seq_lib::lemma_concat_associative(pre + b1, w2, t3);
    assert((pre + b2) + t3 == (pre + b1) + t2);
    vstd::seq_lib::lemma_concat_associative(pre, b0, w1);
    vstd::seq_lib::lemma_concat_associative(pre + b0, w1, t2);
    assert((pre + b1) + t2 == (pre + b0) + t1);
    let q0 = pre;
    vstd::seq_lib::lemma_concat_associative(pre, w0, t1);
    assert(s == (q0 + w0) + t1);
    lemma_expect_inverts(q0, "{\"id\":"@, t1);
    let q1 = q0 + w0;
    assert(q1 == pre + b0);
    vstd::seq_lib::lemma_concat_associative(q1, w1, t2);
    vstd::seq_lib::lemma_concat_associative(pre, b0, w1);
    assert(q1 + w1 == pre + b1);
    assert(s == (q1 + w1) + t2);
    assert(!is_dec_digit(t2[0])) by {
        assert(t2[0] == ",\"title\":"@[0]);
    }
    lemma_parse_u128_inverts(q1, v.id, t2);
    let q2 = q1 + w1;
    vstd::seq_lib::lemma_concat_associative(pre, b0, w1);
    assert(q2 == pre + b1);
    vstd::seq_lib::lemma_concat_associative(q2, w2, t3);
    vstd::seq_lib::lemma_concat_associative(pre, b1, w2);
    assert(q2 + w2 == pre + b2);
    assert(s == (q2 + w2) + t3);
    lemma_expect_inverts(q2, ",\"title\":"@, t3);
    let q3 = q2 + w2;
    vstd::seq_lib::lemma_concat_associative(pre, b1, w2);
    assert(q3 == pre + b2);
    vstd::seq_lib::lemma_concat_associative(q3, w3, t4);
    vstd::seq_lib::lemma_concat_associative(pre, b2, w3);
    assert(q3 + w3 == pre + b3);
    assert(s == (q3 + w3) + t4);
    lemma_parse_string_inverts(q3, v.title, t4);
    let q4 = q3 + w3;
    vstd::seq_lib::lemma_concat_associative(pre, b2, w3);
    assert(q4 == pre + b3);
    vstd::seq_lib::lemma_concat_associative(q4, w4, t5);
    vstd::seq_lib::lemma_concat_associative(pre, b3, w4);
    assert(q4 + w4 == pre + b4);
    assert(s == (q4 + w4) + t5);
    lemma_expect_inverts(q4, ",\"content\":"@, t5);
    let q5 = q4 + w4;
    vstd::seq_lib::lemma_concat_associative(pre, b3, w4);
    assert(q5 == pre + b4);
    vstd::seq_lib::lemma_concat_associative(q5, w5, t6);
    vstd::seq_lib::lemma_concat_associative(pre, b4, w5);
    assert(q5 + w5 == pre + b5);
    assert(s == (q5 + w5) + t6);
    lemma_parse_string_inverts(q5, v.content, t6);
    let q6 = q5 + w5;
    vstd::seq_lib::lemma_concat_associative(pre, b4, w5);
    assert(q6 == pre + b5);
    vstd::seq_lib::lemma_concat_associative(q6, w6, t7);
    vstd::seq_lib::lemma_concat_associative(pre, b5, w6);
    assert(q6 + w6 == pre + b6);
    assert(s == (q6 + w6) + t7);
    lemma_expect_inverts(q6, ",\"is_active\":"@, t7);
    let q7 = q6 + w6;
    vstd::seq_lib::lemma_concat_associative(pre, b5, w6);
    assert(q7 == pre + b6);
    vstd::seq_lib::lemma_concat_associative(q7, w7, t8);
    vstd::seq_lib::lemma_concat_associative(pre, b6, w7);
    assert(q7 + w7 == pre + b7);
    assert(s == (q7 + w7) + t8);
    lemma_parse_bool_inverts(q7, v.is_active, t8);
    let q8 = q7 + w7;
    vstd::seq_lib::lemma_concat_associative(pre, b6, w7);
    assert(q8 == pre + b7);
    vstd::seq_lib::lemma_concat_associative(q8, w8, t9);
    vstd::seq_lib::lemma_concat_associative(pre, b7, w8);
    assert(q8 + w8 == pre + b8);
    assert(s == (q8 + w8) + t9);
    lemma_expect_inverts(q8, ",\"created_at\":"@, t9);
    let q9 = q8 + w8;
    vstd::seq_lib::lemma_concat_associative(pre, b7, w8);
    assert(q9 == pre + b8);
    vstd::seq_lib::lemma_concat_associative(q9, w9, t10);
    vstd::seq_lib::lemma_concat_associative(pre, b8, w9);
    assert(q9 + w9 == pre + b9);
    assert(s == (q9 + w9) + t10);
    assert(!is_dec_digit(t10[0])) by {
        assert(t10[0] == ",\"updated_at\":"@[0]);
    }
    lemma_parse_i64_inverts(q9, v.created_at, t10);
    let q10 = q9 + w9;
    vstd::seq_lib::lemma_concat_associative(pre, b8, w9);
    assert(q10 == pre + b9);
    vstd::seq_lib::lemma_concat_associative(q10, w10, t11);
    vstd::seq_lib::lemma_concat_associative(pre, b9, w10);
    assert(q10 + w10 == pre + b10);
    assert(s == (q10 + w10) + t11);
    lemma_expect_inverts(q10, ",\"updated_at\":"@, t11);
    let q11 = q10 + w10;
    vstd::seq_lib::lemma_concat_associative(pre, b9, w10);
    assert(q11 == pre + b10);
    vstd::seq_lib::lemma_concat_associative(q11, w11, t12);
    vstd::seq_lib::lemma_concat_associative(pre, b10, w11);
    assert(q11 + w11 == pre + b11);
    assert(s == (q11 + w11) + t12);
    assert(!is_dec_digit(t12[0])) by {
        assert(t12[0] == "}"@[0]);
    }
    lemma_parse_i64_inverts(q11, v.updated_at, t12);
    let q12 = q11 + w11;
    vstd::seq_lib::lemma_concat_associative(pre, b10, w11);
    assert(q12 == pre + b11);
    vstd::seq_lib::lemma_concat_associative(q12, w12, t13);
    vstd::seq_lib::lemma_concat_associative(pre, b11, w12);
    assert(q12 + w12 == pre + b12);
    assert(s == (q12 + w12) + t13);
    lemma_expect_inverts(q12, "}"@, t13);
    assert(v == NoticeV { id: v.id, title: v.title, content: v.content, is_active: v.is_active, created_at: v.created_at, updated_at: v.updated_at });
}

/// The canonical text of one admin user.
pub open spec fn enc_admin_user(v: AdminUserV) -> Seq<char> {
    "{\"id\":"@ + dec_digits(v.id) + ",\"username\":"@ + enc_string(v.username) + ",\"password_hash\":"@ + enc_string(v.password_hash) + "}"@
}

/// Appends the canonical text of `e` to `out`.
pub fn push_admin_user(out: &mut Vec<char>, e: &AdminUser)
    ensures
        final(out)@ == old(out)@ + enc_admin_user(e.deep_view()),
{
    push_str(out, "{\"id\":");
    push_u128(out, e.id);
    push_str(out, ",\"username\":");
    push_string(out, e.username.as_str());
    push_str(out, ",\"password_hash\":");
    push_string(out, e.password_hash.as_str());
    push_str(out, "}");
    proof {
        assert(out@ =~= old(out)@ + enc_admin_user(e.deep_view()));
    }
}

/// Parses one admin user at `pos`.
#[verifier::opaque]
pub open spec fn sp_parse_admin_user(s: Seq<char>, pos: int) -> Option<(AdminUserV, int)> {
        match sp_expect(s, pos, "{\"id\":"@) { Some(p0) => {
        match sp_parse_u128(s, p0) { Some((x_id, p1)) => {
        match sp_expect(s, p1, ",\"username\":"@) { Some(p2) => {
        match sp_parse_string(s, p2) { Some((x_username, p3)) => {
        match sp_expect(s, p3, ",\"password_hash\":"@) { Some(p4) => {
        match sp_parse_string(s, p4) { Some((x_password_hash, p5)) => {
        match sp_expect(s, p5, "}"@) { Some(p6) => {
        Some((AdminUserV { id: x_id, username: x_username, password_hash: x_password_hash }, p6))
        }, None => None }
        }, None => None }
        }, None => None }
        }, None => None }
        }, None => None }
        }, None => None }
        }, None => None }
}

/// Parses one admin user at `pos`.
#[verifier::loop_isolation(false)]
pub fn parse_admin_user(s: &Vec<char>, pos: usize) -> (r: Option<(AdminUser, usize)>)
    requires
        pos <= s@.len(),
    ensures
        match r {
            Some(p) => sp_parse_admin_user(s@, pos as int) == Some((p.0.deep_view(), p.1 as int))
                && pos < p.1 <= s@.len(),
            None => sp_parse_admin_user(s@, pos as int) is None,
        },
{
    proof {
        reveal(sp_parse_admin_user);
    }
    let p = match expect_lit(s, pos, "{\"id\":") {
        Some(p) => p,
        None => {
            return None;
        },
    };
    let (x_id, p) = match parse_u128(s, p) {
        Some(x) => x,
        None => {
            return None;
        },
    };
    let p = match expect_lit(s, p, ",\"username\":") {
        Some(p) => p,
        None => {
            return None;
        },
    };
    let (x_username, p) = match parse_string(s, p) {
        Some(x) => x,
        None => {
            return None;
        },
    };
    let p = match expect_lit(s, p, ",\"password_hash\":") {
        Some(p) => p,
        None => {
            return None;
        },
    };
    let (x_password_hash, p) = match parse_string(s, p) {
        Some(x) => x,
        None => {
            return None;
        },
    };
    let p = match expect_lit(s, p, "}") {
        Some(p) => p,
        None => {
            return None;
        },
    };
    Some((
        AdminUser {
        id: x_id,
        username: chars_to_string(&x_username),
        password_hash: chars_to_string(&x_password_hash)
        },
        p,
    ))
}

/// One admin user's canonical text parses back to the value.
#[verifier::rlimit(100)]
#[verifier::spinoff_prover]
pub proof fn lemma_parse_admin_user_inverts(pre: Seq<char>, v: AdminUserV, rest: Seq<char>)
    ensures
        sp_parse_admin_user(pre + enc_admin_user(v) + rest, pre.len() as int) == Some(
            (v, (pre.len() + enc_admin_user(v).len()) as int),
        ),
{
    reveal(sp_parse_admin_user);
    reveal_strlit(",\"password_hash\":");
    reveal_strlit(",\"username\":");
    reveal_strlit("{\"id\":");
    reveal_strlit("}");
    let s = pre + enc_admin_user(v) + rest;
    let w0 = "{\"id\":"@;
    let w1 = dec_digits(v.id);
    let w2 = ",\"username\":"@;
    let w3 = enc_string(v.username);
    let w4 = ",\"password_hash\":"@;
    let w5 = enc_string(v.password_hash);
    let w6 = "}"@;
    let t7 = rest;
    let t6 = w6 + t7;
    let t5 = w5 + t6;
    let t4 = w4 + t5;
    let t3 = w3 + t4;
    let t2 = w2 + t3;
    let t1 = w1 + t2;
    let t0 = w0 + t1;
    let b0 = w0;
    let b1 = b0 + w1;
    let b2 = b1 + w2;
    let b3 = b2 + w3;
    let b4 = b3 + w4;
    let b5 = b4 + w5;
    let b6 = b5 + w6;
    assert(enc_admin_user(v) == b6);
    assert(s == (pre + b6) + t7);
    vstd::seq_lib::lemma_concat_associative(pre, b5, w6);
    vstd::seq_lib::lemma_concat_associative(pre + b5, w6, t7);
    assert((pre + b6) + t7 == (pre + b5) + t6);
    vstd::seq_lib::lemma_concat_associative(pre, b4, w5);
    vstd::seq_lib::lemma_concat_associative(pre + b4, w5, t6);
    assert((pre + b5) + t6 == (pre + b4) + t5);
    vstd::seq_lib::lemma_concat_associative(pre, b3, w4);
    vstd::seq_lib::lemma_concat_associative(pre + b3, w4, t5);
    assert((pre + b4) + t5 == (pre + b3) + t4);
    vstd::seq_lib::lemma_concat_associative(pre, b2, w3);
    vstd::seq_lib::lemma_concat_associative(pre + b2, w3, t4);
    assert((pre + b3) + t4 == (pre + b2) + t3);
    vstd::seq_lib::lemma_concat_associative(pre, b1, w2);
    vstd::seq_lib::lemma_concat_associative(pre + b1, w2, t3);
    assert((pre + b2) + t3 == (pre + b1) + t2);
    vstd::seq_lib::lemma_concat_associative(pre, b0, w1);
    vstd::seq_lib::lemma_concat_associative(pre + b0, w1, t2);
    assert((pre + b1) + t2 == (pre + b0) + t1);
    let q0 = pre;
    vstd::seq_lib::lemma_concat_associative(pre, w0, t1);
    assert(s == (q0 + w0) + t1);
    lemma_expect_inverts(q0, "{\"id\":"@, t1);
    let q1 = q0 + w0;
    assert(q1 == pre + b0);
    vstd::seq_lib::lemma_concat_associative(q1, w1, t2);
    vstd::seq_lib::lemma_concat_associative(pre, b0, w1);
    assert(q1 + w1 == pre + b1);
    assert(s == (q1 + w1) + t2);
    assert(!is_dec_digit(t2[0])) by {
        assert(t2[0] == ",\"username\":"@[0]);
    }
    lemma_parse_u128_inverts(q1, v.id, t2);
    let q2 = q1 + w1;
    vstd::seq_lib::lemma_concat_associative(pre, b0, w1);
    assert(q2 == pre + b1);
    vstd::seq_lib::lemma_concat_associative(q2, w2, t3);
    vstd::seq_lib::lemma_concat_associative(pre, b1, w2);
    assert(q2 + w2 == pre + b2);
    assert(s == (q2 + w2) + t3);
    lemma_expect_inverts(q2, ",\"username\":"@, t3);
    let q3 = q2 + w2;
    vstd::seq_lib::lemma_concat_associative(pre, b1, w2);
    assert(q3 == pre + b2);
    vstd::seq_lib::lemma_concat_associative(q3, w3, t4);
    vstd::seq_lib::lemma_concat_associative(pre, b2, w3);
    assert(q3 + w3 == pre + b3);
    assert(s == (q3 + w3) + t4);
    lemma_parse_string_inverts(q3, v.username, t4);
    let q4 = q3 + w3;
    vstd::seq_lib::lemma_concat_associative(pre, b2, w3);
    assert(q4 == pre + b3);
    vstd::seq_lib::lemma_concat_associative(q4, w4, t5);
    vstd::seq_lib::lemma_concat_associative(pre, b3, w4);
    assert(q4 + w4 == pre + b4);
    assert(s == (q4 + w4) + t5);
    lemma_expect_inverts(q4, ",\"password_hash\":"@, t5);
    let q5 = q4 + w4;
    vstd::seq_lib::lemma_concat_associative(pre, b3, w4);
    assert(q5 == pre + b4);
    vstd::seq_lib::lemma_concat_associative(q5, w5, t6);
    vstd::seq_lib::lemma_concat_associative(pre, b4, w5);
    assert(q5 + w5 == pre + b5);
    assert(s == (q5 + w5) + t6);
    lemma_parse_string_inverts(q5, v.password_hash, t6);
    let q6 = q5 + w5;
    vstd::seq_lib::lemma_concat_associative(pre, b4, w5);
    assert(q6 == pre + b5);
    vstd::seq_lib::lemma_concat_associative(q6, w6, t7);
    vstd::seq_lib::lemma_concat_associative(pre, b5, w6);
    assert(q6 + w6 == pre + b6);
    assert(s == (q6 + w6) + t7);
    lemma_expect_inverts(q6, "}"@, t7);
    assert(v == AdminUserV { id: v.id, username: v.username, password_hash: v.password_hash });
}

/// The canonical text of one menu preset.
pub open spec fn enc_menu_preset(v: MenuPresetV) -> Seq<char> {
    "{\"id\":"@ + dec_digits(v.id) + ",\"name\":"@ + enc_string(v.name) + ",\"description\":"@ + enc_string(v.description) + ",\"menu_item_ids\":"@ + enc_id_array(v.menu_item_ids) + ",\"created_at\":"@ + dec_digits_i64(v.created_at) + ",\"updated_at\":"@ + dec_digits_i64(v.updated_at) + "}"@
}

/// Appends the canonical text of `e` to `out`.
pub fn push_menu_preset(out: &mut Vec<char>, e: &MenuPreset)
    ensures
        final(out)@ == old(out)@ + enc_menu_preset(e.deep_view()),
{
    push_str(out, "{\"id\":");
    push_u128(out, e.id);
    push_str(out, ",\"name\":");
    push_string(out, e.name.as_str());
    push_str(out, ",\"description\":");
    push_string(out, e.description.as_str());
    push_str(out, ",\"menu_item_ids\":");
    push_id_array(out, &e.menu_item_ids);
    push_str(out, ",\"created_at\":");
    push_i64(out, e.created_at);
    push_str(out, ",\"updated_at\":");
    push_i64(out, e.updated_at);
    push_str(out, "}");
    proof {
        assert(out@ =~= old(out)@ + enc_menu_preset(e.deep_view()));
    }
}

/// Parses one menu preset at `pos`.
#[verifier::opaque]
pub open spec fn sp_parse_menu_preset(s: Seq<char>, pos: int) -> Option<(MenuPresetV, int)> {
        match sp_expect(s, pos, "{\"id\":"@) { Some(p0) => {
        match sp_parse_u128(s, p0) { Some((x_id, p1)) => {
        match sp_expect(s, p1, ",\"name\":"@) { Some(p2) => {
        match sp_parse_string(s, p2) { Some((x_name, p3)) => {
        match sp_expect(s, p3, ",\"description\":"@) { Some(p4) => {
        match sp_parse_string(s, p4) { Some((x_description, p5)) => {
        match sp_expect(s, p5, ",\"menu_item_ids\":"@) { Some(p6) => {
        match sp_parse_id_array(s, p6) { Some((x_menu_item_ids, p7)) => {
        match sp_expect(s, p7, ",\"created_at\":"@) { Some(p8) => {
        match sp_parse_i64(s, p8) { Some((x_created_at, p9)) => {
        match sp_expect(s, p9, ",\"updated_at\":"@) { Some(p10) => {
        match sp_parse_i64(s, p10) { Some((x_updated_at, p11)) => {
        match sp_expect(s, p11, "}"@) { Some(p12) => {
        Some((MenuPresetV { id: x_id, name: x_name, description: x_description, menu_item_ids: x_menu_item_ids, created_at: x_created_at, updated_at: x_updated_at }, p12))
        }, None => None }
        }, None => None }
        }, None => None }
        }, None => None }
        }, None => None }
        }, None => None }
        }, None => None }
        }, None => None }
        }, None => None }
        }, None => None }
        }, None => None }
        }, None => None }
        }, None => None }
}

/// Parses one menu preset at `pos`.
#[verifier::loop_isolation(false)]
pub fn parse_menu_preset(s: &Vec<char>, pos: usize) -> (r: Option<(MenuPreset, usize)>)
    requires
        pos <= s@.len(),
    ensures
        match r {
            Some(p) => sp_parse_menu_preset(s@, pos as int) == Some((p.0.deep_view(), p.1 as int))
                && pos < p.1 <= s@.len(),
            None => sp_parse_menu_preset(s@, pos as int) is None,
        },
{
    proof {
        reveal(sp_parse_menu_preset);
    }
    let p = match expect_lit(s, pos, "{\"id\":") {
        Some(p) => p,
        None => {
            return None;
        },
    };
    let (x_id, p) = match parse_u128(s, p) {
        Some(x) => x,
        None => {
            return None;
        },
    };
    let p = match expect_lit(s, p, ",\"name\":") {
        Some(p) => p,
        None => {
            return None;
        },
    };
    let (x_name, p) = match parse_string(s, p) {
        Some(x) => x,
        None => {
            return None;
        },
    };
    let p = match expect_lit(s, p, ",\"description\":") {
        Some(p) => p,
        None => {
            return None;
        },
    };
    let (x_description, p) = match parse_string(s, p) {
        Some(x) => x,
        None => {
            return None;
        },
    };
    let p = match expect_lit(s, p, ",\"menu_item_ids\":") {
        Some(p) => p,
        None => {
            return None;
        },
    };
    let (x_menu_item_ids, p) = match parse_id_array(s, p) {
        Some(x) => x,
        None => {
            return None;
        },
    };
    let p = match expect_lit(s, p, ",\"created_at\":") {
        Some(p) => p,
        None => {
            return None;
        },
    };
    let (x_created_at, p) = match parse_i64(s, p) {
        Some(x) => x,
        None => {
            return None;
        },
    };
    let p = match expect_lit(s, p, ",\"updated_at\":") {
        Some(p) => p,
        None => {
            return None;
        },
    };
    let (x_updated_at, p) = match parse_i64(s, p) {
        Some(x) => x,
        None => {
            return None;
        },
    };
    let p = match expect_lit(s, p, "}") {
        Some(p) => p,
        None => {
            return None;
        },
    };
    Some((
        MenuPreset {
        id: x_id,
        name: chars_to_string(&x_name),
        description: chars_to_string(&x_description),
        menu_item_ids: x_menu_item_ids,
        created_at: x_created_at,
        updated_at: x_updated_at
        },
        p,
    ))
}

/// One menu preset's canonical text parses back to the value.
#[verifier::rlimit(100)]
#[verifier::spinoff_prover]
pub proof fn lemma_parse_menu_preset_inverts(pre: Seq<char>, v: MenuPresetV, rest: Seq<char>)
    ensures
        sp_parse_menu_preset(pre + enc_menu_preset(v) + rest, pre.len() as int) == Some(
            (v, (pre.len() + enc_menu_preset(v).len()) as int),
        ),
{
    reveal(sp_parse_menu_preset);
    reveal_strlit(",\"created_at\":");
    reveal_strlit(",\"description\":");
    reveal_strlit(",\"menu_item_ids\":");
    reveal_strlit(",\"name\":");
    reveal_strlit(",\"updated_at\":");
    reveal_strlit("{\"id\":");
    reveal_strlit("}");
    let s = pre + enc_menu_preset(v) + rest;
    let w0 = "{\"id\":"@;
    let w1 = dec_digits(v.id);
    let w2 = ",\"name\":"@;
    let w3 = enc_string(v.name);
    let w4 = ",\"description\":"@;
    let w5 = enc_string(v.description);
    let w6 = ",\"menu_item_ids\":"@;
    let w7 = enc_id_array(v.menu_item_ids);
    let w8 = ",\"created_at\":"@;
    let w9 = dec_digits_i64(v.created_at);
    let w10 = ",\"updated_at\":"@;
    let w11 = dec_digits_i64(v.updated_at);
    let w12 = "}"@;
    let t13 = rest;
    let t12 = w12 + t13;
    let t11 = w11 + t12;
    let t10 = w10 + t11;
    let t9 = w9 + t10;
    let t8 = w8 + t9;
    let t7 = w7 + t8;
    let t6 = w6 + t7;
    let t5 = w5 + t6;
    let t4 = w4 + t5;
    let t3 = w3 + t4;
    let t2 = w2 + t3;
    let t1 = w1 + t2;
    let t0 = w0 + t1;
    let b0 = w0;
    let b1 = b0 + w1;
    let b2 = b1 + w2;
    let b3 = b2 + w3;
    let b4 = b3 + w4;
    let b5 = b4 + w5;
    let b6 = b5 + w6;
    let b7 = b6 + w7;
    let b8 = b7 + w8;
    let b9 = b8 + w9;
    let b10 = b9 + w10;
    let b11 = b10 + w11;
    let b12 = b11 + w12;
    assert(enc_menu_preset(v) == b12);
    assert(s == (pre + b12) + t13);
    vstd::seq_lib::lemma_concat_associative(pre, b11, w12);
    vstd::seq_lib::lemma_concat_associative(pre + b11, w12, t13);
    assert((pre + b12) + t13 == (pre + b11) + t12);
    vstd::seq_lib::lemma_concat_associative(pre, b10, w11);
    vstd::seq_lib::lemma_concat_associative(pre + b10, w11, t12);
    assert((pre + b11) + t12 == (pre + b10) + t11);
    vstd::seq_lib::lemma_concat_associative(pre, b9, w10);
    vstd::seq_lib::lemma_concat_associative(pre + b9, w10, t11);
    assert((pre + b10) + t11 == (pre + b9) + t10);
    vstd::seq_lib::lemma_concat_associative(pre, b8, w9);
    vstd::seq_lib::lemma_concat_associative(pre + b8, w9, t10);
    assert((pre + b9) + t10 == (pre + b8) + t9);
    vstd::seq_lib::lemma_concat_associative(pre, b7, w8);
    vstd::seq_lib::lemma_concat_associative(pre + b7, w8, t9);
    assert((pre + b8) + t9 == (pre + b7) + t8);
    vstd::seq_lib::lemma_concat_associative(pre, b6, w7);
    vstd::seq_lib::lemma_concat_associative(pre + b6, w7, t8);
    assert((pre + b7) + t8 == (pre + b6) + t7);
    vstd::seq_lib::lemma_concat_associative(pre, b5, w6);
    vstd::seq_lib::lemma_concat_associative(pre + b5, w6, t7);
    assert((pre + b6) + t7 == (pre + b5) + t6);
    vstd::seq_lib::lemma_concat_associative(pre, b4, w5);
    vstd::seq_lib::lemma_concat_associative(pre + b4, w5, t6);
    assert((pre + b5) + t6 == (pre + b4) + t5);
    vstd::seq_lib::lemma_concat_associative(pre, b3, w4);
    vstd::seq_lib::lemma_concat_associative(pre + b3, w4, t5);
    assert((pre + b4) + t5 == (pre + b3) + t4);
    vstd::seq_lib::lemma_concat_associative(pre, b2, w3);
    vstd::seq_lib::lemma_concat_associative(pre + b2, w3, t4);
    assert((pre + b3) + t4 == (pre + b2) + t3);
    vstd::seq_lib::lemma_concat_associative(pre, b1, w2);
    vstd::seq_lib::lemma_concat_associative(pre + b1, w2, t3);
    assert((pre + b2) + t3 == (pre + b1) + t2);
    vstd::seq_lib::lemma_concat_associative(pre, b0, w1);
    vstd::seq_lib::lemma_concat_associative(pre + b0, w1, t2);
    assert((pre + b1) + t2 == (pre + b0) + t1);
    let q0 = pre;
    vstd::seq_lib::lemma_concat_associative(pre, w0, t1);
    assert(s == (q0 + w0) + t1);
    lemma_expect_inverts(q0, "{\"id\":"@, t1);
    let q1 = q0 + w0;
    assert(q1 == pre + b0);
    vstd::seq_lib::lemma_concat_associative(q1, w1, t2);
    vstd::seq_lib::lemma_concat_associative(pre, b0, w1);
    assert(q1 + w1 == pre + b1);
    assert(s == (q1 + w1) + t2);
    assert(!is_dec_digit(t2[0])) by {
        assert(t2[0] == ",\"name\":"@[0]);
    }
    lemma_parse_u128_inverts(q1, v.id, t2);
    let q2 = q1 + w1;
    vstd::seq_lib::lemma_concat_associative(pre, b0, w1);
    assert(q2 == pre + b1);
    vstd::seq_lib::lemma_concat_associative(q2, w2, t3);
    vstd::seq_lib::lemma_concat_associative(pre, b1, w2);
    assert(q2 + w2 == pre + b2);
    assert(s == (q2 + w2) + t3);
    lemma_expect_inverts(q2, ",\"name\":"@, t3);
    let q3 = q2 + w2;
    vstd::seq_lib::lemma_concat_associative(pre, b1, w2);
    assert(q3 == pre + b2);
    vstd::seq_lib::lemma_concat_associative(q3, w3, t4);
    vstd::seq_lib::lemma_concat_associative(pre, b2, w3);
    assert(q3 + w3 == pre + b3);
    assert(s == (q3 + w3) + t4);
    lemma_parse_string_inverts(q3, v.name, t4);
    let q4 = q3 + w3;
    vstd::seq_lib::lemma_concat_associative(pre, b2, w3);
    assert(q4 == pre + b3);
    vstd::seq_lib::lemma_concat_associative(q4, w4, t5);
    vstd::seq_lib::lemma_concat_associative(pre, b3, w4);
    assert(q4 + w4 == pre + b4);
    assert(s == (q4 + w4) + t5);
    lemma_expect_inverts(q4, ",\"description\":"@, t5);
    let q5 = q4 + w4;
    vstd::seq_lib::lemma_concat_associative(pre, b3, w4);
    assert(q5 == pre + b4);
    vstd::seq_lib::lemma_concat_associative(q5, w5, t6);
    vstd::seq_lib::lemma_concat_associative(pre, b4, w5);
    assert(q5 + w5 == pre + b5);
    assert(s == (q5 + w5) + t6);
    lemma_parse_string_inverts(q5, v.description, t6);
    let q6 = q5 + w5;
    vstd::seq_lib::lemma_concat_associative(pre, b4, w5);
    assert(q6 == pre + b5);
    vstd::seq_lib::lemma_concat_associative(q6, w6, t7);
    vstd::seq_lib::lemma_concat_associative(pre, b5, w6);
    assert(q6 + w6 == pre + b6);
    assert(s == (q6 + w6) + t7);
    lemma_expect_inverts(q6, ",\"menu_item_ids\":"@, t7);
    let q7 = q6 + w6;
    vstd::seq_lib::lemma_concat_associative(pre, b5, w6);
    assert(q7 == pre + b6);
    vstd::seq_lib::lemma_concat_associative(q7, w7, t8);
    vstd::seq_lib::lemma_concat_associative(pre, b6, w7);
    assert(q7 + w7 == pre + b7);
    assert(s == (q7 + w7) + t8);
    lemma_parse_id_array_inverts(q7, v.menu_item_ids, t8);
    let q8 = q7 + w7;
    vstd::seq_lib::lemma_concat_associative(pre, b6, w7);
    assert(q8 == pre + b7);
    vstd::seq_lib::lemma_concat_associative(q8, w8, t9);
    vstd::seq_lib::lemma_concat_associative(pre, b7, w8);
    assert(q8 + w8 == pre + b8);
    assert(s == (q8 + w8) + t9);
    lemma_expect_inverts(q8, ",\"created_at\":"@, t9);
    let q9 = q8 + w8;
    vstd::seq_lib::lemma_concat_associative(pre, b7, w8);
    assert(q9 == pre + b8);
    vstd::seq_lib::lemma_concat_associative(q9, w9, t10);
    vstd::seq_lib::lemma_concat_associative(pre, b8, w9);
    assert(q9 + w9 == pre + b9);
    assert(s == (q9 + w9) + t10);
    assert(!is_dec_digit(t10[0])) by {
        assert(t10[0] == ",\"updated_at\":"@[0]);
    }
    lemma_parse_i64_inverts(q9, v.created_at, t10);
    let q10 = q9 + w9;
    vstd::seq_lib::lemma_concat_associative(pre, b8, w9);
    assert(q10 == pre + b9);
    vstd::seq_lib::lemma_concat_associative(q10, w10, t11);
    vstd::seq_lib::lemma_concat_associative(pre, b9, w10);
    assert(q10 + w10 == pre + b10);
    assert(s == (q10 + w10) + t11);
    lemma_expect_inverts(q10, ",\"updated_at\":"@, t11);
    let q11 = q10 + w10;
    vstd::seq_lib::lemma_concat_associative(pre, b9, w10);
    assert(q11 == pre + b10);
    vstd::seq_lib::lemma_concat_associative(q11, w11, t12);
    vstd::seq_lib::lemma_concat_associative(pre, b10, w11);
    assert(q11 + w11 == pre + b11);
    assert(s == (q11 + w11) + t12);
    assert(!is_dec_digit(t12[0])) by {
        assert(t12[0] == "}"@[0]);
    }
    lemma_parse_i64_inverts(q11, v.updated_at, t12);
    let q12 = q11 + w11;
    vstd::seq_lib::lemma_concat_associative(pre, b10, w11);
    assert(q12 == pre + b11);
    vstd::seq_lib::lemma_concat_associative(q12, w12, t13);
    vstd::seq_lib::lemma_concat_associative(pre, b11, w12);
    assert(q12 + w12 == pre + b12);
    assert(s == (q12 + w12) + t13);
    lemma_expect_inverts(q12, "}"@, t13);
    assert(v == MenuPresetV { id: v.id, name: v.name, description: v.description, menu_item_ids: v.menu_item_ids, created_at: v.created_at, updated_at: v.updated_at });
}

/// The canonical text of one menu schedule.
pub open spec fn enc_menu_schedule(v: MenuScheduleV) -> Seq<char> {
    "{\"id\":"@ + dec_digits(v.id) + ",\"preset_id\":"@ + dec_digits(v.preset_id) + ",\"name\":"@ + enc_string(v.name) + ",\"description\":"@ + enc_string(v.description) + ",\"start_time\":"@ + dec_digits_i64(v.start_time) + ",\"end_time\":"@ + dec_digits_i64(v.end_time) + ",\"recurrence\":"@ + enc_recurrence(v.recurrence) + ",\"status\":"@ + enc_status(v.status) + ",\"created_at\":"@ + dec_digits_i64(v.created_at) + ",\"updated_at\":"@ + dec_digits_i64(v.updated_at) + ",\"error_message\":"@ + enc_opt_string(v.error_message) + "}"@
}

/// Appends the canonical text of `e` to `out`.
pub fn push_menu_schedule(out: &mut Vec<char>, e: &MenuSchedule)
    ensures
        final(out)@ == old(out)@ + enc_menu_schedule(e.deep_view()),
{
    push_str(out, "{\"id\":");
    push_u128(out, e.id);
    push_str(out, ",\"preset_id\":");
    push_u128(out, e.preset_id);
    push_str(out, ",\"name\":");
    push_string(out, e.name.as_str());
    push_str(out, ",\"description\":");
    push_string(out, e.description.as_str());
    push_str(out, ",\"start_time\":");
    push_i64(out, e.start_time);
    push_str(out, ",\"end_time\":");
    push_i64(out, e.end_time);
    push_str(out, ",\"recurrence\":");
    push_recurrence(out, e.recurrence);
    push_str(out, ",\"status\":");
    push_status(out, e.status);
    push_str(out, ",\"created_at\":");
    push_i64(out, e.created_at);
    push_str(out, ",\"updated_at\":");
    push_i64(out, e.updated_at);
    push_str(out, ",\"error_message\":");
    push_opt_string(out, &e.error_message);
    push_str(out, "}");
    proof {
        assert(out@ =~= old(out)@ + enc_menu_schedule(e.deep_view()));
    }
}

/// Parses one menu schedule at `pos`.
#[verifier::opaque]
pub open spec fn sp_parse_menu_schedule(s: Seq<char>, pos: int) -> Option<(MenuScheduleV, int)> {
        match sp_expect(s, pos, "{\"id\":"@) { Some(p0) => {
        match sp_parse_u128(s, p0) { Some((x_id, p1)) => {
        match sp_expect(s, p1, ",\"preset_id\":"@) { Some(p2) => {
        match sp_parse_u128(s, p2) { Some((x_preset_id, p3)) => {
        match sp_expect(s, p3, ",\"name\":"@) { Some(p4) => {
        match sp_parse_string(s, p4) { Some((x_name, p5)) => {
        match sp_expect(s, p5, ",\"description\":"@) { Some(p6) => {
        match sp_parse_string(s, p6) { Some((x_description, p7)) => {
        match sp_expect(s, p7, ",\"start_time\":"@) { Some(p8) => {
        match sp_parse_i64(s, p8) { Some((x_start_time, p9)) => {
        match sp_expect(s, p9, ",\"end_time\":"@) { Some(p10) => {
        match sp_parse_i64(s, p10) { Some((x_end_time, p11)) => {
        match sp_expect(s, p11, ",\"recurrence\":"@) { Some(p12) => {
        match sp_parse_recurrence(s, p12) { Some((x_recurrence, p13)) => {
        match sp_expect(s, p13, ",\"status\":"@) { Some(p14) => {
        match sp_parse_status(s, p14) { Some((x_status, p15)) => {
        match sp_expect(s, p15, ",\"created_at\":"@) { Some(p16) => {
        match sp_parse_i64(s, p16) { Some((x_created_at, p17)) => {
        match sp_expect(s, p17, ",\"updated_at\":"@) { Some(p18) => {
        match sp_parse_i64(s, p18) { Some((x_updated_at, p19)) => {
        match sp_expect(s, p19, ",\"error_message\":"@) { Some(p20) => {
        match sp_parse_opt_string(s, p20) { Some((x_error_message, p21)) => {
        match sp_expect(s, p21, "}"@) { Some(p22) => {
        Some((MenuScheduleV { id: x_id, preset_id: x_preset_id, name: x_name, description: x_description, start_time: x_start_time, end_time: x_end_time, recurrence: x_recurrence, status: x_status, created_at: x_created_at, updated_at: x_updated_at, error_message: x_error_message }, p22))
        }, None => None }
        }, None => None }
        }, None => None }
        }, None => None }
        }, None => None }
        }, None => None }
        }, None => None }
        }, None => None }
        }, None => None }
        }, None => None }
        }, None => None }
        }, None => None }
        }, None => None }
        }, None => None }
        }, None => None }
        }, None => None }
        }, None => None }
        }, None => None }
        }, None => None }
        }, None => None }
        }, None => None }
        }, None => None }
        }, None => None }
}

/// Parses one menu schedule at `pos`.
#[verifier::loop_isolation(false)]
pub fn parse_menu_schedule(s: &Vec<char>, pos: usize) -> (r: Option<(MenuSchedule, usize)>)
    requires
        pos <= s@.len(),
    ensures
        match r {
            Some(p) => sp_parse_menu_schedule(s@, pos as int) == Some((p.0.deep_view(), p.1 as int))
                && pos < p.1 <= s@.len(),
            None => sp_parse_menu_schedule(s@, pos as int) is None,
        },
{
    proof {
        reveal(sp_parse_menu_schedule);
    }
    let p = match expect_lit(s, pos, "{\"id\":") {
        Some(p) => p,
        None => {
            return None;
        },
    };
    let (x_id, p) = match parse_u128(s, p) {
        Some(x) => x,
        None => {
            return None;
        },
    };
    let p = match expect_lit(s, p, ",\"preset_id\":") {
        Some(p) => p,
        None => {
            return None;
        },
    };
    let (x_preset_id, p) = match parse_u128(s, p) {
        Some(x) => x,
        None => {
            return None;
        },
    };
    let p = match expect_lit(s, p, ",\"name\":") {
        Some(p) => p,
        None => {
            return None;
        },
    };
    let (x_name, p) = match parse_string(s, p) {
        Some(x) => x,
        None => {
            return None;
        },
    };
    let p = match expect_lit(s, p, ",\"description\":") {
        Some(p) => p,
        None => {
            return None;
        },
    };
    let (x_description, p) = match parse_string(s, p) {
        Some(x) => x,
        None => {
            return None;
        },
    };
    let p = match expect_lit(s, p, ",\"start_time\":") {
        Some(p) => p,
        None => {
            return None;
        },
    };
    let (x_start_time, p) = match parse_i64(s, p) {
        Some(x) => x,
        None => {
            return None;
        },
    };
    let p = match expect_lit(s, p, ",\"end_time\":") {
        Some(p) => p,
        None => {
            return None;
        },
    };
    let (x_end_time, p) = match parse_i64(s, p) {
        Some(x) => x,
        None => {
            return None;
        },
    };
    let p = match expect_lit(s, p, ",\"recurrence\":") {
        Some(p) => p,
        None => {
            return None;
        },
    };
    let (x_recurrence, p) = match parse_recurrence(s, p) {
        Some(x) => x,
        None => {
            return None;
        },
    };
    let p = match expect_lit(s, p, ",\"status\":") {
        Some(p) => p,
        None => {
            return None;
        },
    };
    let (x_status, p) = match parse_status(s, p) {
        Some(x) => x,
        None => {
            return None;
        },
    };
    let p = match expect_lit(s, p, ",\"created_at\":") {
        Some(p) => p,
        None => {
            return None;
        },
    };
    let (x_created_at, p) = match parse_i64(s, p) {
        Some(x) => x,
        None => {
            return None;
        },
    };
    let p = match expect_lit(s, p, ",\"updated_at\":") {
        Some(p) => p,
        None => {
            return None;
        },
    };
    let (x_updated_at, p) = match parse_i64(s, p) {
        Some(x) => x,
        None => {
            return None;
        },
    };
    let p = match expect_lit(s, p, ",\"error_message\":") {
        Some(p) => p,
        None => {
            return None;
        },
    };
    let (x_error_message, p) = match parse_opt_string(s, p) {
        Some(x) => x,
        None => {
            return None;
        },
    };
    let p = match expect_lit(s, p, "}") {
        Some(p) => p,
        None => {
            return None;
        },
    };
    Some((
        MenuSchedule {
        id: x_id,
        preset_id: x_preset_id,
        name: chars_to_string(&x_name),
        description: chars_to_string(&x_description),
        start_time: x_start_time,
        end_time: x_end_time,
        recurrence: x_recurrence,
        status: x_status,
        created_at: x_created_at,
        updated_at: x_updated_at,
        error_message: match &x_error_message {
            Some(cs) => Some(chars_to_string(cs)),
            None => None,
        }
        },
        p,
    ))
}

/// One menu schedule's canonical text parses back to the value.
#[verifier::rlimit(100)]
#[verifier::spinoff_prover]
pub proof fn lemma_parse_menu_schedule_inverts(pre: Seq<char>, v: MenuScheduleV, rest: Seq<char>)
    ensures
        sp_parse_menu_schedule(pre + enc_menu_schedule(v) + rest, pre.len() as int) == Some(
            (v, (pre.len() + enc_menu_schedule(v).len()) as int),
        ),
{
    reveal(sp_parse_menu_schedule);
    reveal_strlit(",\"created_at\":");
    reveal_strlit(",\"description\":");
    reveal_strlit(",\"end_time\":");
    reveal_strlit(",\"error_message\":");
    reveal_strlit(",\"name\":");
    reveal_strlit(",\"preset_id\":");
    reveal_strlit(",\"recurrence\":");
    reveal_strlit(",\"start_time\":");
    reveal_strlit(",\"status\":");
    reveal_strlit(",\"updated_at\":");
    reveal_strlit("{\"id\":");
    reveal_strlit("}");
    let s = pre + enc_menu_schedule(v) + rest;
    let w0 = "{\"id\":"@;
    let w1 = dec_digits(v.id);
    let w2 = ",\"preset_id\":"@;
    let w3 = dec_digits(v.preset_id);
    let w4 = ",\"name\":"@;
    let w5 = enc_string(v.name);
    let w6 = ",\"description\":"@;
    let w7 = enc_string(v.description);
    let w8 = ",\"start_time\":"@;
    let w9 = dec_digits_i64(v.start_time);
    let w10 = ",\"end_time\":"@;
    let w11 = dec_digits_i64(v.end_time);
    let w12 = ",\"recurrence\":"@;
    let w13 = enc_recurrence(v.recurrence);
    let w14 = ",\"status\":"@;
    let w15 = enc_status(v.status);
    let w16 = ",\"created_at\":"@;
    let w17 = dec_digits_i64(v.created_at);
    let w18 = ",\"updated_at\":"@;
    let w19 = dec_digits_i64(v.updated_at);
    let w20 = ",\"error_message\":"@;
    let w21 = enc_opt_string(v.error_message);
    let w22 = "}"@;
    let t23 = rest;
    let t22 = w22 + t23;
    let t21 = w21 + t22;
    let t20 = w20 + t21;
    let t19 = w19 + t20;
    let t18 = w18 + t19;
    let t17 = w17 + t18;
    let t16 = w16 + t17;
    let t15 = w15 + t16;
    let t14 = w14 + t15;
    let t13 = w13 + t14;
    let t12 = w12 + t13;
    let t11 = w11 + t12;
    let t10 = w10 + t11;
    let t9 = w9 + t10;
    let t8 = w8 + t9;
    let t7 = w7 + t8;
    let t6 = w6 + t7;
    let t5 = w5 + t6;
    let t4 = w4 + t5;
    let t3 = w3 + t4;
    let t2 = w2 + t3;
    let t1 = w1 + t2;
    let t0 = w0 + t1;
    let b0 = w0;
    let b1 = b0 + w1;
    let b2 = b1 + w2;
    let b3 = b2 + w3;
    let b4 = b3 + w4;
    let b5 = b4 + w5;
    let b6 = b5 + w6;
    let b7 = b6 + w7;
    let b8 = b7 + w8;
    let b9 = b8 + w9;
    let b10 = b9 + w10;
    let b11 = b10 + w11;
    let b12 = b11 + w12;
    let b13 = b12 + w13;
    let b14 = b13 + w14;
    let b15 = b14 + w15;
    let b16 = b15 + w16;
    let b17 = b16 + w17;
    let b18 = b17 + w18;
    let b19 = b18 + w19;
    let b20 = b19 + w20;
    let b21 = b20 + w21;
    let b22 = b21 + w22;
    assert(enc_menu_schedule(v) == b22);
    assert(s == (pre + b22) + t23);
    vstd::seq_lib::lemma_concat_associative(pre, b21, w22);
    vstd::seq_lib::lemma_concat_associative(pre + b21, w22, t23);
    assert((pre + b22) + t23 == (pre + b21) + t22);
    vstd::seq_lib::lemma_concat_associative(pre, b20, w21);
    vstd::seq_lib::lemma_concat_associative(pre + b20, w21, t22);
    assert((pre + b21) + t22 == (pre + b20) + t21);
    vstd::seq_lib::lemma_concat_associative(pre, b19, w20);
    vstd::seq_lib::lemma_concat_associative(pre + b19, w20, t21);
    assert((pre + b20) + t21 == (pre + b19) + t20);
    vstd::seq_lib::lemma_concat_associative(pre, b18, w19);
    vstd::seq_lib::lemma_concat_associative(pre + b18, w19, t20);
    assert((pre + b19) + t20 == (pre + b18) + t19);
    vstd::seq_lib::lemma_concat_associative(pre, b17, w18);
    vstd::seq_lib::lemma_concat_associative(pre + b17, w18, t19);
    assert((pre + b18) + t19 == (pre + b17) + t18);
    vstd::seq_lib::lemma_concat_associative(pre, b16, w17);
    vstd::seq_lib::lemma_concat_associative(pre + b16, w17, t18);
    assert((pre + b17) + t18 == (pre + b16) + t17);
    vstd::seq_lib::lemma_concat_associative(pre, b15, w16);
    vstd::seq_lib::lemma_concat_associative(pre + b15, w16, t17);
    assert((pre + b16) + t17 == (pre + b15) + t16);
    vstd::seq_lib::lemma_concat_associative(pre, b14, w15);
    vstd::seq_lib::lemma_concat_associative(pre + b14, w15, t16);
    assert((pre + b15) + t16 == (pre + b14) + t15);
    vstd::seq_lib::lemma_concat_associative(pre, b13, w14);
    vstd::seq_lib::lemma_concat_associative(pre + b13, w14, t15);
    assert((pre + b14) + t15 == (pre + b13) + t14);
    vstd::seq_lib::lemma_concat_associative(pre, b12, w13);
    vstd::seq_lib::lemma_concat_associative(pre + b12, w13, t14);
    assert((pre + b13) + t14 == (pre + b12) + t13);
    vstd::seq_lib::lemma_concat_associative(pre, b11, w12);
    vstd::seq_lib::lemma_concat_associative(pre + b11, w12, t13);
    assert((pre + b12) + t13 == (pre + b11) + t12);
    vstd::seq_lib::lemma_concat_associative(pre, b10, w11);
    vstd::seq_lib::lemma_concat_associative(pre + b10, w11, t12);
    assert((pre + b11) + t12 == (pre + b10) + t11);
    vstd::seq_lib::lemma_concat_associative(pre, b9, w10);
    vstd::seq_lib::lemma_concat_associative(pre + b9, w10, t11);
    assert((pre + b10) + t11 == (pre + b9) + t10);
    vstd::seq_lib::lemma_concat_associative(pre, b8, w9);
    vstd::seq_lib::lemma_concat_associative(pre + b8, w9, t10);
    assert((pre + b9) + t10 == (pre + b8) + t9);
    vstd::seq_lib::lemma_concat_associative(pre, b7, w8);
    vstd::seq_lib::lemma_concat_associative(pre + b7, w8, t9);
    assert((pre + b8) + t9 == (pre + b7) + t8);
    vstd::seq_lib::lemma_concat_associative(pre, b6, w7);
    vstd::seq_lib::lemma_concat_associative(pre + b6, w7, t8);
    assert((pre + b7) + t8 == (pre + b6) + t7);
    vstd::seq_lib::lemma_concat_associative(pre, b5, w6);
    vstd::seq_lib::lemma_concat_associative(pre + b5, w6, t7);
    assert((pre + b6) + t7 == (pre + b5) + t6);
    vstd::seq_lib::lemma_concat_associative(pre, b4, w5);
    vstd::seq_lib::lemma_concat_associative(pre + b4, w5, t6);
    assert((pre + b5) + t6 == (pre + b4) + t5);
    vstd::seq_lib::lemma_concat_associative(pre, b3, w4);
    vstd::seq_lib::lemma_concat_associative(pre + b3, w4, t5);
    assert((pre + b4) + t5 == (pre + b3) + t4);
    vstd::seq_lib::lemma_concat_associative(pre, b2, w3);
    vstd::seq_lib::lemma_concat_associative(pre + b2, w3, t4);
    assert((pre + b3) + t4 == (pre + b2) + t3);
    vstd::seq_lib::lemma_concat_associative(pre, b1, w2);
    vstd::seq_lib::lemma_concat_associative(pre + b1, w2, t3);
    assert((pre + b2) + t3 == (pre + b1) + t2);
    vstd::seq_lib::lemma_concat_associative(pre, b0, w1);
    vstd::seq_lib::lemma_concat_associative(pre + b0, w1, t2);
    assert((pre + b1) + t2 == (pre + b0) + t1);
    let q0 = pre;
    vstd::seq_lib::lemma_concat_associative(pre, w0, t1);
    assert(s == (q0 + w0) + t1);
    lemma_expect_inverts(q0, "{\"id\":"@, t1);
    let q1 = q0 + w0;
    assert(q1 == pre + b0);
    vstd::seq_lib::lemma_concat_associative(q1, w1, t2);
    vstd::seq_lib::lemma_concat_associative(pre, b0, w1);
    assert(q1 + w1 == pre + b1);
    assert(s == (q1 + w1) + t2);
    assert(!is_dec_digit(t2[0])) by {
        assert(t2[0] == ",\"preset_id\":"@[0]);
    }
    lemma_parse_u128_inverts(q1, v.id, t2);
    let q2 = q1 + w1;
    vstd::seq_lib::lemma_concat_associative(pre, b0, w1);
    assert(q2 == pre + b1);
    vstd::seq_lib::lemma_concat_associative(q2, w2, t3);
    vstd::seq_lib::lemma_concat_associative(pre, b1, w2);
    assert(q2 + w2 == pre + b2);
    assert(s == (q2 + w2) + t3);
    lemma_expect_inverts(q2, ",\"preset_id\":"@, t3);
    let q3 = q2 + w2;
    vstd::seq_lib::lemma_concat_associative(pre, b1, w2);
    assert(q3 == pre + b2);
    vstd::seq_lib::lemma_concat_associative(q3, w3, t4);
    vstd::seq_lib::lemma_concat_associative(pre, b2, w3);
    assert(q3 + w3 == pre + b3);
    assert(s == (q3 + w3) + t4);
    assert(!is_dec_digit(t4[0])) by {
        assert(t4[0] == ",\"name\":"@[0]);
    }
    lemma_parse_u128_inverts(q3, v.preset_id, t4);
    let q4 = q3 + w3;
    vstd::seq_lib::lemma_concat_associative(pre, b2, w3);
    assert(q4 == pre + b3);
    vstd::seq_lib::lemma_concat_associative(q4, w4, t5);
    vstd::seq_lib::lemma_concat_associative(pre, b3, w4);
    assert(q4 + w4 == pre + b4);
    assert(s == (q4 + w4) + t5);
    lemma_expect_inverts(q4, ",\"name\":"@, t5);
    let q5 = q4 + w4;
    vstd::seq_lib::lemma_concat_associative(pre, b3, w4);
    assert(q5 == pre + b4);
    vstd::seq_lib::lemma_concat_associative(q5, w5, t6);
    vstd::seq_lib::lemma_concat_associative(pre, b4, w5);
    assert(q5 + w5 == pre + b5);
    assert(s == (q5 + w5) + t6);
    lemma_parse_string_inverts(q5, v.name, t6);
    let q6 = q5 + w5;
    vstd::seq_lib::lemma_concat_associative(pre, b4, w5);
    assert(q6 == pre + b5);
    vstd::seq_lib::lemma_concat_associative(q6, w6, t7);
    vstd::seq_lib::lemma_concat_associative(pre, b5, w6);
    assert(q6 + w6 == pre + b6);
    assert(s == (q6 + w6) + t7);
    lemma_expect_inverts(q6, ",\"description\":"@, t7);
    let q7 = q6 + w6;
    vstd::seq_lib::lemma_concat_associative(pre, b5, w6);
    assert(q7 == pre + b6);
    vstd::seq_lib::lemma_concat_associative(q7, w7, t8);
    vstd::seq_lib::lemma_concat_associative(pre, b6, w7);
    assert(q7 + w7 == pre + b7);
    assert(s == (q7 + w7) + t8);
    lemma_parse_string_inverts(q7, v.description, t8);
    let q8 = q7 + w7;
    vstd::seq_lib::lemma_concat_associative(pre, b6, w7);
    assert(q8 == pre + b7);
    vstd::seq_lib::lemma_concat_associative(q8, w8, t9);
    vstd::seq_lib::lemma_concat_associative(pre, b7, w8);
    assert(q8 + w8 == pre + b8);
    assert(s == (q8 + w8) + t9);
    lemma_expect_inverts(q8, ",\"start_time\":"@, t9);
    let q9 = q8 + w8;
    vstd::seq_lib::lemma_concat_associative(pre, b7, w8);
    assert(q9 == pre + b8);
    vstd::seq_lib::lemma_concat_associative(q9, w9, t10);
    vstd::seq_lib::lemma_concat_associative(pre, b8, w9);
    assert(q9 + w9 == pre + b9);
    assert(s == (q9 + w9) + t10);
    assert(!is_dec_digit(t10[0])) by {
        assert(t10[0] == ",\"end_time\":"@[0]);
    }
    lemma_parse_i64_inverts(q9, v.start_time, t10);
    let q10 = q9 + w9;
    vstd::seq_lib::lemma_concat_associative(pre, b8, w9);
    assert(q10 == pre + b9);
    vstd::seq_lib::lemma_concat_associative(q10, w10, t11);
    vstd::seq_lib::lemma_concat_associative(pre, b9, w10);
    assert(q10 + w10 == pre + b10);
    assert(s == (q10 + w10) + t11);
    lemma_expect_inverts(q10, ",\"end_time\":"@, t11);
    let q11 = q10 + w10;
    vstd::seq_lib::lemma_concat_associative(pre, b9, w10);
    assert(q11 == pre + b10);
    vstd::seq_lib::lemma_concat_associative(q11, w11, t12);
    vstd::seq_lib::lemma_concat_associative(pre, b10, w11);
    assert(q11 + w11 == pre + b11);
    assert(s == (q11 + w11) + t12);
    assert(!is_dec_digit(t12[0])) by {
        assert(t12[0] == ",\"recurrence\":"@[0]);
    }
    lemma_parse_i64_inverts(q11, v.end_time, t12);
    let q12 = q11 + w11;
    vstd::seq_lib::lemma_concat_associative(pre, b10, w11);
    assert(q12 == pre + b11);
    vstd::seq_lib::lemma_concat_associative(q12, w12, t13);
    vstd::seq_lib::lemma_concat_associative(pre, b11, w12);
    assert(q12 + w12 == pre + b12);
    assert(s == (q12 + w12) + t13);
    lemma_expect_inverts(q12, ",\"recurrence\":"@, t13);
    let q13 = q12 + w12;
    vstd::seq_lib::lemma_concat_associative(pre, b11, w12);
    assert(q13 == pre + b12);
    vstd::seq_lib::lemma_concat_associative(q13, w13, t14);
    vstd::seq_lib::lemma_concat_associative(pre, b12, w13);
    assert(q13 + w13 == pre + b13);
    assert(s == (q13 + w13) + t14);
    lemma_parse_recurrence_inverts(q13, v.recurrence, t14);
    let q14 = q13 + w13;
    vstd::seq_lib::lemma_concat_associative(pre, b12, w13);
    assert(q14 == pre + b13);
    vstd::seq_lib::lemma_concat_associative(q14, w14, t15);
    vstd::seq_lib::lemma_concat_associative(pre, b13, w14);
    assert(q14 + w14 == pre + b14);
    assert(s == (q14 + w14) + t15);
    lemma_expect_inverts(q14, ",\"status\":"@, t15);
    let q15 = q14 + w14;
    vstd::seq_lib::lemma_concat_associative(pre, b13, w14);
    assert(q15 == pre + b14);
    vstd::seq_lib::lemma_concat_associative(q15, w15, t16);
    vstd::seq_lib::lemma_concat_associative(pre, b14, w15);
    assert(q15 + w15 == pre + b15);
    assert(s == (q15 + w15) + t16);
    lemma_parse_status_inverts(q15, v.status, t16);
    let q16 = q15 + w15;
    vstd::seq_lib::lemma_concat_associative(pre, b14, w15);
    assert(q16 == pre + b15);
    vstd::seq_lib::lemma_concat_associative(q16, w16, t17);
    vstd::seq_lib::lemma_concat_associative(pre, b15, w16);
    assert(q16 + w16 == pre + b16);
    assert(s == (q16 + w16) + t17);
    lemma_expect_inverts(q16, ",\"created_at\":"@, t17);
    let q17 = q16 + w16;
    vstd::seq_lib::lemma_concat_associative(pre, b15, w16);
    assert(q17 == pre + b16);
    vstd::seq_lib::lemma_concat_associative(q17, w17, t18);
    vstd::seq_lib::lemma_concat_associative(pre, b16, w17);
    assert(q17 + w17 == pre + b17);
    assert(s == (q17 + w17) + t18);
    assert(!is_dec_digit(t18[0])) by {
        assert(t18[0] == ",\"updated_at\":"@[0]);
    }
    lemma_parse_i64_inverts(q17, v.created_at, t18);
    let q18 = q17 + w17;
    vstd::seq_lib::lemma_concat_associative(pre, b16, w17);
    assert(q18 == pre + b17);
    vstd::seq_lib::lemma_concat_associative(q18, w18, t19);
    vstd::seq_lib::lemma_concat_associative(pre, b17, w18);
    assert(q18 + w18 == pre + b18);
    assert(s == (q18 + w18) + t19);
    lemma_expect_inverts(q18, ",\"updated_at\":"@, t19);
    let q19 = q18 + w18;
    vstd::seq_lib::lemma_concat_associative(pre, b17, w18);
    assert(q19 == pre + b18);
    vstd::seq_lib::lemma_concat_associative(q19, w19, t20);
    vstd::seq_lib::lemma_concat_associative(pre, b18, w19);
    assert(q19 + w19 == pre + b19);
    assert(s == (q19 + w19) + t20);
    assert(!is_dec_digit(t20[0])) by {
        assert(t20[0] == ",\"error_message\":"@[0]);
    }
    lemma_parse_i64_inverts(q19, v.updated_at, t20);
    let q20 = q19 + w19;
    vstd::seq_lib::lemma_concat_associative(pre, b18, w19);
    assert(q20 == pre + b19);
    vstd::seq_lib::lemma_concat_associative(q20, w20, t21);
    vstd::seq_lib::lemma_concat_associative(pre, b19, w20);
    assert(q20 + w20 == pre + b20);
    assert(s == (q20 + w20) + t21);
    lemma_expect_inverts(q20, ",\"error_message\":"@, t21);
    let q21 = q20 + w20;
    vstd::seq_lib::lemma_concat_associative(pre, b19, w20);
    assert(q21 == pre + b20);
    vstd::seq_lib::lemma_concat_associative(q21, w21, t22);
    vstd::seq_lib::lemma_concat_associative(pre, b20, w21);
    assert(q21 + w21 == pre + b21);
    assert(s == (q21 + w21) + t22);
    lemma_parse_opt_string_inverts(q21, v.error_message, t22);
    let q22 = q21 + w21;
    vstd::seq_lib::lemma_concat_associative(pre, b20, w21);
    assert(q22 == pre + b21);
    vstd::seq_lib::lemma_concat_associative(q22, w22, t23);
    vstd::seq_lib::lemma_concat_associative(pre, b21, w22);
    assert(q22 + w22 == pre + b22);
    assert(s == (q22 + w22) + t23);
    lemma_expect_inverts(q22, "}"@, t23);
    assert(v == MenuScheduleV { id: v.id, preset_id: v.preset_id, name: v.name, description: v.description, start_time: v.start_time, end_time: v.end_time, recurrence: v.recurrence, status: v.status, created_at: v.created_at, updated_at: v.updated_at, error_message: v.error_message });
}

// ---------------------------------------------------------------------------
// Collections and snapshot documents
// ---------------------------------------------------------------------------

/// The characters of a text slice.
pub fn str_to_chars(s: &str) -> (r: Vec<char>)
    ensures
        r@ == s@,
{
    let n = s.unicode_len();
    let mut r: Vec<char> = Vec::new();
    let mut k: usize = 0;
    while k < n
        invariant
            k <= n,
            n == s@.len(),
            r@ =~= s@.take(k as int),
        decreases n - k,
    {
        r.push(s.get_char(k));
        proof {
            assert(r@ =~= s@.take(k + 1));
        }
        k = k + 1;
    }
    proof {
        assert(s@.take(n as int) =~= s@);
    }
    r
}

/// The elements after the first in a menu items collection.
pub open spec fn enc_menu_items_rest(a: Seq<MenuItemV>) -> Seq<char>
    decreases a.len(),
{
    if a.len() == 0 {
        Seq::empty()
    } else {
        seq![','] + enc_menu_item(a[0]) + enc_menu_items_rest(a.drop_first())
    }
}

/// A whole menu items collection as one array document.
pub open spec fn enc_menu_items(a: Seq<MenuItemV>) -> Seq<char> {
    if a.len() == 0 {
        seq!['[', ']']
    } else {
        seq!['['] + enc_menu_item(a[0]) + enc_menu_items_rest(a.drop_first()) + seq![']']
    }
}

/// Parses menu items elements from the first element on.
pub open spec fn sp_menu_items_elems(s: Seq<char>, pos: int) -> Option<(Seq<MenuItemV>, int)>
    decreases s.len() - pos,
{
    match sp_parse_menu_item(s, pos) {
        Some((v, e)) => if pos < e < s.len() {
            if s[e] == ']' {
                Some((seq![v], e + 1))
            } else if s[e] == ',' {
                match sp_menu_items_elems(s, e + 1) {
                    Some((vs, e2)) => Some((seq![v] + vs, e2)),
                    None => None,
                }
            } else {
                None
            }
        } else {
            None
        },
        None => None,
    }
}

/// Parses a menu items array at `pos`.
pub open spec fn sp_parse_menu_items(s: Seq<char>, pos: int) -> Option<(Seq<MenuItemV>, int)> {
    if 0 <= pos && pos + 1 < s.len() && s[pos] == '[' {
        if s[pos + 1] == ']' {
            Some((Seq::empty(), pos + 2))
        } else {
            sp_menu_items_elems(s, pos + 1)
        }
    } else {
        None
    }
}

/// A whole menu items snapshot document.
pub open spec fn sp_doc_menu_items(s: Seq<char>) -> Option<Seq<MenuItemV>> {
    match sp_parse_menu_items(s, 0) {
        Some((v, e)) => if e == s.len() {
            Some(v)
        } else {
            None
        },
        None => None,
    }
}

/// The canonical document of a menu items collection.
pub fn encode_menu_items(a: &Vec<MenuItem>) -> (r: String)
    ensures
        r@ == enc_menu_items(a.deep_view()),
{
    let ghost av = a.deep_view();
    let mut out: Vec<char> = Vec::new();
    out.push('[');
    if a.len() == 0 {
        out.push(']');
        proof {
            assert(out@ =~= enc_menu_items(av));
        }
        return chars_to_string(&out);
    }
    push_menu_item(&mut out, &a[0]);
    let mut i: usize = 1;
    while i < a.len()
        invariant
            1 <= i <= a.len(),
            av == a.deep_view(),
            av.len() == a.len(),
            out@ =~= seq!['['] + enc_menu_item(av[0]) + enc_menu_items_upto(av, i as int),
        decreases a.len() - i,
    {
        out.push(',');
        push_menu_item(&mut out, &a[i]);
        proof {
            assert(out@ =~= seq!['['] + enc_menu_item(av[0]) + enc_menu_items_upto(av, i + 1));
        }
        i = i + 1;
    }
    out.push(']');
    proof {
        lemma_enc_menu_items_full(av);
        assert(out@ =~= enc_menu_items(av));
    }
    chars_to_string(&out)
}

/// The encoded comma-led menu items with indices in `[1, i)`.
pub open spec fn enc_menu_items_upto(a: Seq<MenuItemV>, i: int) -> Seq<char>
    decreases i,
{
    if i <= 1 {
        Seq::empty()
    } else {
        enc_menu_items_upto(a, i - 1) + seq![','] + enc_menu_item(a[i - 1])
    }
}

/// The comma-led menu items from index `k` to the end, front-recursive.
pub open spec fn enc_menu_items_from(a: Seq<MenuItemV>, k: int) -> Seq<char>
    decreases a.len() - k,
{
    if k < 1 || k >= a.len() {
        Seq::empty()
    } else {
        seq![','] + enc_menu_item(a[k]) + enc_menu_items_from(a, k + 1)
    }
}

proof fn lemma_enc_menu_items_upto_eq_from(a: Seq<MenuItemV>, i: int)
    requires
        1 <= i <= a.len(),
    ensures
        enc_menu_items_upto(a, a.len() as int) =~= enc_menu_items_upto(a, i) + enc_menu_items_from(a, i),
    decreases a.len() - i,
{
    if i == a.len() {
    } else {
        lemma_enc_menu_items_upto_eq_from(a, i + 1);
    }
}

proof fn lemma_enc_menu_items_shift(a: Seq<MenuItemV>, k: int)
    requires
        1 <= k <= a.len(),
    ensures
        enc_menu_items_rest(a.skip(k)) =~= enc_menu_items_from(a, k),
    decreases a.len() - k,
{
    if k == a.len() {
        assert(a.skip(k).len() == 0);
    } else {
        lemma_enc_menu_items_shift(a, k + 1);
        assert(a.skip(k)[0] == a[k]);
        assert(a.skip(k).drop_first() =~= a.skip(k + 1));
    }
}

proof fn lemma_enc_menu_items_full(a: Seq<MenuItemV>)
    requires
        a.len() >= 1,
    ensures
        enc_menu_items_upto(a, a.len() as int) =~= enc_menu_items_rest(a.drop_first()),
{
    lemma_enc_menu_items_upto_eq_from(a, 1);
    lemma_enc_menu_items_shift(a, 1);
    assert(a.drop_first() =~= a.skip(1));
}

/// Parses a whole menu items snapshot document.
#[verifier::loop_isolation(false)]
pub fn decode_menu_items(text: &str) -> (r: Option<Vec<MenuItem>>)
    ensures
        match r {
            Some(v) => sp_doc_menu_items(text@) == Some(v.deep_view()),
            None => sp_doc_menu_items(text@) is None,
        },
{
    let s = str_to_chars(text);
    let total = s.len();
    if total < 2 || s[0] != '[' {
        return None;
    }
    if s[1] == ']' {
        if total == 2 {
            let out: Vec<MenuItem> = Vec::new();
            proof {
                assert(out.deep_view() =~= Seq::<MenuItemV>::empty());
            }
            return Some(out);
        }
        return None;
    }
    let mut out: Vec<MenuItem> = Vec::new();
    let mut p: usize = 1;
    loop
        invariant
            1 <= p <= total,
            total == s@.len(),
            s@ == text@,
            match sp_menu_items_elems(s@, p as int) {
                Some(te) => sp_menu_items_elems(s@, 1) == Some::<(Seq<MenuItemV>, int)>(
                    (out.deep_view() + te.0, te.1),
                ),
                None => sp_menu_items_elems(s@, 1) is None,
            },
        decreases total - p,
    {
        match parse_menu_item(&s, p) {
            None => {
                return None;
            },
            Some((entity, e)) => {
                if e >= total {
                    return None;
                }
                let c = s[e];
                if c == ']' {
                    let ghost pre_out = out.deep_view();
                    let ghost ev = entity.deep_view();
                    out.push(entity);
                    proof {
                        assert(out.deep_view() =~= pre_out.push(ev));
                        assert(pre_out + seq![ev] =~= pre_out.push(ev));
                    }
                    if e + 1 == total {
                        return Some(out);
                    }
                    return None;
                } else if c == ',' {
                    let ghost pre_out = out.deep_view();
                    let ghost ev = entity.deep_view();
                    out.push(entity);
                    proof {
                        assert(out.deep_view() =~= pre_out.push(ev));
                        match sp_menu_items_elems(s@, e + 1) {
                            Some(te) => {
                                assert(pre_out + (seq![ev] + te.0) =~= pre_out.push(ev) + te.0);
                            },
                            None => {},
                        }
                    }
                    p = e + 1;
                } else {
                    return None;
                }
            },
        }
    }
}

/// menu items elements placed at `pos` parse back to themselves.
#[verifier::rlimit(100)]
#[verifier::spinoff_prover]
proof fn lemma_menu_items_elems_inverts(pre: Seq<char>, a: Seq<MenuItemV>, rest: Seq<char>)
    requires
        a.len() >= 1,
    ensures
        ({
            let body = enc_menu_item(a[0]) + enc_menu_items_rest(a.drop_first()) + seq![']'];
            sp_menu_items_elems(pre + body + rest, pre.len() as int) == Some(
                (a, (pre.len() + body.len()) as int),
            )
        }),
    decreases a.len(),
{
    let w0 = enc_menu_item(a[0]);
    let tail = a.drop_first();
    let wr = enc_menu_items_rest(tail);
    let br = seq![']'];
    let body = w0 + wr + br;
    let s = pre + body + rest;
    let p = pre.len() as int;
    vstd::seq_lib::lemma_concat_associative(w0, wr, br);
    vstd::seq_lib::lemma_concat_associative(pre, w0, wr + br);
    assert(pre + body == (pre + w0) + (wr + br));
    vstd::seq_lib::lemma_concat_associative(pre + w0, wr + br, rest);
    let r1 = (wr + br) + rest;
    assert(s == (pre + w0) + r1);
    if tail.len() == 0 {
        assert(wr.len() == 0);
        assert(wr + br =~= br);
        assert(r1 == br + rest);
        lemma_parse_menu_item_inverts(pre, a[0], r1);
        let e = p + w0.len();
        assert(s[e] == ']') by {
            assert(r1[0] == br[0]);
        }
        assert(seq![a[0]] =~= a);
    } else {
        let w1 = enc_menu_item(tail[0]);
        let wr2 = enc_menu_items_rest(tail.drop_first());
        let cm = seq![','];
        assert(wr == cm + w1 + wr2);
        let body2 = w1 + wr2 + br;
        assert(wr + br == cm + body2) by {
            vstd::seq_lib::lemma_concat_associative(cm + w1, wr2, br);
            vstd::seq_lib::lemma_concat_associative(cm, w1, wr2 + br);
            vstd::seq_lib::lemma_concat_associative(w1, wr2, br);
        }
        vstd::seq_lib::lemma_concat_associative(cm, body2, rest);
        assert(r1 == (cm + body2) + rest);
        assert(r1 == cm + (body2 + rest));
        lemma_parse_menu_item_inverts(pre, a[0], r1);
        let e = p + w0.len();
        assert(s[e] == ',') by {
            assert(r1[0] == cm[0]);
        }
        let pre2 = (pre + w0) + cm;
        vstd::seq_lib::lemma_concat_associative(pre + w0, cm, body2 + rest);
        assert(s == pre2 + (body2 + rest));
        vstd::seq_lib::lemma_concat_associative(pre2, body2, rest);
        assert(s == (pre2 + body2) + rest);
        lemma_menu_items_elems_inverts(pre2, tail, rest);
        assert(seq![a[0]] + tail =~= a);
    }
}

/// Writing a menu items collection and reloading it reproduces the collection.
#[verifier::rlimit(100)]
#[verifier::spinoff_prover]
pub proof fn lemma_menu_items_round_trip(a: Seq<MenuItemV>)
    ensures
        sp_doc_menu_items(enc_menu_items(a)) == Some(a),
{
    let s = enc_menu_items(a);
    if a.len() == 0 {
        assert(s[0] == '[' && s[1] == ']');
        assert(Seq::<MenuItemV>::empty() =~= a);
    } else {
        reveal_strlit("{\"id\":");
        let pre2 = seq!['['];
        let w0 = enc_menu_item(a[0]);
        let wr = enc_menu_items_rest(a.drop_first());
        let br = seq![']'];
        let body = w0 + wr + br;
        assert(s == ((pre2 + w0) + wr) + br);
        vstd::seq_lib::lemma_concat_associative(pre2, w0, wr);
        vstd::seq_lib::lemma_concat_associative(pre2, w0 + wr, br);
        assert(s == pre2 + body) by {
            vstd::seq_lib::lemma_concat_associative(w0, wr, br);
        }
        assert((pre2 + body) + Seq::<char>::empty() =~= pre2 + body);
        assert(s[0] == '[');
        assert(s[1] == '{') by {
            assert(s[1] == w0[0]);
            assert(w0[0] == "{\"id\":"@[0]);
        }
        assert(s[1] != ']');
        lemma_menu_items_elems_inverts(pre2, a, Seq::empty());
        assert(s.len() == 1 + body.len());
    }
}

/// The elements after the first in a notices collection.
pub open spec fn enc_notices_rest(a: Seq<NoticeV>) -> Seq<char>
    decreases a.len(),
{
    if a.len() == 0 {
        Seq::empty()
    } else {
        seq![','] + enc_notice(a[0]) + enc_notices_rest(a.drop_first())
    }
}

/// A whole notices collection as one array document.
pub open spec fn enc_notices(a: Seq<NoticeV>) -> Seq<char> {
    if a.len() == 0 {
        seq!['[', ']']
    } else {
        seq!['['] + enc_notice(a[0]) + enc_notices_rest(a.drop_first()) + seq![']']
    }
}

/// Parses notices elements from the first element on.
pub open spec fn sp_notices_elems(s: Seq<char>, pos: int) -> Option<(Seq<NoticeV>, int)>
    decreases s.len() - pos,
{
    match sp_parse_notice(s, pos) {
        Some((v, e)) => if pos < e < s.len() {
            if s[e] == ']' {
                Some((seq![v], e + 1))
            } else if s[e] == ',' {
                match sp_notices_elems(s, e + 1) {
                    Some((vs, e2)) => Some((seq![v] + vs, e2)),
                    None => None,
                }
            } else {
                None
            }
        } else {
            None
        },
        None => None,
    }
}

/// Parses a notices array at `pos`.
pub open spec fn sp_parse_notices(s: Seq<char>, pos: int) -> Option<(Seq<NoticeV>, int)> {
    if 0 <= pos && pos + 1 < s.len() && s[pos] == '[' {
        if s[pos + 1] == ']' {
            Some((Seq::empty(), pos + 2))
        } else {
            sp_notices_elems(s, pos + 1)
        }
    } else {
        None
    }
}

/// A whole notices snapshot document.
pub open spec fn sp_doc_notices(s: Seq<char>) -> Option<Seq<NoticeV>> {
    match sp_parse_notices(s, 0) {
        Some((v, e)) => if e == s.len() {
            Some(v)
        } else {
            None
        },
        None => None,
    }
}

/// The canonical document of a notices collection.
pub fn encode_notices(a: &Vec<Notice>) -> (r: String)
    ensures
        r@ == enc_notices(a.deep_view()),
{
    let ghost av = a.deep_view();
    let mut out: Vec<char> = Vec::new();
    out.push('[');
    if a.len() == 0 {
        out.push(']');
        proof {
            assert(out@ =~= enc_notices(av));
        }
        return chars_to_string(&out);
    }
    push_notice(&mut out, &a[0]);
    let mut i: usize = 1;
    while i < a.len()
        invariant
            1 <= i <= a.len(),
            av == a.deep_view(),
            av.len() == a.len(),
            out@ =~= seq!['['] + enc_notice(av[0]) + enc_notices_upto(av, i as int),
        decreases a.len() - i,
    {
        out.push(',');
        push_notice(&mut out, &a[i]);
        proof {
            assert(out@ =~= seq!['['] + enc_notice(av[0]) + enc_notices_upto(av, i + 1));
        }
        i = i + 1;
    }
    out.push(']');
    proof {
        lemma_enc_notices_full(av);
        assert(out@ =~= enc_notices(av));
    }
    chars_to_string(&out)
}

/// The encoded comma-led notices with indices in `[1, i)`.
pub open spec fn enc_notices_upto(a: Seq<NoticeV>, i: int) -> Seq<char>
    decreases i,
{
    if i <= 1 {
        Seq::empty()
    } else {
        enc_notices_upto(a, i - 1) + seq![','] + enc_notice(a[i - 1])
    }
}

/// The comma-led notices from index `k` to the end, front-recursive.
pub open spec fn enc_notices_from(a: Seq<NoticeV>, k: int) -> Seq<char>
    decreases a.len() - k,
{
    if k < 1 || k >= a.len() {
        Seq::empty()
    } else {
        seq![','] + enc_notice(a[k]) + enc_notices_from(a, k + 1)
    }
}

proof fn lemma_enc_notices_upto_eq_from(a: Seq<NoticeV>, i: int)
    requires
        1 <= i <= a.len(),
    ensures
        enc_notices_upto(a, a.len() as int) =~= enc_notices_upto(a, i) + enc_notices_from(a, i),
    decreases a.len() - i,
{
    if i == a.len() {
    } else {
        lemma_enc_notices_upto_eq_from(a, i + 1);
    }
}

proof fn lemma_enc_notices_shift(a: Seq<NoticeV>, k: int)
    requires
        1 <= k <= a.len(),
    ensures
        enc_notices_rest(a.skip(k)) =~= enc_notices_from(a, k),
    decreases a.len() - k,
{
    if k == a.len() {
        assert(a.skip(k).len() == 0);
    } else {
        lemma_enc_notices_shift(a, k + 1);
        assert(a.skip(k)[0] == a[k]);
        assert(a.skip(k).drop_first() =~= a.skip(k + 1));
    }
}

proof fn lemma_enc_notices_full(a: Seq<NoticeV>)
    requires
        a.len() >= 1,
    ensures
        enc_notices_upto(a, a.len() as int) =~= enc_notices_rest(a.drop_first()),
{
    lemma_enc_notices_upto_eq_from(a, 1);
    lemma_enc_notices_shift(a, 1);
    assert(a.drop_first() =~= a.skip(1));
}

/// Parses a whole notices snapshot document.
#[verifier::loop_isolation(false)]
pub fn decode_notices(text: &str) -> (r: Option<Vec<Notice>>)
    ensures
        match r {
            Some(v) => sp_doc_notices(text@) == Some(v.deep_view()),
            None => sp_doc_notices(text@) is None,
        },
{
    let s = str_to_chars(text);
    let total = s.len();
    if total < 2 || s[0] != '[' {
        return None;
    }
    if s[1] == ']' {
        if total == 2 {
            let out: Vec<Notice> = Vec::new();
            proof {
                assert(out.deep_view() =~= Seq::<NoticeV>::empty());
            }
            return Some(out);
        }
        return None;
    }
    let mut out: Vec<Notice> = Vec::new();
    let mut p: usize = 1;
    loop
        invariant
            1 <= p <= total,
            total == s@.len(),
            s@ == text@,
            match sp_notices_elems(s@, p as int) {
                Some(te) => sp_notices_elems(s@, 1) == Some::<(Seq<NoticeV>, int)>(
                    (out.deep_view() + te.0, te.1),
                ),
                None => sp_notices_elems(s@, 1) is None,
            },
        decreases total - p,
    {
        match parse_notice(&s, p) {
            None => {
                return None;
            },
            Some((entity, e)) => {
                if e >= total {
                    return None;
                }
                let c = s[e];
                if c == ']' {
                    let ghost pre_out = out.deep_view();
                    let ghost ev = entity.deep_view();
                    out.push(entity);
                    proof {
                        assert(out.deep_view() =~= pre_out.push(ev));
                        assert(pre_out + seq![ev] =~= pre_out.push(ev));
                    }
                    if e + 1 == total {
                        return Some(out);
                    }
                    return None;
                } else if c == ',' {
                    let ghost pre_out = out.deep_view();
                    let ghost ev = entity.deep_view();
                    out.push(entity);
                    proof {
                        assert(out.deep_view() =~= pre_out.push(ev));
                        match sp_notices_elems(s@, e + 1) {
                            Some(te) => {
                                assert(pre_out + (seq![ev] + te.0) =~= pre_out.push(ev) + te.0);
                            },
                            None => {},
                        }
                    }
                    p = e + 1;
                } else {
                    return None;
                }
            },
        }
    }
}

/// notices elements placed at `pos` parse back to themselves.
#[verifier::rlimit(100)]
#[verifier::spinoff_prover]
proof fn lemma_notices_elems_inverts(pre: Seq<char>, a: Seq<NoticeV>, rest: Seq<char>)
    requires
        a.len() >= 1,
    ensures
        ({
            let body = enc_notice(a[0]) + enc_notices_rest(a.drop_first()) + seq![']'];
            sp_notices_elems(pre + body + rest, pre.len() as int) == Some(
                (a, (pre.len() + body.len()) as int),
            )
        }),
    decreases a.len(),
{
    let w0 = enc_notice(a[0]);
    let tail = a.drop_first();
    let wr = enc_notices_rest(tail);
    let br = seq![']'];
    let body = w0 + wr + br;
    let s = pre + body + rest;
    let p = pre.len() as int;
    vstd::seq_lib::lemma_concat_associative(w0, wr, br);
    vstd::seq_lib::lemma_concat_associative(pre, w0, wr + br);
    assert(pre + body == (pre + w0) + (wr + br));
    vstd::seq_lib::lemma_concat_associative(pre + w0, wr + br, rest);
    let r1 = (wr + br) + rest;
    assert(s == (pre + w0) + r1);
    if tail.len() == 0 {
        assert(wr.len() == 0);
        assert(wr + br =~= br);
        assert(r1 == br + rest);
        lemma_parse_notice_inverts(pre, a[0], r1);
        let e = p + w0.len();
        assert(s[e] == ']') by {
            assert(r1[0] == br[0]);
        }
        assert(seq![a[0]] =~= a);
    } else {
        let w1 = enc_notice(tail[0]);
        let wr2 = enc_notices_rest(tail.drop_first());
        let cm = seq![','];
        assert(wr == cm + w1 + wr2);
        let body2 = w1 + wr2 + br;
        assert(wr + br == cm + body2) by {
            vstd::seq_lib::lemma_concat_associative(cm + w1, wr2, br);
            vstd::seq_lib::lemma_concat_associative(cm, w1, wr2 + br);
            vstd::seq_lib::lemma_concat_associative(w1, wr2, br);
        }
        vstd::seq_lib::lemma_concat_associative(cm, body2, rest);
        assert(r1 == (cm + body2) + rest);
        assert(r1 == cm + (body2 + rest));
        lemma_parse_notice_inverts(pre, a[0], r1);
        let e = p + w0.len();
        assert(s[e] == ',') by {
            assert(r1[0] == cm[0]);
        }
        let pre2 = (pre + w0) + cm;
        vstd::seq_lib::lemma_concat_associative(pre + w0, cm, body2 + rest);
        assert(s == pre2 + (body2 + rest));
        vstd::seq_lib::lemma_concat_associative(pre2, body2, rest);
        assert(s == (pre2 + body2) + rest);
        lemma_notices_elems_inverts(pre2, tail, rest);
        assert(seq![a[0]] + tail =~= a);
    }
}

/// Writing a notices collection and reloading it reproduces the collection.
#[verifier::rlimit(100)]
#[verifier::spinoff_prover]
pub proof fn lemma_notices_round_trip(a: Seq<NoticeV>)
    ensures
        sp_doc_notices(enc_notices(a)) == Some(a),
{
    let s = enc_notices(a);
    if a.len() == 0 {
        assert(s[0] == '[' && s[1] == ']');
        assert(Seq::<NoticeV>::empty() =~= a);
    } else {
        reveal_strlit("{\"id\":");
        let pre2 = seq!['['];
        let w0 = enc_notice(a[0]);
        let wr = enc_notices_rest(a.drop_first());
        let br = seq![']'];
        let body = w0 + wr + br;
        assert(s == ((pre2 + w0) + wr) + br);
        vstd::seq_lib::lemma_concat_associative(pre2, w0, wr);
        vstd::seq_lib::lemma_concat_associative(pre2, w0 + wr, br);
        assert(s == pre2 + body) by {
            vstd::seq_lib::lemma_concat_associative(w0, wr, br);
        }
        assert((pre2 + body) + Seq::<char>::empty() =~= pre2 + body);
        assert(s[0] == '[');
        assert(s[1] == '{') by {
            assert(s[1] == w0[0]);
            assert(w0[0] == "{\"id\":"@[0]);
        }
        assert(s[1] != ']');
        lemma_notices_elems_inverts(pre2, a, Seq::empty());
        assert(s.len() == 1 + body.len());
    }
}

/// The elements after the first in a admin users collection.
pub open spec fn enc_admin_users_rest(a: Seq<AdminUserV>) -> Seq<char>
    decreases a.len(),
{
    if a.len() == 0 {
        Seq::empty()
    } else {
        seq![','] + enc_admin_user(a[0]) + enc_admin_users_rest(a.drop_first())
    }
}

/// A whole admin users collection as one array document.
pub open spec fn enc_admin_users(a: Seq<AdminUserV>) -> Seq<char> {
    if a.len() == 0 {
        seq!['[', ']']
    } else {
        seq!['['] + enc_admin_user(a[0]) + enc_admin_users_rest(a.drop_first()) + seq![']']
    }
}

/// Parses admin users elements from the first element on.
pub open spec fn sp_admin_users_elems(s: Seq<char>, pos: int) -> Option<(Seq<AdminUserV>, int)>
    decreases s.len() - pos,
{
    match sp_parse_admin_user(s, pos) {
        Some((v, e)) => if pos < e < s.len() {
            if s[e] == ']' {
                Some((seq![v], e + 1))
            } else if s[e] == ',' {
                match sp_admin_users_elems(s, e + 1) {
                    Some((vs, e2)) => Some((seq![v] + vs, e2)),
                    None => None,
                }
            } else {
                None
            }
        } else {
            None
        },
        None => None,
    }
}

/// Parses a admin users array at `pos`.
pub open spec fn sp_parse_admin_users(s: Seq<char>, pos: int) -> Option<(Seq<AdminUserV>, int)> {
    if 0 <= pos && pos + 1 < s.len() && s[pos] == '[' {
        if s[pos + 1] == ']' {
            Some((Seq::empty(), pos + 2))
        } else {
            sp_admin_users_elems(s, pos + 1)
        }
    } else {
        None
    }
}

/// A whole admin users snapshot document.
pub open spec fn sp_doc_admin_users(s: Seq<char>) -> Option<Seq<AdminUserV>> {
    match sp_parse_admin_users(s, 0) {
        Some((v, e)) => if e == s.len() {
            Some(v)
        } else {
            None
        },
        None => None,
    }
}

/// The canonical document of a admin users collection.
pub fn encode_admin_users(a: &Vec<AdminUser>) -> (r: String)
    ensures
        r@ == enc_admin_users(a.deep_view()),
{
    let ghost av = a.deep_view();
    let mut out: Vec<char> = Vec::new();
    out.push('[');
    if a.len() == 0 {
        out.push(']');
        proof {
            assert(out@ =~= enc_admin_users(av));
        }
        return chars_to_string(&out);
    }
    push_admin_user(&mut out, &a[0]);
    let mut i: usize = 1;
    while i < a.len()
        invariant
            1 <= i <= a.len(),
            av == a.deep_view(),
            av.len() == a.len(),
            out@ =~= seq!['['] + enc_admin_user(av[0]) + enc_admin_users_upto(av, i as int),
        decreases a.len() - i,
    {
        out.push(',');
        push_admin_user(&mut out, &a[i]);
        proof {
            assert(out@ =~= seq!['['] + enc_admin_user(av[0]) + enc_admin_users_upto(av, i + 1));
        }
        i = i + 1;
    }
    out.push(']');
    proof {
        lemma_enc_admin_users_full(av);
        assert(out@ =~= enc_admin_users(av));
    }
    chars_to_string(&out)
}

/// The encoded comma-led admin users with indices in `[1, i)`.
pub open spec fn enc_admin_users_upto(a: Seq<AdminUserV>, i: int) -> Seq<char>
    decreases i,
{
    if i <= 1 {
        Seq::empty()
    } else {
        enc_admin_users_upto(a, i - 1) + seq![','] + enc_admin_user(a[i - 1])
    }
}

/// The comma-led admin users from index `k` to the end, front-recursive.
pub open spec fn enc_admin_users_from(a: Seq<AdminUserV>, k: int) -> Seq<char>
    decreases a.len() - k,
{
    if k < 1 || k >= a.len() {
        Seq::empty()
    } else {
        seq![','] + enc_admin_user(a[k]) + enc_admin_users_from(a, k + 1)
    }
}

proof fn lemma_enc_admin_users_upto_eq_from(a: Seq<AdminUserV>, i: int)
    requires
        1 <= i <= a.len(),
    ensures
        enc_admin_users_upto(a, a.len() as int) =~= enc_admin_users_upto(a, i) + enc_admin_users_from(a, i),
    decreases a.len() - i,
{
    if i == a.len() {
    } else {
        lemma_enc_admin_users_upto_eq_from(a, i + 1);
    }
}

proof fn lemma_enc_admin_users_shift(a: Seq<AdminUserV>, k: int)
    requires
        1 <= k <= a.len(),
    ensures
        enc_admin_users_rest(a.skip(k)) =~= enc_admin_users_from(a, k),
    decreases a.len() - k,
{
    if k == a.len() {
        assert(a.skip(k).len() == 0);
    } else {
        lemma_enc_admin_users_shift(a, k + 1);
        assert(a.skip(k)[0] == a[k]);
        assert(a.skip(k).drop_first() =~= a.skip(k + 1));
    }
}

proof fn lemma_enc_admin_users_full(a: Seq<AdminUserV>)
    requires
        a.len() >= 1,
    ensures
        enc_admin_users_upto(a, a.len() as int) =~= enc_admin_users_rest(a.drop_first()),
{
    lemma_enc_admin_users_upto_eq_from(a, 1);
    lemma_enc_admin_users_shift(a, 1);
    assert(a.drop_first() =~= a.skip(1));
}

/// Parses a whole admin users snapshot document.
#[verifier::loop_isolation(false)]
pub fn decode_admin_users(text: &str) -> (r: Option<Vec<AdminUser>>)
    ensures
        match r {
            Some(v) => sp_doc_admin_users(text@) == Some(v.deep_view()),
            None => sp_doc_admin_users(text@) is None,
        },
{
    let s = str_to_chars(text);
    let total = s.len();
    if total < 2 || s[0] != '[' {
        return None;
    }
    if s[1] == ']' {
        if total == 2 {
            let out: Vec<AdminUser> = Vec::new();
            proof {
                assert(out.deep_view() =~= Seq::<AdminUserV>::empty());
            }
            return Some(out);
        }
        return None;
    }
    let mut out: Vec<AdminUser> = Vec::new();
    let mut p: usize = 1;
    loop
        invariant
            1 <= p <= total,
            total == s@.len(),
            s@ == text@,
            match sp_admin_users_elems(s@, p as int) {
                Some(te) => sp_admin_users_elems(s@, 1) == Some::<(Seq<AdminUserV>, int)>(
                    (out.deep_view() + te.0, te.1),
                ),
                None => sp_admin_users_elems(s@, 1) is None,
            },
        decreases total - p,
    {
        match parse_admin_user(&s, p) {
            None => {
                return None;
            },
            Some((entity, e)) => {
                if e >= total {
                    return None;
                }
                let c = s[e];
                if c == ']' {
                    let ghost pre_out = out.deep_view();
                    let ghost ev = entity.deep_view();
                    out.push(entity);
                    proof {
                        assert(out.deep_view() =~= pre_out.push(ev));
                        assert(pre_out + seq![ev] =~= pre_out.push(ev));
                    }
                    if e + 1 == total {
                        return Some(out);
                    }
                    return None;
                } else if c == ',' {
                    let ghost pre_out = out.deep_view();
                    let ghost ev = entity.deep_view();
                    out.push(entity);
                    proof {
                        assert(out.deep_view() =~= pre_out.push(ev));
                        match sp_admin_users_elems(s@, e + 1) {
                            Some(te) => {
                                assert(pre_out + (seq![ev] + te.0) =~= pre_out.push(ev) + te.0);
                            },
                            None => {},
                        }
                    }
                    p = e + 1;
                } else {
                    return None;
                }
            },
        }
    }
}

/// admin users elements placed at `pos` parse back to themselves.
#[verifier::rlimit(100)]
#[verifier::spinoff_prover]
proof fn lemma_admin_users_elems_inverts(pre: Seq<char>, a: Seq<AdminUserV>, rest: Seq<char>)
    requires
        a.len() >= 1,
    ensures
        ({
            let body = enc_admin_user(a[0]) + enc_admin_users_rest(a.drop_first()) + seq![']'];
            sp_admin_users_elems(pre + body + rest, pre.len() as int) == Some(
                (a, (pre.len() + body.len()) as int),
            )
        }),
    decreases a.len(),
{
    let w0 = enc_admin_user(a[0]);
    let tail = a.drop_first();
    let wr = enc_admin_users_rest(tail);
    let br = seq![']'];
    let body = w0 + wr + br;
    let s = pre + body + rest;
    let p = pre.len() as int;
    vstd::seq_lib::lemma_concat_associative(w0, wr, br);
    vstd::seq_lib::lemma_concat_associative(pre, w0, wr + br);
    assert(pre + body == (pre + w0) + (wr + br));
    vstd::seq_lib::lemma_concat_associative(pre + w0, wr + br, rest);
    let r1 = (wr + br) + rest;
    assert(s == (pre + w0) + r1);
    if tail.len() == 0 {
        assert(wr.len() == 0);
        assert(wr + br =~= br);
        assert(r1 == br + rest);
        lemma_parse_admin_user_inverts(pre, a[0], r1);
        let e = p + w0.len();
        assert(s[e] == ']') by {
            assert(r1[0] == br[0]);
        }
        assert(seq![a[0]] =~= a);
    } else {
        let w1 = enc_admin_user(tail[0]);
        let wr2 = enc_admin_users_rest(tail.drop_first());
        let cm = seq![','];
        assert(wr == cm + w1 + wr2);
        let body2 = w1 + wr2 + br;
        assert(wr + br == cm + body2) by {
            vstd::seq_lib::lemma_concat_associative(cm + w1, wr2, br);
            vstd::seq_lib::lemma_concat_associative(cm, w1, wr2 + br);
            vstd::seq_lib::lemma_concat_associative(w1, wr2, br);
        }
        vstd::seq_lib::lemma_concat_associative(cm, body2, rest);
        assert(r1 == (cm + body2) + rest);
        assert(r1 == cm + (body2 + rest));
        lemma_parse_admin_user_inverts(pre, a[0], r1);
        let e = p + w0.len();
        assert(s[e] == ',') by {
            assert(r1[0] == cm[0]);
        }
        let pre2 = (pre + w0) + cm;
        vstd::seq_lib::lemma_concat_associative(pre + w0, cm, body2 + rest);
        assert(s == pre2 + (body2 + rest));
        vstd::seq_lib::lemma_concat_associative(pre2, body2, rest);
        assert(s == (pre2 + body2) + rest);
        lemma_admin_users_elems_inverts(pre2, tail, rest);
        assert(seq![a[0]] + tail =~= a);
    }
}

/// Writing a admin users collection and reloading it reproduces the collection.
#[verifier::rlimit(100)]
#[verifier::spinoff_prover]
pub proof fn lemma_admin_users_round_trip(a: Seq<AdminUserV>)
    ensures
        sp_doc_admin_users(enc_admin_users(a)) == Some(a),
{
    let s = enc_admin_users(a);
    if a.len() == 0 {
        assert(s[0] == '[' && s[1] == ']');
        assert(Seq::<AdminUserV>::empty() =~= a);
    } else {
        reveal_strlit("{\"id\":");
        let pre2 = seq!['['];
        let w0 = enc_admin_user(a[0]);
        let wr = enc_admin_users_rest(a.drop_first());
        let br = seq![']'];
        let body = w0 + wr + br;
        assert(s == ((pre2 + w0) + wr) + br);
        vstd::seq_lib::lemma_concat_associative(pre2, w0, wr);
        vstd::seq_lib::lemma_concat_associative(pre2, w0 + wr, br);
        assert(s == pre2 + body) by {
            vstd::seq_lib::lemma_concat_associative(w0, wr, br);
        }
        assert((pre2 + body) + Seq::<char>::empty() =~= pre2 + body);
        assert(s[0] == '[');
        assert(s[1] == '{') by {
            assert(s[1] == w0[0]);
            assert(w0[0] == "{\"id\":"@[0]);
        }
        assert(s[1] != ']');
        lemma_admin_users_elems_inverts(pre2, a, Seq::empty());
        assert(s.len() == 1 + body.len());
    }
}

/// The elements after the first in a menu presets collection.
pub open spec fn enc_menu_presets_rest(a: Seq<MenuPresetV>) -> Seq<char>
    decreases a.len(),
{
    if a.len() == 0 {
        Seq::empty()
    } else {
        seq![','] + enc_menu_preset(a[0]) + enc_menu_presets_rest(a.drop_first())
    }
}

/// A whole menu presets collection as one array document.
pub open spec fn enc_menu_presets(a: Seq<MenuPresetV>) -> Seq<char> {
    if a.len() == 0 {
        seq!['[', ']']
    } else {
        seq!['['] + enc_menu_preset(a[0]) + enc_menu_presets_rest(a.drop_first()) + seq![']']
    }
}

/// Parses menu presets elements from the first element on.
pub open spec fn sp_menu_presets_elems(s: Seq<char>, pos: int) -> Option<(Seq<MenuPresetV>, int)>
    decreases s.len() - pos,
{
    match sp_parse_menu_preset(s, pos) {
        Some((v, e)) => if pos < e < s.len() {
            if s[e] == ']' {
                Some((seq![v], e + 1))
            } else if s[e] == ',' {
                match sp_menu_presets_elems(s, e + 1) {
                    Some((vs, e2)) => Some((seq![v] + vs, e2)),
                    None => None,
                }
            } else {
                None
            }
        } else {
            None
        },
        None => None,
    }
}

/// Parses a menu presets array at `pos`.
pub open spec fn sp_parse_menu_presets(s: Seq<char>, pos: int) -> Option<(Seq<MenuPresetV>, int)> {
    if 0 <= pos && pos + 1 < s.len() && s[pos] == '[' {
        if s[pos + 1] == ']' {
            Some((Seq::empty(), pos + 2))
        } else {
            sp_menu_presets_elems(s, pos + 1)
        }
    } else {
        None
    }
}

/// A whole menu presets snapshot document.
pub open spec fn sp_doc_menu_presets(s: Seq<char>) -> Option<Seq<MenuPresetV>> {
    match sp_parse_menu_presets(s, 0) {
        Some((v, e)) => if e == s.len() {
            Some(v)
        } else {
            None
        },
        None => None,
    }
}

/// The canonical document of a menu presets collection.
pub fn encode_menu_presets(a: &Vec<MenuPreset>) -> (r: String)
    ensures
        r@ == enc_menu_presets(a.deep_view()),
{
    let ghost av = a.deep_view();
    let mut out: Vec<char> = Vec::new();
    out.push('[');
    if a.len() == 0 {
        out.push(']');
        proof {
            assert(out@ =~= enc_menu_presets(av));
        }
        return chars_to_string(&out);
    }
    push_menu_preset(&mut out, &a[0]);
    let mut i: usize = 1;
    while i < a.len()
        invariant
            1 <= i <= a.len(),
            av == a.deep_view(),
            av.len() == a.len(),
            out@ =~= seq!['['] + enc_menu_preset(av[0]) + enc_menu_presets_upto(av, i as int),
        decreases a.len() - i,
    {
        out.push(',');
        push_menu_preset(&mut out, &a[i]);
        proof {
            assert(out@ =~= seq!['['] + enc_menu_preset(av[0]) + enc_menu_presets_upto(av, i + 1));
        }
        i = i + 1;
    }
    out.push(']');
    proof {
        lemma_enc_menu_presets_full(av);
        assert(out@ =~= enc_menu_presets(av));
    }
    chars_to_string(&out)
}

/// The encoded comma-led menu presets with indices in `[1, i)`.
pub open spec fn enc_menu_presets_upto(a: Seq<MenuPresetV>, i: int) -> Seq<char>
    decreases i,
{
    if i <= 1 {
        Seq::empty()
    } else {
        enc_menu_presets_upto(a, i - 1) + seq![','] + enc_menu_preset(a[i - 1])
    }
}

/// The comma-led menu presets from index `k` to the end, front-recursive.
pub open spec fn enc_menu_presets_from(a: Seq<MenuPresetV>, k: int) -> Seq<char>
    decreases a.len() - k,
{
    if k < 1 || k >= a.len() {
        Seq::empty()
    } else {
        seq![','] + enc_menu_preset(a[k]) + enc_menu_presets_from(a, k + 1)
    }
}

proof fn lemma_enc_menu_presets_upto_eq_from(a: Seq<MenuPresetV>, i: int)
    requires
        1 <= i <= a.len(),
    ensures
        enc_menu_presets_upto(a, a.len() as int) =~= enc_menu_presets_upto(a, i) + enc_menu_presets_from(a, i),
    decreases a.len() - i,
{
    if i == a.len() {
    } else {
        lemma_enc_menu_presets_upto_eq_from(a, i + 1);
    }
}

proof fn lemma_enc_menu_presets_shift(a: Seq<MenuPresetV>, k: int)
    requires
        1 <= k <= a.len(),
    ensures
        enc_menu_presets_rest(a.skip(k)) =~= enc_menu_presets_from(a, k),
    decreases a.len() - k,
{
    if k == a.len() {
        assert(a.skip(k).len() == 0);
    } else {
        lemma_enc_menu_presets_shift(a, k + 1);
        assert(a.skip(k)[0] == a[k]);
        assert(a.skip(k).drop_first() =~= a.skip(k + 1));
    }
}

proof fn lemma_enc_menu_presets_full(a: Seq<MenuPresetV>)
    requires
        a.len() >= 1,
    ensures
        enc_menu_presets_upto(a, a.len() as int) =~= enc_menu_presets_rest(a.drop_first()),
{
    lemma_enc_menu_presets_upto_eq_from(a, 1);
    lemma_enc_menu_presets_shift(a, 1);
    assert(a.drop_first() =~= a.skip(1));
}

/// Parses a whole menu presets snapshot document.
#[verifier::loop_isolation(false)]
pub fn decode_menu_presets(text: &str) -> (r: Option<Vec<MenuPreset>>)
    ensures
        match r {
            Some(v) => sp_doc_menu_presets(text@) == Some(v.deep_view()),
            None => sp_doc_menu_presets(text@) is None,
        },
{
    let s = str_to_chars(text);
    let total = s.len();
    if total < 2 || s[0] != '[' {
        return None;
    }
    if s[1] == ']' {
        if total == 2 {
            let out: Vec<MenuPreset> = Vec::new();
            proof {
                assert(out.deep_view() =~= Seq::<MenuPresetV>::empty());
            }
            return Some(out);
        }
        return None;
    }
    let mut out: Vec<MenuPreset> = Vec::new();
    let mut p: usize = 1;
    loop
        invariant
            1 <= p <= total,
            total == s@.len(),
            s@ == text@,
            match sp_menu_presets_elems(s@, p as int) {
                Some(te) => sp_menu_presets_elems(s@, 1) == Some::<(Seq<MenuPresetV>, int)>(
                    (out.deep_view() + te.0, te.1),
                ),
                None => sp_menu_presets_elems(s@, 1) is None,
            },
        decreases total - p,
    {
        match parse_menu_preset(&s, p) {
            None => {
                return None;
            },
            Some((entity, e)) => {
                if e >= total {
                    return None;
                }
                let c = s[e];
                if c == ']' {
                    let ghost pre_out = out.deep_view();
                    let ghost ev = entity.deep_view();
                    out.push(entity);
                    proof {
                        assert(out.deep_view() =~= pre_out.push(ev));
                        assert(pre_out + seq![ev] =~= pre_out.push(ev));
                    }
                    if e + 1 == total {
                        return Some(out);
                    }
                    return None;
                } else if c == ',' {
                    let ghost pre_out = out.deep_view();
                    let ghost ev = entity.deep_view();
                    out.push(entity);
                    proof {
                        assert(out.deep_view() =~= pre_out.push(ev));
                        match sp_menu_presets_elems(s@, e + 1) {
                            Some(te) => {
                                assert(pre_out + (seq![ev] + te.0) =~= pre_out.push(ev) + te.0);
                            },
                            None => {},
                        }
                    }
                    p = e + 1;
                } else {
                    return None;
                }
            },
        }
    }
}

/// menu presets elements placed at `pos` parse back to themselves.
#[verifier::rlimit(100)]
#[verifier::spinoff_prover]
proof fn lemma_menu_presets_elems_inverts(pre: Seq<char>, a: Seq<MenuPresetV>, rest: Seq<char>)
    requires
        a.len() >= 1,
    ensures
        ({
            let body = enc_menu_preset(a[0]) + enc_menu_presets_rest(a.drop_first()) + seq![']'];
            sp_menu_presets_elems(pre + body + rest, pre.len() as int) == Some(
                (a, (pre.len() + body.len()) as int),
            )
        }),
    decreases a.len(),
{
    let w0 = enc_menu_preset(a[0]);
    let tail = a.drop_first();
    let wr = enc_menu_presets_rest(tail);
    let br = seq![']'];
    let body = w0 + wr + br;
    let s = pre + body + rest;
    let p = pre.len() as int;
    vstd::seq_lib::lemma_concat_associative(w0, wr, br);
    vstd::seq_lib::lemma_concat_associative(pre, w0, wr + br);
    assert(pre + body == (pre + w0) + (wr + br));
    vstd::seq_lib::lemma_concat_associative(pre + w0, wr + br, rest);
    let r1 = (wr + br) + rest;
    assert(s == (pre + w0) + r1);
    if tail.len() == 0 {
        assert(wr.len() == 0);
        assert(wr + br =~= br);
        assert(r1 == br + rest);
        lemma_parse_menu_preset_inverts(pre, a[0], r1);
        let e = p + w0.len();
        assert(s[e] == ']') by {
            assert(r1[0] == br[0]);
        }
        assert(seq![a[0]] =~= a);
    } else {
        let w1 = enc_menu_preset(tail[0]);
        let wr2 = enc_menu_presets_rest(tail.drop_first());
        let cm = seq![','];
        assert(wr == cm + w1 + wr2);
        let body2 = w1 + wr2 + br;
        assert(wr + br == cm + body2) by {
            vstd::seq_lib::lemma_concat_associative(cm + w1, wr2, br);
            vstd::seq_lib::lemma_concat_associative(cm, w1, wr2 + br);
            vstd::seq_lib::lemma_concat_associative(w1, wr2, br);
        }
        vstd::seq_lib::lemma_concat_associative(cm, body2, rest);
        assert(r1 == (cm + body2) + rest);
        assert(r1 == cm + (body2 + rest));
        lemma_parse_menu_preset_inverts(pre, a[0], r1);
        let e = p + w0.len();
        assert(s[e] == ',') by {
            assert(r1[0] == cm[0]);
        }
        let pre2 = (pre + w0) + cm;
        vstd::seq_lib::lemma_concat_associative(pre + w0, cm, body2 + rest);
        assert(s == pre2 + (body2 + rest));
        vstd::seq_lib::lemma_concat_associative(pre2, body2, rest);
        assert(s == (pre2 + body2) + rest);
        lemma_menu_presets_elems_inverts(pre2, tail, rest);
        assert(seq![a[0]] + tail =~= a);
    }
}

/// Writing a menu presets collection and reloading it reproduces the collection.
#[verifier::rlimit(100)]
#[verifier::spinoff_prover]
pub proof fn lemma_menu_presets_round_trip(a: Seq<MenuPresetV>)
    ensures
        sp_doc_menu_presets(enc_menu_presets(a)) == Some(a),
{
    let s = enc_menu_presets(a);
    if a.len() == 0 {
        assert(s[0] == '[' && s[1] == ']');
        assert(Seq::<MenuPresetV>::empty() =~= a);
    } else {
        reveal_strlit("{\"id\":");
        let pre2 = seq!['['];
        let w0 = enc_menu_preset(a[0]);
        let wr = enc_menu_presets_rest(a.drop_first());
        let br = seq![']'];
        let body = w0 + wr + br;
        assert(s == ((pre2 + w0) + wr) + br);
        vstd::seq_lib::lemma_concat_associative(pre2, w0, wr);
        vstd::seq_lib::lemma_concat_associative(pre2, w0 + wr, br);
        assert(s == pre2 + body) by {
            vstd::seq_lib::lemma_concat_associative(w0, wr, br);
        }
        assert((pre2 + body) + Seq::<char>::empty() =~= pre2 + body);
        assert(s[0] == '[');
        assert(s[1] == '{') by {
            assert(s[1] == w0[0]);
            assert(w0[0] == "{\"id\":"@[0]);
        }
        assert(s[1] != ']');
        lemma_menu_presets_elems_inverts(pre2, a, Seq::empty());
        assert(s.len() == 1 + body.len());
    }
}

/// The elements after the first in a menu schedules collection.
pub open spec fn enc_menu_schedules_rest(a: Seq<MenuScheduleV>) -> Seq<char>
    decreases a.len(),
{
    if a.len() == 0 {
        Seq::empty()
    } else {
        seq![','] + enc_menu_schedule(a[0]) + enc_menu_schedules_rest(a.drop_first())
    }
}

/// A whole menu schedules collection as one array document.
pub open spec fn enc_menu_schedules(a: Seq<MenuScheduleV>) -> Seq<char> {
    if a.len() == 0 {
        seq!['[', ']']
    } else {
        seq!['['] + enc_menu_schedule(a[0]) + enc_menu_schedules_rest(a.drop_first()) + seq![']']
    }
}

/// Parses menu schedules elements from the first element on.
pub open spec fn sp_menu_schedules_elems(s: Seq<char>, pos: int) -> Option<(Seq<MenuScheduleV>, int)>
    decreases s.len() - pos,
{
    match sp_parse_menu_schedule(s, pos) {
        Some((v, e)) => if pos < e < s.len() {
            if s[e] == ']' {
                Some((seq![v], e + 1))
            } else if s[e] == ',' {
                match sp_menu_schedules_elems(s, e + 1) {
                    Some((vs, e2)) => Some((seq![v] + vs, e2)),
                    None => None,
                }
            } else {
                None
            }
        } else {
            None
        },
        None => None,
    }
}

/// Parses a menu schedules array at `pos`.
pub open spec fn sp_parse_menu_schedules(s: Seq<char>, pos: int) -> Option<(Seq<MenuScheduleV>, int)> {
    if 0 <= pos && pos + 1 < s.len() && s[pos] == '[' {
        if s[pos + 1] == ']' {
            Some((Seq::empty(), pos + 2))
        } else {
            sp_menu_schedules_elems(s, pos + 1)
        }
    } else {
        None
    }
}

/// A whole menu schedules snapshot document.
pub open spec fn sp_doc_menu_schedules(s: Seq<char>) -> Option<Seq<MenuScheduleV>> {
    match sp_parse_menu_schedules(s, 0) {
        Some((v, e)) => if e == s.len() {
            Some(v)
        } else {
            None
        },
        None => None,
    }
}

/// The canonical document of a menu schedules collection.
pub fn encode_menu_schedules(a: &Vec<MenuSchedule>) -> (r: String)
    ensures
        r@ == enc_menu_schedules(a.deep_view()),
{
    let ghost av = a.deep_view();
    let mut out: Vec<char> = Vec::new();
    out.push('[');
    if a.len() == 0 {
        out.push(']');
        proof {
            assert(out@ =~= enc_menu_schedules(av));
        }
        return chars_to_string(&out);
    }
    push_menu_schedule(&mut out, &a[0]);
    let mut i: usize = 1;
    while i < a.len()
        invariant
            1 <= i <= a.len(),
            av == a.deep_view(),
            av.len() == a.len(),
            out@ =~= seq!['['] + enc_menu_schedule(av[0]) + enc_menu_schedules_upto(av, i as int),
        decreases a.len() - i,
    {
        out.push(',');
        push_menu_schedule(&mut out, &a[i]);
        proof {
            assert(out@ =~= seq!['['] + enc_menu_schedule(av[0]) + enc_menu_schedules_upto(av, i + 1));
        }
        i = i + 1;
    }
    out.push(']');
    proof {
        lemma_enc_menu_schedules_full(av);
        assert(out@ =~= enc_menu_schedules(av));
    }
    chars_to_string(&out)
}

/// The encoded comma-led menu schedules with indices in `[1, i)`.
pub open spec fn enc_menu_schedules_upto(a: Seq<MenuScheduleV>, i: int) -> Seq<char>
    decreases i,
{
    if i <= 1 {
        Seq::empty()
    } else {
        enc_menu_schedules_upto(a, i - 1) + seq![','] + enc_menu_schedule(a[i - 1])
    }
}

/// The comma-led menu schedules from index `k` to the end, front-recursive.
pub open spec fn enc_menu_schedules_from(a: Seq<MenuScheduleV>, k: int) -> Seq<char>
    decreases a.len() - k,
{
    if k < 1 || k >= a.len() {
        Seq::empty()
    } else {
        seq![','] + enc_menu_schedule(a[k]) + enc_menu_schedules_from(a, k + 1)
    }
}

proof fn lemma_enc_menu_schedules_upto_eq_from(a: Seq<MenuScheduleV>, i: int)
    requires
        1 <= i <= a.len(),
    ensures
        enc_menu_schedules_upto(a, a.len() as int) =~= enc_menu_schedules_upto(a, i) + enc_menu_schedules_from(a, i),
    decreases a.len() - i,
{
    if i == a.len() {
    } else {
        lemma_enc_menu_schedules_upto_eq_from(a, i + 1);
    }
}

proof fn lemma_enc_menu_schedules_shift(a: Seq<MenuScheduleV>, k: int)
    requires
        1 <= k <= a.len(),
    ensures
        enc_menu_schedules_rest(a.skip(k)) =~= enc_menu_schedules_from(a, k),
    decreases a.len() - k,
{
    if k == a.len() {
        assert(a.skip(k).len() == 0);
    } else {
        lemma_enc_menu_schedules_shift(a, k + 1);
        assert(a.skip(k)[0] == a[k]);
        assert(a.skip(k).drop_first() =~= a.skip(k + 1));
    }
}

proof fn lemma_enc_menu_schedules_full(a: Seq<MenuScheduleV>)
    requires
        a.len() >= 1,
    ensures
        enc_menu_schedules_upto(a, a.len() as int) =~= enc_menu_schedules_rest(a.drop_first()),
{
    lemma_enc_menu_schedules_upto_eq_from(a, 1);
    lemma_enc_menu_schedules_shift(a, 1);
    assert(a.drop_first() =~= a.skip(1));
}

/// Parses a whole menu schedules snapshot document.
#[verifier::loop_isolation(false)]
pub fn decode_menu_schedules(text: &str) -> (r: Option<Vec<MenuSchedule>>)
    ensures
        match r {
            Some(v) => sp_doc_menu_schedules(text@) == Some(v.deep_view()),
            None => sp_doc_menu_schedules(text@) is None,
        },
{
    let s = str_to_chars(text);
    let total = s.len();
    if total < 2 || s[0] != '[' {
        return None;
    }
    if s[1] == ']' {
        if total == 2 {
            let out: Vec<MenuSchedule> = Vec::new();
            proof {
                assert(out.deep_view() =~= Seq::<MenuScheduleV>::empty());
            }
            return Some(out);
        }
        return None;
    }
    let mut out: Vec<MenuSchedule> = Vec::new();
    let mut p: usize = 1;
    loop
        invariant
            1 <= p <= total,
            total == s@.len(),
            s@ == text@,
            match sp_menu_schedules_elems(s@, p as int) {
                Some(te) => sp_menu_schedules_elems(s@, 1) == Some::<(Seq<MenuScheduleV>, int)>(
                    (out.deep_view() + te.0, te.1),
                ),
                None => sp_menu_schedules_elems(s@, 1) is None,
            },
        decreases total - p,
    {
        match parse_menu_schedule(&s, p) {
            None => {
                return None;
            },
            Some((entity, e)) => {
                if e >= total {
                    return None;
                }
                let c = s[e];
                if c == ']' {
                    let ghost pre_out = out.deep_view();
                    let ghost ev = entity.deep_view();
                    out.push(entity);
                    proof {
                        assert(out.deep_view() =~= pre_out.push(ev));
                        assert(pre_out + seq![ev] =~= pre_out.push(ev));
                    }
                    if e + 1 == total {
                        return Some(out);
                    }
                    return None;
                } else if c == ',' {
                    let ghost pre_out = out.deep_view();
                    let ghost ev = entity.deep_view();
                    out.push(entity);
                    proof {
                        assert(out.deep_view() =~= pre_out.push(ev));
                        match sp_menu_schedules_elems(s@, e + 1) {
                            Some(te) => {
                                assert(pre_out + (seq![ev] + te.0) =~= pre_out.push(ev) + te.0);
                            },
                            None => {},
                        }
                    }
                    p = e + 1;
                } else {
                    return None;
                }
            },
        }
    }
}

/// menu schedules elements placed at `pos` parse back to themselves.
#[verifier::rlimit(100)]
#[verifier::spinoff_prover]
proof fn lemma_menu_schedules_elems_inverts(pre: Seq<char>, a: Seq<MenuScheduleV>, rest: Seq<char>)
    requires
        a.len() >= 1,
    ensures
        ({
            let body = enc_menu_schedule(a[0]) + enc_menu_schedules_rest(a.drop_first()) + seq![']'];
            sp_menu_schedules_elems(pre + body + rest, pre.len() as int) == Some(
                (a, (pre.len() + body.len()) as int),
            )
        }),
    decreases a.len(),
{
    let w0 = enc_menu_schedule(a[0]);
    let tail = a.drop_first();
    let wr = enc_menu_schedules_rest(tail);
    let br = seq![']'];
    let body = w0 + wr + br;
    let s = pre + body + rest;
    let p = pre.len() as int;
    vstd::seq_lib::lemma_concat_associative(w0, wr, br);
    vstd::seq_lib::lemma_concat_associative(pre, w0, wr + br);
    assert(pre + body == (pre + w0) + (wr + br));
    vstd::seq_lib::lemma_concat_associative(pre + w0, wr + br, rest);
    let r1 = (wr + br) + rest;
    assert(s == (pre + w0) + r1);
    if tail.len() == 0 {
        assert(wr.len() == 0);
        assert(wr + br =~= br);
        assert(r1 == br + rest);
        lemma_parse_menu_schedule_inverts(pre, a[0], r1);
        let e = p + w0.len();
        assert(s[e] == ']') by {
            assert(r1[0] == br[0]);
        }
        assert(seq![a[0]] =~= a);
    } else {
        let w1 = enc_menu_schedule(tail[0]);
        let wr2 = enc_menu_schedules_rest(tail.drop_first());
        let cm = seq![','];
        assert(wr == cm + w1 + wr2);
        let body2 = w1 + wr2 + br;
        assert(wr + br == cm + body2) by {
            vstd::seq_lib::lemma_concat_associative(cm + w1, wr2, br);
            vstd::seq_lib::lemma_concat_associative(cm, w1, wr2 + br);
            vstd::seq_lib::lemma_concat_associative(w1, wr2, br);
        }
        vstd::seq_lib::lemma_concat_associative(cm, body2, rest);
        assert(r1 == (cm + body2) + rest);
        assert(r1 == cm + (body2 + rest));
        lemma_parse_menu_schedule_inverts(pre, a[0], r1);
        let e = p + w0.len();
        assert(s[e] == ',') by {
            assert(r1[0] == cm[0]);
        }
        let pre2 = (pre + w0) + cm;
        vstd::seq_lib::lemma_concat_associative(pre + w0, cm, body2 + rest);
        assert(s == pre2 + (body2 + rest));
        vstd::seq_lib::lemma_concat_associative(pre2, body2, rest);
        assert(s == (pre2 + body2) + rest);
        lemma_menu_schedules_elems_inverts(pre2, tail, rest);
        assert(seq![a[0]] + tail =~= a);
    }
}

/// Writing a menu schedules collection and reloading it reproduces the collection.
#[verifier::rlimit(100)]
#[verifier::spinoff_prover]
pub proof fn lemma_menu_schedules_round_trip(a: Seq<MenuScheduleV>)
    ensures
        sp_doc_menu_schedules(enc_menu_schedules(a)) == Some(a),
{
    let s = enc_menu_schedules(a);
    if a.len() == 0 {
        assert(s[0] == '[' && s[1] == ']');
        assert(Seq::<MenuScheduleV>::empty() =~= a);
    } else {
        reveal_strlit("{\"id\":");
        let pre2 = seq!['['];
        let w0 = enc_menu_schedule(a[0]);
        let wr = enc_menu_schedules_rest(a.drop_first());
        let br = seq![']'];
        let body = w0 + wr + br;
        assert(s == ((pre2 + w0) + wr) + br);
        vstd::seq_lib::lemma_concat_associative(pre2, w0, wr);
        vstd::seq_lib::lemma_concat_associative(pre2, w0 + wr, br);
        assert(s == pre2 + body) by {
            vstd::seq_lib::lemma_concat_associative(w0, wr, br);
        }
        assert((pre2 + body) + Seq::<char>::empty() =~= pre2 + body);
        assert(s[0] == '[');
        assert(s[1] == '{') by {
            assert(s[1] == w0[0]);
            assert(w0[0] == "{\"id\":"@[0]);
        }
        assert(s[1] != ']');
        lemma_menu_schedules_elems_inverts(pre2, a, Seq::empty());
        assert(s.len() == 1 + body.len());
    }
}

} // verus!
