//! Character-sequence ordering and small numeric/text conversions.
//!
//! Activities are ordered by their text fields among others, so the crate
//! needs a total order on strings (code-point lexicographic, the same order
//! `str` has) together with enough algebra about it to keep containers
//! sorted.  The formatting helpers turn numbers back into the fixed-width
//! text the editor buffers show.

use vstd::prelude::*;

verus! {

/// Three-way comparison outcome.
#[derive(Clone, Copy, PartialEq, Eq, Structural, Debug)]
pub enum Cmp {
    Lt,
    Eq,
    Gt,
}

/// Lexicographic three-way comparison of character sequences by code point.
pub open spec fn str_cmp(a: Seq<char>, b: Seq<char>) -> Cmp
    decreases a.len(),
{
    if a.len() == 0 && b.len() == 0 {
        Cmp::Eq
    } else if a.len() == 0 {
        Cmp::Lt
    } else if b.len() == 0 {
        Cmp::Gt
    } else if (a[0] as u32) < (b[0] as u32) {
        Cmp::Lt
    } else if (b[0] as u32) < (a[0] as u32) {
        Cmp::Gt
    } else {
        str_cmp(a.drop_first(), b.drop_first())
    }
}

pub open spec fn str_lt(a: Seq<char>, b: Seq<char>) -> bool {
    str_cmp(a, b) == Cmp::Lt
}

/// Distinct characters have distinct code points.
proof fn lemma_char_cast_injective(c: char, d: char)
    requires
        c as u32 == d as u32,
    ensures
        c == d,
{
}

/// Comparing a common-prefix tail is comparing the wholes.
proof fn lemma_str_cmp_skip(a: Seq<char>, b: Seq<char>, i: int)
    requires
        0 <= i <= a.len(),
        i <= b.len(),
        forall|j: int| 0 <= j < i ==> a[j] == b[j],
    ensures
        str_cmp(a, b) == str_cmp(a.skip(i), b.skip(i)),
    decreases i,
{
    if i == 0 {
        assert(a.skip(0) =~= a);
        assert(b.skip(0) =~= b);
    } else {
        assert(a[0] == b[0]);
        lemma_str_cmp_skip(a.drop_first(), b.drop_first(), i - 1);
        assert(a.drop_first().skip(i - 1) =~= a.skip(i));
        assert(b.drop_first().skip(i - 1) =~= b.skip(i));
    }
}

/// The comparison is `Eq` exactly on equal sequences.
pub proof fn lemma_str_cmp_eq(a: Seq<char>, b: Seq<char>)
    ensures
        str_cmp(a, b) == Cmp::Eq <==> a == b,
    decreases a.len(),
{
    if a.len() == 0 && b.len() == 0 {
        assert(a =~= b);
        assert(str_cmp(a, b) == Cmp::Eq);
    } else if a.len() == 0 || b.len() == 0 {
        assert(str_cmp(a, b) != Cmp::Eq);
        assert(a.len() != b.len());
    } else if a[0] == b[0] {
        lemma_str_cmp_eq(a.drop_first(), b.drop_first());
        assert(str_cmp(a, b) == str_cmp(a.drop_first(), b.drop_first()));
        if str_cmp(a, b) == Cmp::Eq {
            assert(a.drop_first() == b.drop_first());
            assert(a =~= seq![a[0]] + a.drop_first());
            assert(b =~= seq![b[0]] + b.drop_first());
            assert(a == b);
        } else {
            assert(a.drop_first() != b.drop_first());
            if a == b {
                assert(a.drop_first() =~= b.drop_first());
            }
        }
    } else {
        if (a[0] as u32) == (b[0] as u32) {
            lemma_char_cast_injective(a[0], b[0]);
        }
        assert((a[0] as u32) != (b[0] as u32));
        assert(str_cmp(a, b) != Cmp::Eq);
        assert(a != b);
    }
}

/// `Lt` one way round is `Gt` the other way round.
pub proof fn lemma_str_cmp_antisym(a: Seq<char>, b: Seq<char>)
    ensures
        str_cmp(a, b) == Cmp::Lt <==> str_cmp(b, a) == Cmp::Gt,
    decreases a.len(),
{
    if a.len() == 0 && b.len() == 0 {
        assert(str_cmp(a, b) == Cmp::Eq && str_cmp(b, a) == Cmp::Eq);
    } else if a.len() == 0 {
        assert(str_cmp(a, b) == Cmp::Lt && str_cmp(b, a) == Cmp::Gt);
    } else if b.len() == 0 {
        assert(str_cmp(a, b) == Cmp::Gt && str_cmp(b, a) == Cmp::Lt);
    } else if (a[0] as u32) < (b[0] as u32) {
        assert(str_cmp(a, b) == Cmp::Lt && str_cmp(b, a) == Cmp::Gt);
    } else if (b[0] as u32) < (a[0] as u32) {
        assert(str_cmp(a, b) == Cmp::Gt && str_cmp(b, a) == Cmp::Lt);
    } else {
        lemma_str_cmp_antisym(a.drop_first(), b.drop_first());
        assert(str_cmp(a, b) == str_cmp(a.drop_first(), b.drop_first()));
        assert(str_cmp(b, a) == str_cmp(b.drop_first(), a.drop_first()));
    }
}

/// The strict order is transitive.
pub proof fn lemma_str_lt_trans(a: Seq<char>, b: Seq<char>, c: Seq<char>)
    requires
        str_lt(a, b),
        str_lt(b, c),
    ensures
        str_lt(a, c),
    decreases a.len() + b.len() + c.len(),
{
    assert(b.len() > 0 && c.len() > 0);
    if a.len() == 0 {
        assert(str_cmp(a, c) == Cmp::Lt);
    } else {
        let x = a[0] as u32;
        let y = b[0] as u32;
        let z = c[0] as u32;
        assert(x < y || (x == y && str_lt(a.drop_first(), b.drop_first())));
        assert(y < z || (y == z && str_lt(b.drop_first(), c.drop_first())));
        if x < z {
            assert(str_cmp(a, c) == Cmp::Lt);
        } else {
            assert(x == y && y == z);
            lemma_str_lt_trans(a.drop_first(), b.drop_first(), c.drop_first());
            assert(str_cmp(a, c) == str_cmp(a.drop_first(), c.drop_first()));
        }
    }
}

/// Exec counterpart of `str_cmp`.
pub fn compare_str(a: &str, b: &str) -> (r: Cmp)
    ensures
        r == str_cmp(a@, b@),
{
    let alen = a.unicode_len();
    let blen = b.unicode_len();
    let mut i: usize = 0;
    while i < alen && i < blen
        invariant
            alen == a@.len(),
            blen == b@.len(),
            i <= alen,
            i <= blen,
            forall|j: int| 0 <= j < i ==> a@[j] == b@[j],
        decreases alen - i,
    {
        let ca = a.get_char(i);
        let cb = b.get_char(i);
        if (ca as u32) < (cb as u32) {
            proof {
                lemma_str_cmp_skip(a@, b@, i as int);
            }
            return Cmp::Lt;
        }
        if (cb as u32) < (ca as u32) {
            proof {
                lemma_str_cmp_skip(a@, b@, i as int);
            }
            return Cmp::Gt;
        }
        proof {
            lemma_char_cast_injective(ca, cb);
        }
        assert(a@[i as int] == b@[i as int]);
        i = i + 1;
    }
    proof {
        lemma_str_cmp_skip(a@, b@, i as int);
    }
    if alen < blen {
        Cmp::Lt
    } else if blen < alen {
        Cmp::Gt
    } else {
        Cmp::Eq
    }
}

/// The character for one decimal digit.
pub open spec fn digit_char(d: int) -> char {
    if d == 0 {
        '0'
    } else if d == 1 {
        '1'
    } else if d == 2 {
        '2'
    } else if d == 3 {
        '3'
    } else if d == 4 {
        '4'
    } else if d == 5 {
        '5'
    } else if d == 6 {
        '6'
    } else if d == 7 {
        '7'
    } else if d == 8 {
        '8'
    } else {
        '9'
    }
}

/// Decimal digits of a non-negative number, most significant first.
pub open spec fn spec_decimal(n: int) -> Seq<char>
    decreases n,
{
    if n < 10 {
        seq![digit_char(n)]
    } else {
        spec_decimal(n / 10) + seq![digit_char(n % 10)]
    }
}

fn digit_str(d: u32) -> (r: &'static str)
    requires
        d < 10,
    ensures
        r@ =~= seq![digit_char(d as int)],
{
    proof {
        reveal_strlit("0");
        reveal_strlit("1");
        reveal_strlit("2");
        reveal_strlit("3");
        reveal_strlit("4");
        reveal_strlit("5");
        reveal_strlit("6");
        reveal_strlit("7");
        reveal_strlit("8");
        reveal_strlit("9");
    }
    if d == 0 {
        "0"
    } else if d == 1 {
        "1"
    } else if d == 2 {
        "2"
    } else if d == 3 {
        "3"
    } else if d == 4 {
        "4"
    } else if d == 5 {
        "5"
    } else if d == 6 {
        "6"
    } else if d == 7 {
        "7"
    } else if d == 8 {
        "8"
    } else {
        "9"
    }
}

/// Decimal rendering of `n`, the exec counterpart of `spec_decimal`.
pub fn fmt_u32(n: u32) -> (r: String)
    ensures
        r@ == spec_decimal(n as int),
    decreases n,
{
    if n < 10 {
        let s = String::from_str(digit_str(n));
        proof {
            assert(s@ =~= spec_decimal(n as int));
        }
        s
    } else {
        let mut s = fmt_u32(n / 10);
        s.append(digit_str(n % 10));
        proof {
            assert(s@ =~= spec_decimal(n as int));
        }
        s
    }
}

/// Two-digit zero-padded rendering, as in clock times.
pub open spec fn spec_two_digits(n: int) -> Seq<char> {
    if n < 10 {
        seq!['0'] + seq![digit_char(n)]
    } else {
        spec_decimal(n)
    }
}

pub fn fmt_two_digits(n: u8) -> (r: String)
    ensures
        r@ == spec_two_digits(n as int),
{
    if n < 10 {
        let mut s = String::from_str("0");
        s.append(digit_str(n as u32));
        proof {
            reveal_strlit("0");
            assert(s@ =~= spec_two_digits(n as int));
        }
        s
    } else {
        fmt_u32(n as u32)
    }
}

pub fn fmt_two_digits_u32(n: u32) -> (r: String)
    ensures
        r@ == spec_two_digits(n as int),
{
    if n < 10 {
        let mut s = String::from_str("0");
        s.append(digit_str(n));
        proof {
            reveal_strlit("0");
            assert(s@ =~= spec_two_digits(n as int));
        }
        s
    } else {
        fmt_u32(n)
    }
}

/// A span of minutes as `HH:MM` (more digits when the hours outgrow two).
pub open spec fn spec_fmt_duration(minutes: int) -> Seq<char> {
    spec_two_digits(minutes / 60) + seq![':'] + spec_two_digits(minutes % 60)
}

pub fn fmt_duration(minutes: u64) -> (r: String)
    requires
        minutes < 0x1_0000_0000,
    ensures
        r@ == spec_fmt_duration(minutes as int),
{
    let h = minutes / 60;
    let m = minutes % 60;
    let mut s = fmt_two_digits_u32(h as u32);
    s.append(":");
    s.append(fmt_two_digits_u32(m as u32).as_str());
    proof {
        reveal_strlit(":");
        assert(s@ =~= spec_fmt_duration(minutes as int));
    }
    s
}

/// Four-digit zero-padded rendering for years within the calendar's range;
/// wider numbers keep all their digits.
pub open spec fn spec_four_digits(n: int) -> Seq<char> {
    if n < 10 {
        seq!['0', '0', '0'] + spec_decimal(n)
    } else if n < 100 {
        seq!['0', '0'] + spec_decimal(n)
    } else if n < 1000 {
        seq!['0'] + spec_decimal(n)
    } else {
        spec_decimal(n)
    }
}

pub fn fmt_four_digits(n: u32) -> (r: String)
    ensures
        r@ == spec_four_digits(n as int),
{
    proof {
        reveal_strlit("000");
        reveal_strlit("00");
        reveal_strlit("0");
    }
    if n < 10 {
        let mut s = String::from_str("000");
        s.append(fmt_u32(n).as_str());
        proof {
            assert(s@ =~= spec_four_digits(n as int));
        }
        s
    } else if n < 100 {
        let mut s = String::from_str("00");
        s.append(fmt_u32(n).as_str());
        proof {
            assert(s@ =~= spec_four_digits(n as int));
        }
        s
    } else if n < 1000 {
        let mut s = String::from_str("0");
        s.append(fmt_u32(n).as_str());
        proof {
            assert(s@ =~= spec_four_digits(n as int));
        }
        s
    } else {
        fmt_u32(n)
    }
}

pub open spec fn is_digit(c: char) -> bool {
    48 <= c as u32 <= 57
}

pub open spec fn digit_val(c: char) -> int {
    c as u32 - 48
}

pub open spec fn all_digits(s: Seq<char>) -> bool {
    forall|i: int| 0 <= i < s.len() ==> is_digit(#[trigger] s[i])
}

/// The number a digit string denotes.
pub open spec fn digits_val(s: Seq<char>) -> int
    decreases s.len(),
{
    if s.len() == 0 {
        0
    } else {
        digits_val(s.drop_last()) * 10 + digit_val(s.last())
    }
}

/// What a `u8` accepts: an optional plus sign, then digits, value at most
/// 255.
pub open spec fn u8_text_ok(s: Seq<char>) -> bool {
    if s.len() > 0 && s[0] == '+' {
        s.len() > 1 && all_digits(s.skip(1)) && digits_val(s.skip(1)) <= 255
    } else {
        s.len() > 0 && all_digits(s) && digits_val(s) <= 255
    }
}

pub open spec fn u8_text_val(s: Seq<char>) -> int {
    if s.len() > 0 && s[0] == '+' {
        digits_val(s.skip(1))
    } else {
        digits_val(s)
    }
}

/// Digits after an optional plus sign, as far as they denote a `u8`.
pub fn parse_u8(s: &str) -> (r: Option<u8>)
    ensures
        match r {
            Some(v) => u8_text_ok(s@) && v == u8_text_val(s@),
            None => !u8_text_ok(s@),
        },
{
    let n = s.unicode_len();
    if n == 0 {
        return None;
    }
    let first = s.get_char(0);
    let start: usize = if first == '+' {
        1
    } else {
        0
    };
    let ghost body = if first == '+' {
        s@.skip(1)
    } else {
        s@
    };
    if start >= n {
        return None;
    }
    let mut acc: u32 = 0;
    let mut i: usize = start;
    while i < n
        invariant
            start <= i <= n,
            n == s@.len(),
            start == if s@[0] == '+' {
                1int
            } else {
                0int
            },
            s@.len() > 0,
            body == if s@[0] == '+' {
                s@.skip(1)
            } else {
                s@
            },
            forall|k: int| 0 <= k < i - start ==> is_digit(#[trigger] body[k]),
            if digits_val(body.take(i - start)) <= 255 {
                acc == digits_val(body.take(i - start))
            } else {
                acc == 300 && digits_val(body.take(i - start)) > 255
            },
        decreases n - i,
    {
        let c = s.get_char(i);
        let cv = c as u32;
        proof {
            assert(body[i - start] == s@[i as int]);
        }
        if !(48 <= cv && cv <= 57) {
            proof {
                assert(!is_digit(body[i - start]));
            }
            return None;
        }
        let d = cv - 48;
        proof {
            assert(body.take(i - start + 1).drop_last() =~= body.take(i - start));
            assert(body.take(i - start + 1).last() == body[i - start]);
        }
        if acc * 10 + d > 255 {
            acc = 300;
        } else {
            acc = acc * 10 + d;
        }
        i = i + 1;
    }
    proof {
        assert(body.take(n - start) =~= body);
    }
    if acc <= 255 {
        Some(acc as u8)
    } else {
        None
    }
}

/// What an `i32` accepts: an optional sign, then digits, within range.
pub open spec fn i32_text_ok(s: Seq<char>) -> bool {
    if s.len() > 0 && (s[0] == '+' || s[0] == '-') {
        s.len() > 1 && all_digits(s.skip(1)) && (if s[0] == '-' {
            digits_val(s.skip(1)) <= 0x8000_0000
        } else {
            digits_val(s.skip(1)) <= 0x7fff_ffff
        })
    } else {
        s.len() > 0 && all_digits(s) && digits_val(s) <= 0x7fff_ffff
    }
}

pub open spec fn i32_text_val(s: Seq<char>) -> int {
    if s.len() > 0 && s[0] == '-' {
        -digits_val(s.skip(1))
    } else if s.len() > 0 && s[0] == '+' {
        digits_val(s.skip(1))
    } else {
        digits_val(s)
    }
}

/// Digits after an optional sign, as far as they denote an `i32`.
pub fn parse_i32(s: &str) -> (r: Option<i32>)
    ensures
        match r {
            Some(v) => i32_text_ok(s@) && v == i32_text_val(s@),
            None => !i32_text_ok(s@),
        },
{
    let n = s.unicode_len();
    if n == 0 {
        return None;
    }
    let first = s.get_char(0);
    let negative = first == '-';
    let start: usize = if first == '+' || first == '-' {
        1
    } else {
        0
    };
    let ghost body = s@.skip(start as int);
    proof {
        if start == 0 {
            assert(body =~= s@);
        }
    }
    if start >= n {
        return None;
    }
    let mut acc: u64 = 0;
    let mut i: usize = start;
    while i < n
        invariant
            start <= i <= n,
            n == s@.len(),
            s@.len() > 0,
            start == if s@[0] == '+' || s@[0] == '-' {
                1int
            } else {
                0int
            },
            negative == (s@[0] == '-'),
            body == s@.skip(start as int),
            forall|k: int| 0 <= k < i - start ==> is_digit(#[trigger] body[k]),
            if digits_val(body.take(i - start)) <= 0x8000_0000 {
                acc == digits_val(body.take(i - start))
            } else {
                acc == 0x1_0000_0000 && digits_val(body.take(i - start)) > 0x8000_0000
            },
        decreases n - i,
    {
        let c = s.get_char(i);
        let cv = c as u32;
        proof {
            assert(body[i - start] == s@[i as int]);
        }
        if !(48 <= cv && cv <= 57) {
            proof {
                assert(!is_digit(body[i - start]));
            }
            return None;
        }
        let d = (cv - 48) as u64;
        proof {
            assert(body.take(i - start + 1).drop_last() =~= body.take(i - start));
            assert(body.take(i - start + 1).last() == body[i - start]);
        }
        if acc * 10 + d > 0x8000_0000 {
            acc = 0x1_0000_0000;
        } else {
            acc = acc * 10 + d;
        }
        i = i + 1;
    }
    proof {
        assert(body.take(n - start) =~= body);
    }
    if negative {
        if acc <= 0x8000_0000 {
            Some((-(acc as i64)) as i32)
        } else {
            None
        }
    } else {
        if acc <= 0x7fff_ffff {
            Some(acc as i32)
        } else {
            None
        }
    }
}

/// ASCII letters compared without case: the code point with upper-case
/// letters shifted onto their lower-case forms.
pub open spec fn lower_code(c: char) -> int {
    if 65 <= c as u32 <= 90 {
        c as u32 + 32
    } else {
        c as u32 as int
    }
}

pub open spec fn eq_ignore_case(a: Seq<char>, b: Seq<char>) -> bool {
    a.len() == b.len() && forall|i: int|
        0 <= i < a.len() ==> lower_code(#[trigger] a[i]) == lower_code(#[trigger] b[i])
}

/// ASCII-case-insensitive equality of two strings.
pub fn str_eq_ignore_case(a: &str, b: &str) -> (r: bool)
    ensures
        r == eq_ignore_case(a@, b@),
{
    let alen = a.unicode_len();
    let blen = b.unicode_len();
    if alen != blen {
        return false;
    }
    let mut i: usize = 0;
    while i < alen
        invariant
            i <= alen,
            alen == a@.len(),
            alen == b@.len(),
            forall|k: int| 0 <= k < i ==> lower_code(#[trigger] a@[k]) == lower_code(b@[k]),
        decreases alen - i,
    {
        let ca = a.get_char(i) as u32;
        let cb = b.get_char(i) as u32;
        let la = if 65 <= ca && ca <= 90 {
            ca + 32
        } else {
            ca
        };
        let lb = if 65 <= cb && cb <= 90 {
            cb + 32
        } else {
            cb
        };
        if la != lb {
            return false;
        }
        i = i + 1;
    }
    true
}

pub open spec fn is_space(c: char) -> bool {
    c == ' ' || c == '\t' || c == '\n' || c == '\r'
}

/// The index of the first character satisfying no-space from the left.
pub open spec fn trim_start_idx(s: Seq<char>) -> int
    decreases s.len(),
{
    if s.len() == 0 {
        0
    } else if is_space(s[0]) {
        1 + trim_start_idx(s.drop_first())
    } else {
        0
    }
}

/// The length of the string once trailing spaces go.
pub open spec fn trim_end_idx(s: Seq<char>) -> int
    decreases s.len(),
{
    if s.len() == 0 {
        0
    } else if is_space(s.last()) {
        trim_end_idx(s.drop_last())
    } else {
        s.len() as int
    }
}

/// The string with surrounding blanks removed.
pub open spec fn spec_trim(s: Seq<char>) -> Seq<char> {
    if trim_start_idx(s) <= trim_end_idx(s) {
        s.subrange(trim_start_idx(s), trim_end_idx(s))
    } else {
        Seq::empty()
    }
}

/// `trim_start_idx` is the first non-blank position.
proof fn lemma_trim_start(s: Seq<char>, i: int)
    requires
        0 <= i <= s.len(),
        forall|k: int| 0 <= k < i ==> is_space(#[trigger] s[k]),
        i < s.len() ==> !is_space(s[i]),
    ensures
        trim_start_idx(s) == i,
    decreases i,
{
    if i > 0 {
        let t = s.drop_first();
        assert(forall|k: int| 0 <= k < t.len() ==> (#[trigger] t[k]) == s[k + 1]);
        lemma_trim_start(t, i - 1);
    }
}

/// `trim_end_idx` is one past the last non-blank position.
proof fn lemma_trim_end(s: Seq<char>, i: int)
    requires
        0 <= i <= s.len(),
        forall|k: int| i <= k < s.len() ==> is_space(#[trigger] s[k]),
        i > 0 ==> !is_space(s[i - 1]),
    ensures
        trim_end_idx(s) == i,
    decreases s.len() - i,
{
    if i < s.len() {
        let t = s.drop_last();
        assert(forall|k: int| 0 <= k < t.len() ==> (#[trigger] t[k]) == s[k]);
        lemma_trim_end(t, i);
    }
}

/// Trailing-blank trimming never reaches past the end.
proof fn lemma_trim_end_le(s: Seq<char>)
    ensures
        0 <= trim_end_idx(s) <= s.len(),
    decreases s.len(),
{
    if s.len() > 0 && is_space(s.last()) {
        lemma_trim_end_le(s.drop_last());
    }
}

/// The string with surrounding blanks removed, as a borrowed slice.
pub fn trim(s: &str) -> (r: &str)
    ensures
        r@ == spec_trim(s@),
{
    let n = s.unicode_len();
    let mut a: usize = 0;
    let mut stop = false;
    while !stop && a < n
        invariant
            a <= n,
            n == s@.len(),
            forall|k: int| 0 <= k < a ==> is_space(#[trigger] s@[k]),
            stop ==> a < n && !is_space(s@[a as int]),
        decreases n - a + (if stop { 0int } else { 1int }),
    {
        let c = s.get_char(a);
        if c == ' ' || c == '\t' || c == '\n' || c == '\r' {
            a = a + 1;
        } else {
            stop = true;
        }
    }
    proof {
        lemma_trim_start(s@, a as int);
    }
    let mut b: usize = n;
    let mut stop2 = false;
    while !stop2 && b > a
        invariant
            a <= b <= n,
            n == s@.len(),
            forall|k: int| b <= k < n ==> is_space(#[trigger] s@[k]),
            stop2 ==> b > a && !is_space(s@[b - 1]),
            forall|k: int| 0 <= k < a ==> is_space(#[trigger] s@[k]),
            a < n ==> !is_space(s@[a as int]),
        decreases b + (if stop2 { 0int } else { 1int }),
    {
        let c = s.get_char(b - 1);
        if c == ' ' || c == '\t' || c == '\n' || c == '\r' {
            b = b - 1;
        } else {
            stop2 = true;
        }
    }
    proof {
        if b == a {
            assert(a == n);
            lemma_trim_end_le(s@);
            assert(spec_trim(s@) =~= Seq::<char>::empty());
        } else {
            lemma_trim_end(s@, b as int);
        }
    }
    let r = s.substring_char(a, b);
    proof {
        if b == a {
            assert(r@ =~= Seq::<char>::empty());
        }
    }
    r
}

/// The first position of `c`, if it occurs.
pub open spec fn find_char_at(s: Seq<char>, c: char) -> Option<int>
    decreases s.len(),
{
    if s.len() == 0 {
        None
    } else if s[0] == c {
        Some(0int)
    } else {
        match find_char_at(s.drop_first(), c) {
            Some(i) => Some(i + 1),
            None => None,
        }
    }
}

/// When `i` is the first position of `c`, `find_char_at` names it.
pub proof fn lemma_find_char_at(s: Seq<char>, c: char, i: int)
    requires
        0 <= i <= s.len(),
        forall|k: int| 0 <= k < i ==> (#[trigger] s[k]) != c,
        i < s.len() ==> s[i] == c,
    ensures
        find_char_at(s, c) == if i < s.len() {
            Some(i)
        } else {
            None::<int>
        },
    decreases i,
{
    if i > 0 {
        let t = s.drop_first();
        assert(forall|k: int| 0 <= k < t.len() ==> (#[trigger] t[k]) == s[k + 1]);
        lemma_find_char_at(t, c, i - 1);
    }
}

/// The first position of `c` in the string, if it occurs.
pub fn find_char(s: &str, c: char) -> (r: Option<usize>)
    ensures
        find_char_at(s@, c) == match r {
            Some(i) => Some(i as int),
            None => None::<int>,
        },
        match r {
            Some(i) => i < s@.len() && s@[i as int] == c,
            None => true,
        },
{
    let n = s.unicode_len();
    let mut i: usize = 0;
    while i < n
        invariant
            i <= n,
            n == s@.len(),
            forall|k: int| 0 <= k < i ==> (#[trigger] s@[k]) != c,
        decreases n - i,
    {
        if s.get_char(i) == c {
            proof {
                lemma_find_char_at(s@, c, i as int);
            }
            return Some(i);
        }
        i = i + 1;
    }
    proof {
        lemma_find_char_at(s@, c, n as int);
    }
    None
}

/// A time of day as the editor shows it: `HH:MM`.
pub open spec fn spec_fmt_time(t: crate::datetime::Time) -> Seq<char> {
    spec_two_digits(t.hour as int) + seq![':'] + spec_two_digits(t.minute as int)
}

pub fn fmt_time(t: &crate::datetime::Time) -> (r: String)
    ensures
        r@ == spec_fmt_time(*t),
{
    let mut s = fmt_two_digits(t.hour);
    s.append(":");
    s.append(fmt_two_digits(t.minute).as_str());
    proof {
        reveal_strlit(":");
        assert(s@ =~= spec_fmt_time(*t));
    }
    s
}

/// A signed year: four digits inside the calendar's range, a minus sign in
/// front of negative years.
pub open spec fn spec_fmt_year(y: int) -> Seq<char> {
    if y < 0 {
        seq!['-'] + spec_four_digits(-y)
    } else {
        spec_four_digits(y)
    }
}

/// A calendar date as the editor shows it: `DD/MM/YYYY`.
pub open spec fn spec_fmt_date(d: crate::datetime::Date) -> Seq<char> {
    spec_two_digits(d.day as int) + seq!['/'] + spec_two_digits(d.month as int) + seq!['/']
        + spec_fmt_year(d.year as int)
}

pub fn fmt_date(d: &crate::datetime::Date) -> (r: String)
    ensures
        r@ == spec_fmt_date(*d),
{
    proof {
        reveal_strlit("/");
        reveal_strlit("-");
    }
    let mut s = fmt_two_digits(d.day);
    s.append("/");
    s.append(fmt_two_digits(d.month).as_str());
    s.append("/");
    if d.year < 0 {
        s.append("-");
        let m = (-(d.year as i64)) as u32;
        s.append(fmt_four_digits(m).as_str());
    } else {
        s.append(fmt_four_digits(d.year as u32).as_str());
    }
    proof {
        assert(s@ =~= spec_fmt_date(*d));
    }
    s
}

} // verus!
