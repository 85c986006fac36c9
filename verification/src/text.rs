//! Character-level text utilities: decimal integer printing and parsing,
//! character vector helpers, and the grammar of floating-point literals
//! as `str::parse::<f64>` documents it.

use vstd::prelude::*;
use vstd::std_specs::iter::IteratorSpec;

verus! {

broadcast use vstd::string::group_string_axioms;

// ---------- decimal digits ----------

pub open spec fn is_digit(c: char) -> bool {
    48 <= (c as u32) && (c as u32) <= 57
}

pub open spec fn digit_val(c: char) -> nat {
    ((c as u32) - 48) as nat
}

pub open spec fn digit_char(d: nat) -> char {
    if d == 0 {
        '0'
    } else if d == 1 {
        '1'
    } else if d == 2 {
        '2'
    } else if d == 3 {
        '3'
    } else if d == 4 {
        '4'
    } else if d == 5 {
        '5'
    } else if d == 6 {
        '6'
    } else if d == 7 {
        '7'
    } else if d == 8 {
        '8'
    } else {
        '9'
    }
}

/// Decimal digit sequence of `n`, most significant digit first.
pub open spec fn dec_digits(n: nat) -> Seq<char>
    decreases n,
{
    if n < 10 {
        seq![digit_char(n)]
    } else {
        dec_digits(n / 10).push(digit_char(n % 10))
    }
}

/// Decimal text of a signed integer.
pub open spec fn int_chars(i: int) -> Seq<char> {
    if i < 0 {
        seq!['-'] + dec_digits((-i) as nat)
    } else {
        dec_digits(i as nat)
    }
}

/// Numeric value of a sequence of decimal digit characters.
pub open spec fn digits_val(s: Seq<char>) -> nat
    decreases s.len(),
{
    if s.len() == 0 {
        0
    } else {
        digits_val(s.drop_last()) * 10 + digit_val(s.last())
    }
}

/// A non-empty run of decimal digit characters.
pub open spec fn is_digits(s: Seq<char>) -> bool {
    s.len() > 0 && forall|i: int| 0 <= i < s.len() ==> is_digit(#[trigger] s[i])
}

// ---------- integer literals, as str::parse::<i64> accepts them ----------

pub open spec fn int_literal_body(s: Seq<char>) -> Seq<char> {
    if s.len() > 0 && (s[0] == '+' || s[0] == '-') {
        s.skip(1)
    } else {
        s
    }
}

pub open spec fn int_literal_negative(s: Seq<char>) -> bool {
    s.len() > 0 && s[0] == '-'
}

/// The strings `str::parse::<i64>` accepts: an optional sign, then decimal
/// digits, with the value in range for `i64`.
pub open spec fn is_int_literal(s: Seq<char>) -> bool {
    &&& is_digits(int_literal_body(s))
    &&& if int_literal_negative(s) {
        digits_val(int_literal_body(s)) <= 0x8000_0000_0000_0000
    } else {
        digits_val(int_literal_body(s)) <= 0x7fff_ffff_ffff_ffff
    }
}

/// The value an integer literal denotes.
pub open spec fn int_value(s: Seq<char>) -> int {
    if int_literal_negative(s) {
        -(digits_val(int_literal_body(s)) as int)
    } else {
        digits_val(int_literal_body(s)) as int
    }
}

// ---------- float literals, as str::parse::<f64> accepts them ----------

pub open spec fn lower_ascii(c: char) -> char {
    if 'A' <= c && c <= 'Z' {
        (((c as u32) + 32) as u8) as char
    } else {
        c
    }
}

pub open spec fn lower_ascii_seq(s: Seq<char>) -> Seq<char> {
    s.map_values(|c: char| lower_ascii(c))
}

/// First index of `e` or `E` in `s`, if any.
pub open spec fn find_exp_marker(s: Seq<char>) -> Option<int>
    decreases s.len(),
{
    if s.len() == 0 {
        None
    } else if s[0] == 'e' || s[0] == 'E' {
        Some(0)
    } else {
        match find_exp_marker(s.drop_first()) {
            Some(i) => Some(i + 1),
            None => None,
        }
    }
}

/// First index of `.` in `s`, if any.
pub open spec fn find_dot(s: Seq<char>) -> Option<int>
    decreases s.len(),
{
    if s.len() == 0 {
        None
    } else if s[0] == '.' {
        Some(0)
    } else {
        match find_dot(s.drop_first()) {
            Some(i) => Some(i + 1),
            None => None,
        }
    }
}

/// Mantissa part: `Count '.'? | Count? '.' Count | Count`.
pub open spec fn is_float_mantissa(m: Seq<char>) -> bool {
    match find_dot(m) {
        Some(j) => {
            let a = m.take(j);
            let b = m.skip(j + 1);
            ||| (is_digits(a) && b.len() == 0)
            ||| ((a.len() == 0 || is_digits(a)) && is_digits(b))
        },
        None => is_digits(m),
    }
}

/// Exponent part after the `e`/`E`: optional sign, then digits.
pub open spec fn is_float_exponent(x: Seq<char>) -> bool {
    is_digits(int_literal_body(x))
}

pub open spec fn is_float_number(s: Seq<char>) -> bool {
    match find_exp_marker(s) {
        Some(i) => is_float_mantissa(s.take(i)) && is_float_exponent(s.skip(i + 1)),
        None => is_float_mantissa(s),
    }
}

/// The strings `str::parse::<f64>` accepts, as its documentation gives them:
/// an optional sign, then `inf`, `infinity` or `nan` in any letter case, or a
/// decimal number with optional fraction and exponent.
pub open spec fn is_float_literal(s: Seq<char>) -> bool {
    let body = int_literal_body(s);
    ||| lower_ascii_seq(body) == "inf"@
    ||| lower_ascii_seq(body) == "infinity"@
    ||| lower_ascii_seq(body) == "nan"@
    ||| is_float_number(body)
}

/// Whitespace, as the scanners treat it: the Unicode White_Space set, the
/// same characters `char::is_whitespace` and `str::trim` go by.
pub open spec fn is_space(c: char) -> bool {
    let u = c as u32;
    ||| (9 <= u && u <= 13)
    ||| u == 32
    ||| u == 133
    ||| u == 160
    ||| u == 5760
    ||| (8192 <= u && u <= 8202)
    ||| u == 8232
    ||| u == 8233
    ||| u == 8239
    ||| u == 8287
    ||| u == 12288
}

/// End of the run of non-whitespace characters starting at `p`.
pub open spec fn nonspace_run_end(s: Seq<char>, p: int) -> int
    decreases s.len() - p when p <= s.len()
{
    if p < s.len() && !is_space(s[p]) {
        nonspace_run_end(s, p + 1)
    } else {
        p
    }
}

/// End of the run of whitespace characters starting at `p`.
pub open spec fn space_run_end(s: Seq<char>, p: int) -> int
    decreases s.len() - p when p <= s.len()
{
    if p < s.len() && is_space(s[p]) {
        space_run_end(s, p + 1)
    } else {
        p
    }
}

/// End of the run of decimal digits starting at `p`.
pub open spec fn digit_run_end(s: Seq<char>, p: int) -> int
    decreases s.len() - p when p <= s.len()
{
    if p < s.len() && is_digit(s[p]) {
        digit_run_end(s, p + 1)
    } else {
        p
    }
}

pub proof fn lemma_nonspace_run_end_bounds(s: Seq<char>, p: int)
    requires
        0 <= p <= s.len(),
    ensures
        p <= nonspace_run_end(s, p) <= s.len(),
    decreases s.len() - p,
{
    if p < s.len() && !is_space(s[p]) {
        lemma_nonspace_run_end_bounds(s, p + 1);
    }
}

/// Every character of a digit run is a digit.
pub proof fn lemma_digit_run_chars(s: Seq<char>, p: int)
    requires
        0 <= p <= s.len(),
    ensures
        forall|j: int| p <= j < digit_run_end(s, p) ==> is_digit(#[trigger] s[j]),
    decreases s.len() - p,
{
    if p < s.len() && is_digit(s[p]) {
        lemma_digit_run_chars(s, p + 1);
    }
}

// ---------- executable helpers ----------

pub fn is_space_char(c: char) -> (r: bool)
    ensures
        r == is_space(c),
{
    let u = c as u32;
    (9 <= u && u <= 13) || u == 32 || u == 133 || u == 160 || u == 5760 || (8192 <= u && u <= 8202)
        || u == 8232 || u == 8233 || u == 8239 || u == 8287 || u == 12288
}

pub fn is_digit_char(c: char) -> (r: bool)
    ensures
        r == is_digit(c),
{
    let u = c as u32;
    48 <= u && u <= 57
}

/// Copy out one span of a character vector.
pub fn subvec(v: &Vec<char>, a: usize, b: usize) -> (r: Vec<char>)
    requires
        a <= b <= v@.len(),
    ensures
        r@ == v@.subrange(a as int, b as int),
{
    let mut r: Vec<char> = Vec::new();
    let mut i = a;
    while i < b
        invariant
            a <= i <= b <= v@.len(),
            r@ == v@.subrange(a as int, i as int),
        decreases b - i,
    {
        proof {
            assert(v@.subrange(a as int, i as int).push(v@[i as int]) =~= v@.subrange(
                a as int,
                i as int + 1,
            ));
        }
        r.push(v[i]);
        i += 1;
    }
    r
}

/// The characters of a string, in order.
pub fn chars_of(s: &str) -> (r: Vec<char>)
    ensures
        r@ == s@,
{
    let mut it = s.chars();
    let mut r: Vec<char> = Vec::new();
    loop
        invariant
            r@ + it.remaining() == s@,
            it.obeys_prophetic_iter_laws(),
            it.decrease() is Some,
        decreases it.decrease().unwrap(),
    {
        let prev = Ghost(it);
        match it.next() {
            Some(c) => {
                proof {
                    assert(r@.push(c) + it.remaining() =~= r@ + prev@.remaining());
                }
                r.push(c);
            },
            None => {
                proof {
                    assert(r@ =~= s@);
                }
                return r;
            },
        }
    }
}

/// Relies on `String`'s `FromIterator<char>` impl: collecting characters
/// yields the string of exactly those characters in order.
#[verifier::external_body]
pub fn string_from_chars(v: &Vec<char>) -> (r: String)
    ensures
        r@ == v@,
{
    v.iter().collect()
}

/// Character-for-character equality of two character vectors.
pub fn chars_eq(a: &Vec<char>, b: &Vec<char>) -> (r: bool)
    ensures
        r == (a@ == b@),
{
    if a.len() != b.len() {
        return false;
    }
    let mut i: usize = 0;
    while i < a.len()
        invariant
            i <= a.len(),
            a@.len() == b@.len(),
            forall|j: int| 0 <= j < i ==> a@[j] == b@[j],
        decreases a.len() - i,
    {
        if a[i] != b[i] {
            return false;
        }
        i += 1;
    }
    proof {
        assert(a@ =~= b@);
    }
    true
}

/// Decimal digit characters of an unsigned value.
pub fn dec_chars_u64(n: u64) -> (r: Vec<char>)
    ensures
        r@ == dec_digits(n as nat),
    decreases n,
{
    let d: u64 = n % 10;
    let c: char = if d == 0 {
        '0'
    } else if d == 1 {
        '1'
    } else if d == 2 {
        '2'
    } else if d == 3 {
        '3'
    } else if d == 4 {
        '4'
    } else if d == 5 {
        '5'
    } else if d == 6 {
        '6'
    } else if d == 7 {
        '7'
    } else if d == 8 {
        '8'
    } else {
        '9'
    };
    if n < 10 {
        let mut r: Vec<char> = Vec::new();
        r.push(c);
        proof {
            assert(r@ =~= dec_digits(n as nat));
        }
        r
    } else {
        let mut r = dec_chars_u64(n / 10);
        r.push(c);
        proof {
            assert(r@ =~= dec_digits(n as nat));
        }
        r
    }
}

/// Decimal text of a signed value, with a leading minus sign when negative.
pub fn int_chars_i64(i: i64) -> (r: Vec<char>)
    ensures
        r@ == int_chars(i as int),
{
    if i >= 0 {
        dec_chars_u64(i as u64)
    } else {
        let m: u64 = ((-(i + 1)) as u64) + 1;
        assert(m as nat == (-(i as int)) as nat);
        let digits = dec_chars_u64(m);
        let mut r: Vec<char> = Vec::new();
        r.push('-');
        let mut k: usize = 0;
        while k < digits.len()
            invariant
                k <= digits@.len(),
                digits@ == dec_digits((-(i as int)) as nat),
                r@ == seq!['-'] + digits@.take(k as int),
            decreases digits.len() - k,
        {
            let c = digits[k];
            proof {
                assert((seq!['-'] + digits@.take(k as int)).push(c) =~= seq!['-'] + digits@.take(
                    k as int + 1,
                ));
            }
            r.push(c);
            k += 1;
        }
        proof {
            assert(digits@.take(digits@.len() as int) =~= digits@);
        }
        r
    }
}

pub fn scan_nonspace_run(v: &Vec<char>, p: usize) -> (r: usize)
    requires
        p <= v@.len(),
    ensures
        r == nonspace_run_end(v@, p as int),
        p <= r <= v@.len(),
{
    let mut q = p;
    while q < v.len() && !is_space_char(v[q])
        invariant
            p <= q <= v@.len(),
            nonspace_run_end(v@, p as int) == nonspace_run_end(v@, q as int),
        decreases v@.len() - q,
    {
        q += 1;
    }
    q
}

pub fn scan_space_run(v: &Vec<char>, p: usize) -> (r: usize)
    requires
        p <= v@.len(),
    ensures
        r == space_run_end(v@, p as int),
        p <= r <= v@.len(),
{
    let mut q = p;
    while q < v.len() && is_space_char(v[q])
        invariant
            p <= q <= v@.len(),
            space_run_end(v@, p as int) == space_run_end(v@, q as int),
        decreases v@.len() - q,
    {
        q += 1;
    }
    q
}

pub fn scan_digit_run(v: &Vec<char>, p: usize) -> (r: usize)
    requires
        p <= v@.len(),
    ensures
        r == digit_run_end(v@, p as int),
        p <= r <= v@.len(),
{
    let mut q = p;
    while q < v.len() && is_digit_char(v[q])
        invariant
            p <= q <= v@.len(),
            digit_run_end(v@, p as int) == digit_run_end(v@, q as int),
        decreases v@.len() - q,
    {
        q += 1;
    }
    q
}

/// Parse a run of decimal digits as an unsigned 32-bit value, as
/// `str::parse::<u32>` accepts it: digits only, rejecting overflow.
pub fn parse_u32_digits(v: &Vec<char>, a: usize, b: usize) -> (r: Option<u32>)
    requires
        a <= b <= v@.len(),
        is_digits(v@.subrange(a as int, b as int)),
    ensures
        r is Some <==> digits_val(v@.subrange(a as int, b as int)) <= 0xffff_ffff,
        r is Some ==> r.unwrap() as nat == digits_val(v@.subrange(a as int, b as int)),
{
    let mut acc: u32 = 0;
    let mut k = a;
    while k < b
        invariant
            a <= k <= b <= v@.len(),
            is_digits(v@.subrange(a as int, b as int)),
            acc == digits_val(v@.subrange(a as int, k as int)),
        decreases b - k,
    {
        let c = v[k];
        proof {
            assert(v@.subrange(a as int, b as int)[k as int - a as int] == v@[k as int]);
            assert(v@.subrange(a as int, k as int + 1).drop_last() =~= v@.subrange(
                a as int,
                k as int,
            ));
            assert(v@.subrange(a as int, k as int + 1).last() == v@[k as int]);
        }
        let cu = c as u32;
        let d: u32 = cu - 48;
        if acc > 429_496_729 || (acc == 429_496_729 && d > 5) {
            proof {
                lemma_digits_val_take_le(
                    v@.subrange(a as int, b as int),
                    k as int + 1 - a as int,
                );
                assert(v@.subrange(a as int, b as int).take(k as int + 1 - a as int)
                    =~= v@.subrange(a as int, k as int + 1));
            }
            return None;
        }
        acc = acc * 10 + d;
        k += 1;
    }
    Some(acc)
}

/// Lexicographic order on character sequences, by code point.
pub open spec fn lex_le(a: Seq<char>, b: Seq<char>) -> bool
    decreases a.len(),
{
    if a.len() == 0 {
        true
    } else if b.len() == 0 {
        false
    } else if (a[0] as u32) < (b[0] as u32) {
        true
    } else if (a[0] as u32) > (b[0] as u32) {
        false
    } else {
        lex_le(a.drop_first(), b.drop_first())
    }
}

/// Compare two character vectors lexicographically.
pub fn chars_le(a: &Vec<char>, b: &Vec<char>) -> (r: bool)
    ensures
        r == lex_le(a@, b@),
{
    let mut i: usize = 0;
    proof {
        assert(a@.skip(0) =~= a@);
        assert(b@.skip(0) =~= b@);
    }
    loop
        invariant
            i <= a@.len(),
            i <= b@.len(),
            lex_le(a@, b@) == lex_le(a@.skip(i as int), b@.skip(i as int)),
        decreases a@.len() - i,
    {
        if i >= a.len() {
            return true;
        }
        if i >= b.len() {
            return false;
        }
        let x = a[i] as u32;
        let y = b[i] as u32;
        if x < y {
            return true;
        }
        if x > y {
            return false;
        }
        proof {
            assert(a@.skip(i as int).drop_first() =~= a@.skip(i as int + 1));
            assert(b@.skip(i as int).drop_first() =~= b@.skip(i as int + 1));
        }
        i += 1;
    }
}

/// Append all characters of a vector.
pub fn append_chars(out: &mut Vec<char>, s: &Vec<char>)
    ensures
        final(out)@ == old(out)@ + s@,
{
    let mut i: usize = 0;
    while i < s.len()
        invariant
            i <= s@.len(),
            out@ == old(out)@ + s@.take(i as int),
        decreases s@.len() - i,
    {
        proof {
            assert((old(out)@ + s@.take(i as int)).push(s@[i as int]) =~= old(out)@ + s@.take(
                i as int + 1,
            ));
        }
        out.push(s[i]);
        i += 1;
    }
    proof {
        assert(s@.take(s@.len() as int) =~= s@);
    }
}

/// Append all characters of a string.
pub fn append_str(out: &mut Vec<char>, s: &str)
    ensures
        final(out)@ == old(out)@ + s@,
{
    let cs = chars_of(s);
    append_chars(out, &cs);
}

/// A prefix of a digit string never exceeds the whole string in value.
pub proof fn lemma_digits_val_take_le(s: Seq<char>, j: int)
    requires
        0 <= j <= s.len(),
    ensures
        digits_val(s.take(j)) <= digits_val(s),
    decreases s.len() - j,
{
    if j == s.len() {
        assert(s.take(j) =~= s);
    } else {
        assert(s.take(j + 1).drop_last() =~= s.take(j));
        assert(s.take(j + 1).last() == s[j]);
        lemma_digits_val_take_le(s, j + 1);
    }
}

/// Parse a signed 64-bit integer exactly as `str::parse::<i64>` does:
/// optional sign, then decimal digits, rejecting values out of range.
pub fn parse_i64_chars(v: &Vec<char>) -> (r: Option<i64>)
    ensures
        r is Some <==> is_int_literal(v@),
        r is Some ==> r.unwrap() as int == int_value(v@),
{
    let n = v.len();
    let neg: bool;
    let start: usize;
    if n > 0 && (v[0] == '+' || v[0] == '-') {
        neg = v[0] == '-';
        start = 1;
    } else {
        neg = false;
        start = 0;
    }
    if start >= n {
        return None;
    }
    // Both limits share the same quotient by ten; only the last digit differs.
    let last_digit_limit: u64 = if neg {
        8
    } else {
        7
    };
    let mut acc: u64 = 0;
    let mut k = start;
    while k < n
        invariant
            start <= k <= n,
            start <= 1,
            n == v@.len(),
            start == 1 ==> v@[0] == '+' || v@[0] == '-',
            start == 1 <==> (n > 0 && (v@[0] == '+' || v@[0] == '-')),
            neg <==> int_literal_negative(v@),
            last_digit_limit == if neg {
                8u64
            } else {
                7u64
            },
            forall|j: int| start <= j < k ==> is_digit(#[trigger] v@[j]),
            acc == digits_val(v@.subrange(start as int, k as int)),
            acc <= if neg {
                0x8000_0000_0000_0000u64
            } else {
                0x7fff_ffff_ffff_ffffu64
            },
        decreases n - k,
    {
        let c = v[k];
        let cu = c as u32;
        if cu < 48 || cu > 57 {
            proof {
                assert(start == 0 || start == 1);
                if start == 1 {
                    assert(int_literal_body(v@) == v@.skip(1));
                    assert(v@.skip(1) =~= v@.subrange(1, n as int));
                } else {
                    assert(int_literal_body(v@) == v@);
                    assert(v@ =~= v@.subrange(0, n as int));
                }
                assert(!is_digit(v@[k as int]));
                assert(int_literal_body(v@)[k as int - start as int] == v@[k as int]);
            }
            return None;
        }
        let d: u64 = (cu - 48) as u64;
        if acc > 922_337_203_685_477_580 || (acc == 922_337_203_685_477_580 && d
            > last_digit_limit) {
            proof {
                assert(v@.subrange(start as int, k as int + 1).drop_last() =~= v@.subrange(
                    start as int,
                    k as int,
                ));
                assert(v@.subrange(start as int, k as int + 1).last() == v@[k as int]);
                lemma_digits_val_take_le(int_literal_body(v@), k as int + 1 - start as int);
                assert(int_literal_body(v@) =~= v@.subrange(start as int, n as int));
                assert(int_literal_body(v@).take(k as int + 1 - start as int) =~= v@.subrange(
                    start as int,
                    k as int + 1,
                ));
            }
            return None;
        }
        proof {
            assert(v@.subrange(start as int, k as int + 1).drop_last() =~= v@.subrange(
                start as int,
                k as int,
            ));
            assert(v@.subrange(start as int, k as int + 1).last() == v@[k as int]);
        }
        acc = acc * 10 + d;
        k += 1;
    }
    proof {
        assert(v@.subrange(start as int, n as int) =~= int_literal_body(v@));
        assert(is_digits(int_literal_body(v@)));
    }
    if neg {
        if acc == 0x8000_0000_0000_0000 {
            Some(i64::MIN)
        } else {
            Some(-(acc as i64))
        }
    } else {
        Some(acc as i64)
    }
}

} // verus!
