//! Verified text utilities: string equality, signed-integer and decimal
//! grammars, and start-timestamp normalization.

use vstd::prelude::*;

verus! {

/// Executable equality of string slices, by characters.
pub fn str_eq(a: &str, b: &str) -> (r: bool)
    ensures
        r == (a@ == b@),
{
    let alen = a.unicode_len();
    let blen = b.unicode_len();
    if alen != blen {
        assert(a@ != b@) by {
            assert(a@.len() != b@.len());
        }
        return false;
    }
    let mut i: usize = 0;
    while i < alen
        invariant
            alen == a@.len(),
            blen == b@.len(),
            alen == blen,
            i <= alen,
            forall|j: int| 0 <= j < i ==> a@[j] == b@[j],
        decreases alen - i,
    {
        if a.get_char(i) != b.get_char(i) {
            return false;
        }
        i += 1;
    }
    proof {
        assert(a@ =~= b@);
    }
    true
}

/// A decimal digit, `'0'` through `'9'`.
pub open spec fn is_digit(c: char) -> bool {
    48 <= c as int && c as int <= 57
}

/// The numeric value of a decimal digit.
pub open spec fn digit_val(c: char) -> int {
    c as int - 48
}

/// Every character of `s` is a decimal digit.
pub open spec fn all_digits(s: Seq<char>) -> bool {
    forall|i: int| 0 <= i < s.len() ==> is_digit(s[i])
}

/// The value of a digit string read in base ten.
pub open spec fn digits_val(s: Seq<char>) -> int
    decreases s.len(),
{
    if s.len() == 0 {
        0
    } else {
        digits_val(s.drop_last()) * 10 + digit_val(s.last())
    }
}

proof fn lemma_digits_val_nonneg(s: Seq<char>)
    requires
        all_digits(s),
    ensures
        digits_val(s) >= 0,
    decreases s.len(),
{
    if s.len() > 0 {
        assert(all_digits(s.drop_last()));
        lemma_digits_val_nonneg(s.drop_last());
    }
}

/// Reading more digits never shrinks the value.
proof fn lemma_digits_val_grows(s: Seq<char>, i: int)
    requires
        all_digits(s),
        0 <= i <= s.len(),
    ensures
        digits_val(s.take(i)) <= digits_val(s),
    decreases s.len() - i,
{
    if i < s.len() {
        lemma_digits_val_grows(s, i + 1);
        let t = s.take(i + 1);
        assert(t.drop_last() =~= s.take(i));
        assert(all_digits(t));
        lemma_digits_val_nonneg(s.take(i));
        assert(digits_val(t) == digits_val(s.take(i)) * 10 + digit_val(t.last()));
    } else {
        assert(s.take(i) =~= s);
    }
}

/// The signed-integer grammar of a `position` element: an optional sign
/// followed by one or more digits, with a value in the range of `i64`.
pub open spec fn spec_parse_i64(s: Seq<char>) -> Option<int> {
    if s.len() > 0 && s[0] == '-' {
        spec_parse_signed_body(s.skip(1), true)
    } else if s.len() > 0 && s[0] == '+' {
        spec_parse_signed_body(s.skip(1), false)
    } else {
        spec_parse_signed_body(s, false)
    }
}

pub open spec fn spec_parse_signed_body(body: Seq<char>, neg: bool) -> Option<int> {
    if body.len() > 0 && all_digits(body) {
        let v = if neg {
            -digits_val(body)
        } else {
            digits_val(body)
        };
        if i64::MIN <= v <= i64::MAX {
            Some(v)
        } else {
            None
        }
    } else {
        None
    }
}

/// Parses the text of a `position` element as a signed integer.
pub fn parse_i64(s: &str) -> (r: Option<i64>)
    ensures
        r is Some <==> spec_parse_i64(s@) is Some,
        r matches Some(v) ==> spec_parse_i64(s@) == Some(v as int),
{
    let n = s.unicode_len();
    let mut start: usize = 0;
    let mut neg = false;
    if n > 0 {
        let c0 = s.get_char(0);
        if c0 == '-' {
            start = 1;
            neg = true;
        } else if c0 == '+' {
            start = 1;
        }
    }
    let ghost body = s@.skip(start as int);
    proof {
        if start == 0 {
            assert(s@.skip(0) =~= s@);
        }
    }
    assert(spec_parse_i64(s@) == spec_parse_signed_body(body, neg));
    if start == n {
        assert(body.len() == 0);
        return None;
    }
    let mut acc: u64 = 0;
    let mut i: usize = start;
    while i < n
        invariant
            n == s@.len(),
            start <= i <= n,
            start < n,
            body == s@.skip(start as int),
            spec_parse_i64(s@) == spec_parse_signed_body(body, neg),
            all_digits(body.take(i - start)),
            acc == digits_val(body.take(i - start)),
        decreases n - i,
    {
        let c = s.get_char(i);
        let u = c as u32;
        if u < 48 || u > 57 {
            assert(!is_digit(body[i - start]));
            assert(!all_digits(body));
            return None;
        }
        if acc > 1844674407370955160u64 {
            proof {
                if all_digits(body) {
                    lemma_digits_val_grows(body, i - start + 1);
                    let t = body.take(i - start + 1);
                    assert(t.drop_last() =~= body.take(i - start));
                    assert(digits_val(t) == acc * 10 + digit_val(t.last()));
                    assert(digit_val(t.last()) >= 0);
                    assert(digits_val(body) > i64::MAX);
                    assert(-digits_val(body) < i64::MIN);
                }
            }
            return None;
        }
        let d = (u - 48) as u64;
        proof {
            let t = body.take(i - start + 1);
            assert(t.drop_last() =~= body.take(i - start));
            assert(t.last() == body[i - start]);
        }
        acc = acc * 10 + d;
        i += 1;
    }
    proof {
        assert(body.take(i - start) =~= body);
    }
    if neg {
        if acc > 9223372036854775808u64 {
            return None;
        }
        if acc == 9223372036854775808u64 {
            Some(i64::MIN)
        } else {
            Some(-(acc as i64))
        }
    } else {
        if acc > 9223372036854775807u64 {
            return None;
        }
        Some(acc as i64)
    }
}

/// The length of the longest run of digits at the front of `s`.
pub open spec fn leading_digits(s: Seq<char>) -> int
    decreases s.len(),
{
    if s.len() == 0 || !is_digit(s[0]) {
        0
    } else {
        1 + leading_digits(s.skip(1))
    }
}

/// `leading_digits` is the first index holding a non-digit, or the length.
proof fn lemma_leading_digits_is(s: Seq<char>, k: int)
    requires
        0 <= k <= s.len(),
        forall|j: int| 0 <= j < k ==> is_digit(s[j]),
        k == s.len() || !is_digit(s[k]),
    ensures
        leading_digits(s) == k,
    decreases s.len(),
{
    if s.len() == 0 {
    } else if !is_digit(s[0]) {
        assert(k == 0);
    } else {
        let t = s.skip(1);
        assert(forall|j: int| 0 <= j < k - 1 ==> is_digit(t[j]));
        lemma_leading_digits_is(t, k - 1);
    }
}

/// A character that opens an exponent part.
pub open spec fn is_exp_char(c: char) -> bool {
    c == 'e' || c == 'E'
}

/// The index of the first exponent character of `s`, or the length.
pub open spec fn exp_split(s: Seq<char>) -> int
    decreases s.len(),
{
    if s.len() == 0 || is_exp_char(s[0]) {
        0
    } else {
        1 + exp_split(s.skip(1))
    }
}

/// `exp_split` is the first index holding an exponent character, or the
/// length.
proof fn lemma_exp_split_is(s: Seq<char>, k: int)
    requires
        0 <= k <= s.len(),
        forall|j: int| 0 <= j < k ==> !is_exp_char(s[j]),
        k == s.len() || is_exp_char(s[k]),
    ensures
        exp_split(s) == k,
    decreases s.len(),
{
    if s.len() == 0 {
    } else if is_exp_char(s[0]) {
        assert(k == 0);
    } else {
        let t = s.skip(1);
        assert(forall|j: int| 0 <= j < k - 1 ==> !is_exp_char(t[j]));
        lemma_exp_split_is(t, k - 1);
    }
}

/// Either of a letter's two cases.
pub open spec fn eqi(c: char, lo: char, up: char) -> bool {
    c == lo || c == up
}

/// The special float words, in any letter case: `inf`, `infinity`, `nan`.
pub open spec fn spec_is_special(s: Seq<char>) -> bool {
    ||| (s.len() == 3 && eqi(s[0], 'i', 'I') && eqi(s[1], 'n', 'N') && eqi(s[2], 'f', 'F'))
    ||| (s.len() == 8 && eqi(s[0], 'i', 'I') && eqi(s[1], 'n', 'N') && eqi(s[2], 'f', 'F') && eqi(
        s[3],
        'i',
        'I',
    ) && eqi(s[4], 'n', 'N') && eqi(s[5], 'i', 'I') && eqi(s[6], 't', 'T') && eqi(s[7], 'y', 'Y'))
    ||| (s.len() == 3 && eqi(s[0], 'n', 'N') && eqi(s[1], 'a', 'A') && eqi(s[2], 'n', 'N'))
}

/// A mantissa: digits with at most one decimal point, and at least one
/// digit on one side of it.
pub open spec fn spec_is_mantissa(s: Seq<char>) -> bool {
    let d = leading_digits(s);
    if d == s.len() {
        d > 0
    } else if s[d] == '.' {
        leading_digits(s.skip(d + 1)) == s.len() - d - 1 && s.len() > 1
    } else {
        false
    }
}

/// An exponent's tail, past the `e`: an optional sign, then one or more
/// digits.
pub open spec fn spec_is_exp_suffix(s: Seq<char>) -> bool {
    if s.len() > 0 && (s[0] == '+' || s[0] == '-') {
        s.len() > 1 && leading_digits(s.skip(1)) == s.len() - 1
    } else {
        s.len() > 0 && leading_digits(s) == s.len()
    }
}

/// A number: a mantissa, optionally followed by an exponent part.
pub open spec fn spec_is_number(s: Seq<char>) -> bool {
    let k = exp_split(s);
    if k == s.len() {
        spec_is_mantissa(s)
    } else {
        spec_is_mantissa(s.take(k)) && spec_is_exp_suffix(s.skip(k + 1))
    }
}

/// A float body, past any sign: a special word or a number.
pub open spec fn spec_is_float_body(s: Seq<char>) -> bool {
    spec_is_special(s) || spec_is_number(s)
}

/// The grammar of a value element, that of float parsing as std documents
/// it: an optional sign; then `inf`, `infinity` or `nan` in any letter
/// case, or digits with at most one decimal point and at least one digit,
/// optionally followed by an exponent with its own optional sign.
pub open spec fn spec_is_decimal(s: Seq<char>) -> bool {
    if s.len() > 0 && (s[0] == '-' || s[0] == '+') {
        spec_is_float_body(s.skip(1))
    } else {
        spec_is_float_body(s)
    }
}

/// Counts the digits of `s` from index `from` up to index `to`.
fn digits_run_to(s: &str, from: usize, to: usize) -> (r: usize)
    requires
        from <= to <= s@.len(),
    ensures
        r == leading_digits(s@.subrange(from as int, to as int)),
        from + r <= to,
{
    let mut i: usize = from;
    while i < to
        invariant
            from <= i <= to <= s@.len(),
            forall|j: int| from <= j < i ==> is_digit(s@[j]),
        decreases to - i,
    {
        let c = s.get_char(i);
        let u = c as u32;
        if u < 48 || u > 57 {
            proof {
                let t = s@.subrange(from as int, to as int);
                assert(forall|j: int| 0 <= j < i - from ==> is_digit(t[j]));
                assert(!is_digit(t[i - from]));
                lemma_leading_digits_is(t, i - from);
            }
            return i - from;
        }
        i += 1;
    }
    proof {
        let t = s@.subrange(from as int, to as int);
        assert(forall|j: int| 0 <= j < to - from ==> is_digit(t[j]));
        lemma_leading_digits_is(t, to - from);
    }
    to - from
}

/// Finds the first exponent character of `s` in `from .. to`.
fn scan_exp(s: &str, from: usize, to: usize) -> (r: usize)
    requires
        from <= to <= s@.len(),
    ensures
        r == exp_split(s@.subrange(from as int, to as int)),
        from + r <= to,
{
    let mut i: usize = from;
    while i < to
        invariant
            from <= i <= to <= s@.len(),
            forall|j: int| from <= j < i ==> !is_exp_char(s@[j]),
        decreases to - i,
    {
        let c = s.get_char(i);
        if c == 'e' || c == 'E' {
            proof {
                let t = s@.subrange(from as int, to as int);
                assert(forall|j: int| 0 <= j < i - from ==> !is_exp_char(t[j]));
                assert(is_exp_char(t[i - from]));
                lemma_exp_split_is(t, i - from);
            }
            return i - from;
        }
        i += 1;
    }
    proof {
        let t = s@.subrange(from as int, to as int);
        assert(forall|j: int| 0 <= j < to - from ==> !is_exp_char(t[j]));
        lemma_exp_split_is(t, to - from);
    }
    to - from
}

/// Decides whether `s` holds a mantissa in `from .. to`.
fn mantissa_ok(s: &str, from: usize, to: usize) -> (r: bool)
    requires
        from <= to <= s@.len(),
    ensures
        r == spec_is_mantissa(s@.subrange(from as int, to as int)),
{
    let ghost t = s@.subrange(from as int, to as int);
    let d = digits_run_to(s, from, to);
    if from + d == to {
        return d > 0;
    }
    if s.get_char(from + d) != '.' {
        assert(t[d as int] == s@[(from + d) as int]);
        return false;
    }
    let d2 = digits_run_to(s, from + d + 1, to);
    proof {
        assert(t.skip(d + 1) =~= s@.subrange((from + d + 1) as int, to as int));
    }
    d2 == to - (from + d) - 1 && to - from > 1
}

/// Decides whether `s` holds an exponent tail from `from` to its end.
fn exp_suffix_ok(s: &str, from: usize) -> (r: bool)
    requires
        from <= s@.len(),
    ensures
        r == spec_is_exp_suffix(s@.skip(from as int)),
{
    let n = s.unicode_len();
    let ghost t = s@.skip(from as int);
    if from == n {
        return false;
    }
    let c0 = s.get_char(from);
    if c0 == '+' || c0 == '-' {
        if from + 1 == n {
            return false;
        }
        let d = digits_run_to(s, from + 1, n);
        proof {
            assert(t.skip(1) =~= s@.subrange((from + 1) as int, n as int));
        }
        d == n - from - 1
    } else {
        let d = digits_run_to(s, from, n);
        proof {
            assert(t =~= s@.subrange(from as int, n as int));
        }
        d == n - from
    }
}

/// Decides whether `s` holds a special float word from `from` to its end.
fn special_ok(s: &str, from: usize) -> (r: bool)
    requires
        from <= s@.len(),
    ensures
        r == spec_is_special(s@.skip(from as int)),
{
    let n = s.unicode_len();
    let m = n - from;
    if m == 3 {
        let c0 = s.get_char(from);
        let c1 = s.get_char(from + 1);
        let c2 = s.get_char(from + 2);
        ((c0 == 'i' || c0 == 'I') && (c1 == 'n' || c1 == 'N') && (c2 == 'f' || c2 == 'F')) || ((c0
            == 'n' || c0 == 'N') && (c1 == 'a' || c1 == 'A') && (c2 == 'n' || c2 == 'N'))
    } else if m == 8 {
        let c0 = s.get_char(from);
        let c1 = s.get_char(from + 1);
        let c2 = s.get_char(from + 2);
        let c3 = s.get_char(from + 3);
        let c4 = s.get_char(from + 4);
        let c5 = s.get_char(from + 5);
        let c6 = s.get_char(from + 6);
        let c7 = s.get_char(from + 7);
        (c0 == 'i' || c0 == 'I') && (c1 == 'n' || c1 == 'N') && (c2 == 'f' || c2 == 'F') && (c3
            == 'i' || c3 == 'I') && (c4 == 'n' || c4 == 'N') && (c5 == 'i' || c5 == 'I') && (c6
            == 't' || c6 == 'T') && (c7 == 'y' || c7 == 'Y')
    } else {
        false
    }
}

/// Decides whether the text of a value element parses as a float.
pub fn is_decimal(s: &str) -> (r: bool)
    ensures
        r == spec_is_decimal(s@),
{
    let n = s.unicode_len();
    let mut start: usize = 0;
    if n > 0 {
        let c0 = s.get_char(0);
        if c0 == '-' || c0 == '+' {
            start = 1;
        }
    }
    let ghost body = s@.skip(start as int);
    proof {
        if start == 0 {
            assert(s@.skip(0) =~= s@);
        }
    }
    assert(spec_is_decimal(s@) == spec_is_float_body(body));
    if special_ok(s, start) {
        return true;
    }
    proof {
        assert(body =~= s@.subrange(start as int, n as int));
    }
    let k = scan_exp(s, start, n);
    if start + k == n {
        mantissa_ok(s, start, n)
    } else {
        proof {
            assert(body.take(k as int) =~= s@.subrange(start as int, (start + k) as int));
        }
        if !mantissa_ok(s, start, start + k) {
            return false;
        }
        proof {
            assert(body.skip(k + 1) =~= s@.skip((start + k + 1) as int));
        }
        exp_suffix_ok(s, start + k + 1)
    }
}

/// Normalizes a raw period start to carry explicit seconds: a start ending
/// in the UTC marker gains `":00"` immediately before it, any other start
/// gains `":00"` at its end.
pub open spec fn spec_normalize_start(s: Seq<char>) -> Seq<char> {
    if s.len() > 0 && s.last() == 'Z' {
        s.drop_last() + ":00Z"@
    } else {
        s + ":00"@
    }
}

/// Rewrites a raw period start with explicit seconds.
pub fn normalize_start(s: &str) -> (r: String)
    ensures
        r@ == spec_normalize_start(s@),
{
    let n = s.unicode_len();
    if n > 0 && s.get_char(n - 1) == 'Z' {
        let head = s.substring_char(0, n - 1);
        let mut out = head.to_owned();
        out.append(":00Z");
        proof {
            assert(s@.subrange(0, n - 1) =~= s@.drop_last());
        }
        out
    } else {
        let mut out = s.to_owned();
        out.append(":00");
        out
    }
}

} // verus!
