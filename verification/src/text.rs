//! Character-sequence foundations: decimal digit strings, numeric parsing in
//! the style of the standard library, lexicographic ordering, zero padding,
//! and line/field splitting for the telemetry stream.

use vstd::prelude::*;

verus! {

// ---------------------------------------------------------------------------
// Decimal digits
// ---------------------------------------------------------------------------

/// `c` is an ASCII decimal digit.
pub open spec fn is_digit(c: char) -> bool {
    ('0' as u32) <= (c as u32) && (c as u32) <= ('9' as u32)
}

/// Numeric value of a digit character.
pub open spec fn digit_val(c: char) -> int {
    (c as u32) - ('0' as u32)
}

/// Every character of `s` is an ASCII decimal digit.
pub open spec fn all_digits(s: Seq<char>) -> bool {
    forall|i: int| 0 <= i < s.len() ==> is_digit(#[trigger] s[i])
}

/// Value of a digit string read most-significant-first.
pub open spec fn digits_val(s: Seq<char>) -> int
    decreases s.len(),
{
    if s.len() == 0 {
        0
    } else {
        digits_val(s.drop_last()) * 10 + digit_val(s.last())
    }
}

/// Ten to the `n`th power.
pub open spec fn pow10(n: nat) -> int
    decreases n,
{
    if n == 0 {
        1
    } else {
        10 * pow10((n - 1) as nat)
    }
}

pub proof fn lemma_pow10_pos(n: nat)
    ensures
        pow10(n) >= 1,
    decreases n,
{
    if n > 0 {
        lemma_pow10_pos((n - 1) as nat);
    }
}

/// A digit string's value is bounded by ten to its length.
pub proof fn lemma_digits_val_bounds(s: Seq<char>)
    requires
        all_digits(s),
    ensures
        0 <= digits_val(s) < pow10(s.len()),
    decreases s.len(),
{
    if s.len() > 0 {
        assert(all_digits(s.drop_last()));
        lemma_digits_val_bounds(s.drop_last());
        let p = pow10((s.len() - 1) as nat);
        let prev = digits_val(s.drop_last());
        let d = digit_val(s.last());
        assert(is_digit(s.last()));
        assert(0 <= d <= 9);
        assert(prev * 10 + d < p * 10) by (nonlinear_arith)
            requires
                prev < p,
                d <= 9,
        ;
        assert(prev * 10 + d >= 0) by (nonlinear_arith)
            requires
                prev >= 0,
                d >= 0,
        ;
    }
}

/// Appending a digit multiplies the value by ten and adds the digit.
pub proof fn lemma_digits_val_push(s: Seq<char>, c: char)
    ensures
        digits_val(s.push(c)) == digits_val(s) * 10 + digit_val(c),
{
    assert(s.push(c).drop_last() =~= s);
    assert(s.push(c).last() == c);
}

/// Value of a concatenation of digit strings.
pub proof fn lemma_digits_val_concat(a: Seq<char>, b: Seq<char>)
    ensures
        digits_val(a + b) == digits_val(a) * pow10(b.len()) + digits_val(b),
    decreases b.len(),
{
    if b.len() == 0 {
        assert(a + b =~= a);
    } else {
        let b0 = b.drop_last();
        let c = b.last();
        lemma_digits_val_concat(a, b0);
        assert(a + b =~= (a + b0).push(c));
        lemma_digits_val_push(a + b0, c);
        let va = digits_val(a);
        let p0 = pow10(b0.len());
        assert((va * p0 + digits_val(b0)) * 10 + digit_val(c) == va * (10 * p0) + (digits_val(b0)
            * 10 + digit_val(c))) by (nonlinear_arith);
        assert(pow10(b.len()) == 10 * p0);
    }
}

/// A longer all-digit string is worth at least any of its prefixes.
pub proof fn lemma_digits_val_prefix(s: Seq<char>, k: int)
    requires
        all_digits(s),
        0 <= k <= s.len(),
    ensures
        digits_val(s) >= digits_val(s.take(k)),
{
    assert(s =~= s.take(k) + s.skip(k));
    lemma_digits_val_concat(s.take(k), s.skip(k));
    assert(all_digits(s.take(k)));
    assert(all_digits(s.skip(k)));
    lemma_digits_val_bounds(s.take(k));
    lemma_digits_val_bounds(s.skip(k));
    let p = pow10(s.skip(k).len());
    lemma_pow10_pos(s.skip(k).len());
    assert(digits_val(s.take(k)) * p >= digits_val(s.take(k))) by (nonlinear_arith)
        requires
            p >= 1,
            digits_val(s.take(k)) >= 0,
    ;
}

// ---------------------------------------------------------------------------
// Lexicographic order on character sequences
// ---------------------------------------------------------------------------

/// Strict lexicographic order by code point.
pub open spec fn seq_lt(a: Seq<char>, b: Seq<char>) -> bool
    decreases a.len(),
{
    if b.len() == 0 {
        false
    } else if a.len() == 0 {
        true
    } else if (a[0] as u32) < (b[0] as u32) {
        true
    } else if a[0] == b[0] {
        seq_lt(a.skip(1), b.skip(1))
    } else {
        false
    }
}

/// Two characters are ordered or equal by code point.
pub proof fn lemma_char_trichotomy(c1: char, c2: char)
    ensures
        (c1 as u32) < (c2 as u32) || c1 == c2 || (c2 as u32) < (c1 as u32),
{
}

/// Exactly one of `a < b`, `a == b`, `b < a` holds.
pub proof fn lemma_seq_lt_trichotomy(a: Seq<char>, b: Seq<char>)
    ensures
        seq_lt(a, b) || seq_lt(b, a) || a == b,
        !(seq_lt(a, b) && seq_lt(b, a)),
        seq_lt(a, b) ==> a != b,
    decreases a.len(),
{
    if a.len() == 0 && b.len() == 0 {
        assert(a =~= b);
    } else if a.len() > 0 && b.len() > 0 {
        if a[0] == b[0] {
            lemma_seq_lt_trichotomy(a.skip(1), b.skip(1));
            if a.skip(1) == b.skip(1) {
                assert(a =~= b) by {
                    assert(forall|i: int|
                        1 <= i < a.len() ==> a[i] == a.skip(1)[i - 1] && b[i] == b.skip(1)[i - 1]);
                };
            }
            if a == b {
                assert(a.skip(1) =~= b.skip(1));
            }
        } else {
            lemma_char_trichotomy(a[0], b[0]);
            assert(a != b);
        }
    } else {
        assert(a != b);
    }
}

/// Lexicographic order is transitive.
pub proof fn lemma_seq_lt_transitive(a: Seq<char>, b: Seq<char>, c: Seq<char>)
    requires
        seq_lt(a, b),
        seq_lt(b, c),
    ensures
        seq_lt(a, c),
    decreases a.len(),
{
    if a.len() == 0 {
    } else {
        // b and c are nonempty since something is below them.
        if a[0] == b[0] {
            if b[0] == c[0] {
                lemma_seq_lt_transitive(a.skip(1), b.skip(1), c.skip(1));
            }
        }
    }
}

// ---------------------------------------------------------------------------
// Numeric parsing (standard-library style: optional '+', then digits)
// ---------------------------------------------------------------------------

/// The digit part of a numeral: everything after an optional leading '+'.
pub open spec fn numeral_body(s: Seq<char>) -> Seq<char> {
    if s.len() > 0 && s[0] == '+' {
        s.skip(1)
    } else {
        s
    }
}

/// What `str::parse::<usize>` returns on `s`.
pub open spec fn parse_usize_spec(s: Seq<char>) -> Option<usize> {
    let body = numeral_body(s);
    if body.len() == 0 || !all_digits(body) || digits_val(body) > usize::MAX {
        None
    } else {
        Some(digits_val(body) as usize)
    }
}

/// What `str::parse::<u64>` returns on `s`.
pub open spec fn parse_u64_spec(s: Seq<char>) -> Option<u64> {
    let body = numeral_body(s);
    if body.len() == 0 || !all_digits(body) || digits_val(body) > u64::MAX {
        None
    } else {
        Some(digits_val(body) as u64)
    }
}

/// `c` is an ASCII decimal digit.
pub fn digit_of(c: char) -> (r: Option<u32>)
    ensures
        r is Some <==> is_digit(c),
        r is Some ==> r->0 == digit_val(c),
{
    let v = c as u32;
    if 48 <= v && v <= 57 {
        Some(v - 48)
    } else {
        None
    }
}

/// Parse a numeral as `usize`, as the standard library would.
pub fn parse_usize(s: &str) -> (r: Option<usize>)
    ensures
        r == parse_usize_spec(s@),
{
    let n = s.unicode_len();
    let start: usize = if n > 0 && s.get_char(0) == '+' {
        1
    } else {
        0
    };
    let ghost body = numeral_body(s@);
    proof {
        assert(body =~= s@.skip(start as int));
    }
    if start == n {
        return None;
    }
    let mut acc: usize = 0;
    let mut i: usize = start;
    while i < n
        invariant
            start <= i <= n,
            n == s@.len(),
            body == s@.skip(start as int),
            body == numeral_body(s@),
            all_digits(body.take(i - start)),
            acc == digits_val(body.take(i - start)),
        decreases n - i,
    {
        let c = s.get_char(i);
        proof {
            assert(body.take(i + 1 - start) =~= body.take(i - start).push(s@[i as int]));
            lemma_digits_val_push(body.take(i - start), s@[i as int]);
        }
        match digit_of(c) {
            None => {
                proof {
                    assert(body[i - start] == s@[i as int]);
                    assert(!is_digit(body[i - start]));
                    assert(!all_digits(body));
                    assert(parse_usize_spec(s@) is None);
                }
                return None;
            },
            Some(d) => {
                let next = match acc.checked_mul(10) {
                    Some(m) => m.checked_add(d as usize),
                    None => None,
                };
                match next {
                    Some(v) => {
                        acc = v;
                    },
                    None => {
                        // The prefix already exceeds the machine range, so the
                        // whole numeral does as well.
                        proof {
                            assert(body[i - start] == s@[i as int]);
                            assert(digits_val(body.take(i + 1 - start)) == acc * 10 + digit_val(
                                s@[i as int],
                            ));
                            assert(digits_val(body.take(i + 1 - start)) > usize::MAX);
                            if all_digits(body) {
                                lemma_digits_val_prefix(body, i + 1 - start);
                                assert(digits_val(body) > usize::MAX);
                            }
                            assert(parse_usize_spec(s@) is None);
                        }
                        return None;
                    },
                }
            },
        }
        i += 1;
    }
    proof {
        assert(body.take(n - start) =~= body);
    }
    Some(acc)
}

/// Parse a numeral as `u64`, as the standard library would.
pub fn parse_u64(s: &str) -> (r: Option<u64>)
    ensures
        r == parse_u64_spec(s@),
{
    let n = s.unicode_len();
    let start: usize = if n > 0 && s.get_char(0) == '+' {
        1
    } else {
        0
    };
    let ghost body = numeral_body(s@);
    proof {
        assert(body =~= s@.skip(start as int));
    }
    if start == n {
        return None;
    }
    let mut acc: u64 = 0;
    let mut i: usize = start;
    while i < n
        invariant
            start <= i <= n,
            n == s@.len(),
            body == s@.skip(start as int),
            body == numeral_body(s@),
            all_digits(body.take(i - start)),
            acc == digits_val(body.take(i - start)),
        decreases n - i,
    {
        let c = s.get_char(i);
        proof {
            assert(body.take(i + 1 - start) =~= body.take(i - start).push(s@[i as int]));
            lemma_digits_val_push(body.take(i - start), s@[i as int]);
        }
        match digit_of(c) {
            None => {
                proof {
                    assert(body[i - start] == s@[i as int]);
                    assert(!is_digit(body[i - start]));
                    assert(!all_digits(body));
                    assert(parse_u64_spec(s@) is None);
                }
                return None;
            },
            Some(d) => {
                let next = match acc.checked_mul(10) {
                    Some(m) => m.checked_add(d as u64),
                    None => None,
                };
                match next {
                    Some(v) => {
                        acc = v;
                    },
                    None => {
                        proof {
                            assert(body[i - start] == s@[i as int]);
                            assert(digits_val(body.take(i + 1 - start)) == acc * 10 + digit_val(
                                s@[i as int],
                            ));
                            assert(digits_val(body.take(i + 1 - start)) > u64::MAX);
                            if all_digits(body) {
                                lemma_digits_val_prefix(body, i + 1 - start);
                                assert(digits_val(body) > u64::MAX);
                            }
                            assert(parse_u64_spec(s@) is None);
                        }
                        return None;
                    },
                }
            },
        }
        i += 1;
    }
    proof {
        assert(body.take(n - start) =~= body);
    }
    Some(acc)
}

/// Compare two strings lexicographically by code point.
pub fn str_lt(a: &str, b: &str) -> (r: bool)
    ensures
        r == seq_lt(a@, b@),
{
    let na = a.unicode_len();
    let nb = b.unicode_len();
    let mut i: usize = 0;
    proof {
        assert(a@.skip(0) =~= a@);
        assert(b@.skip(0) =~= b@);
    }
    loop
        invariant
            0 <= i <= na,
            0 <= i <= nb,
            na == a@.len(),
            nb == b@.len(),
            seq_lt(a@, b@) == seq_lt(a@.skip(i as int), b@.skip(i as int)),
        decreases na - i,
    {
        if i == nb {
            return false;
        }
        if i == na {
            return true;
        }
        let ca = a.get_char(i);
        let cb = b.get_char(i);
        if (ca as u32) < (cb as u32) {
            return true;
        }
        if ca != cb {
            return false;
        }
        proof {
            assert(a@.skip(i as int).skip(1) =~= a@.skip(i + 1));
            assert(b@.skip(i as int).skip(1) =~= b@.skip(i + 1));
        }
        i += 1;
    }
}

// ---------------------------------------------------------------------------
// Zero padding
// ---------------------------------------------------------------------------

/// `s` left-padded with '0' up to width `w`.
pub open spec fn zero_pad(s: Seq<char>, w: int) -> Seq<char> {
    if s.len() >= w {
        s
    } else {
        Seq::new((w - s.len()) as nat, |i: int| '0') + s
    }
}

/// Left-pad a string with zeros up to width `w`.
pub fn pad_zeros(s: &str, w: usize) -> (r: String)
    ensures
        r@ == zero_pad(s@, w as int),
{
    let n = s.unicode_len();
    let mut r = String::new();
    if n < w {
        let pad = w - n;
        let mut k: usize = 0;
        while k < pad
            invariant
                0 <= k <= pad,
                r@ =~= Seq::new(k as nat, |i: int| '0'),
            decreases pad - k,
        {
            r.append("0");
            proof {
                reveal_strlit("0");
            }
            k += 1;
        }
    }
    r.append(s);
    proof {
        assert(r@ =~= zero_pad(s@, w as int));
    }
    r
}


/// Value of a one-digit string.
pub proof fn lemma_digits_val_singleton(c: char)
    ensures
        digits_val(seq![c]) == digit_val(c),
{
    assert(seq![c].drop_last() =~= Seq::<char>::empty());
    assert(seq![c].last() == c);
    assert(digits_val(Seq::<char>::empty()) == 0);
}

/// On equal-length digit strings, numeric order coincides with
/// lexicographic order, and equal values mean equal strings.
pub proof fn lemma_digits_val_order(a: Seq<char>, b: Seq<char>)
    requires
        all_digits(a),
        all_digits(b),
        a.len() == b.len(),
    ensures
        seq_lt(a, b) <==> digits_val(a) < digits_val(b),
        a == b <==> digits_val(a) == digits_val(b),
    decreases a.len(),
{
    if a.len() == 0 {
        assert(a =~= b);
    } else {
        let a1 = a.skip(1);
        let b1 = b.skip(1);
        assert(a =~= seq![a[0]] + a1);
        assert(b =~= seq![b[0]] + b1);
        lemma_digits_val_concat(seq![a[0]], a1);
        lemma_digits_val_concat(seq![b[0]], b1);
        lemma_digits_val_singleton(a[0]);
        lemma_digits_val_singleton(b[0]);
        assert(all_digits(a1));
        assert(all_digits(b1));
        lemma_digits_val_bounds(a1);
        lemma_digits_val_bounds(b1);
        let p = pow10(a1.len());
        let da = digit_val(a[0]);
        let db = digit_val(b[0]);
        let va1 = digits_val(a1);
        let vb1 = digits_val(b1);
        assert(digits_val(a) == da * p + va1);
        assert(digits_val(b) == db * p + vb1);
        lemma_digits_val_order(a1, b1);
        if a[0] == b[0] {
            assert(da * p + va1 < db * p + vb1 <==> va1 < vb1) by (nonlinear_arith)
                requires
                    da == db,
            ;
            if a1 == b1 {
                assert(a =~= b) by {
                    assert(forall|i: int|
                        1 <= i < a.len() ==> a[i] == a1[i - 1] && b[i] == b1[i - 1]);
                };
            }
            if a == b {
                assert(a1 =~= b1);
            }
        } else {
            lemma_char_trichotomy(a[0], b[0]);
            if (a[0] as u32) < (b[0] as u32) {
                assert(da < db);
                assert(da * p + va1 < db * p + vb1) by (nonlinear_arith)
                    requires
                        da < db,
                        0 <= va1 < p,
                        0 <= vb1,
                ;
                assert(seq_lt(a, b));
                assert(a != b);
            } else {
                assert(db < da);
                assert(db * p + vb1 < da * p + va1) by (nonlinear_arith)
                    requires
                        db < da,
                        0 <= vb1 < p,
                        0 <= va1,
                ;
                assert(!seq_lt(a, b));
                assert(a != b);
            }
        }
    }
}

// ---------------------------------------------------------------------------
// Searching and splitting
// ---------------------------------------------------------------------------

/// Index of the first occurrence of `c` in `s`, or `s.len()` if absent.
pub open spec fn first_index(s: Seq<char>, c: char) -> nat
    decreases s.len(),
{
    if s.len() == 0 {
        0
    } else if s[0] == c {
        0
    } else {
        1 + first_index(s.skip(1), c)
    }
}

/// What `first_index` finds is the first occurrence.
pub proof fn lemma_first_index(s: Seq<char>, c: char)
    ensures
        first_index(s, c) <= s.len(),
        first_index(s, c) < s.len() ==> s[first_index(s, c) as int] == c,
        forall|j: int| 0 <= j < first_index(s, c) ==> s[j] != c,
        first_index(s, c) == s.len() ==> forall|j: int| 0 <= j < s.len() ==> s[j] != c,
    decreases s.len(),
{
    if s.len() > 0 && s[0] != c {
        lemma_first_index(s.skip(1), c);
        assert(forall|j: int| 1 <= j < s.len() ==> s[j] == s.skip(1)[j - 1]);
    }
}

/// A first occurrence pins `first_index` down.
pub proof fn lemma_first_index_converse(s: Seq<char>, c: char, k: int)
    requires
        0 <= k < s.len(),
        s[k] == c,
        forall|j: int| 0 <= j < k ==> s[j] != c,
    ensures
        first_index(s, c) == k,
{
    lemma_first_index(s, c);
    let i = first_index(s, c) as int;
    if i < k {
        assert(s[i] != c);
    }
    if k < i {
        assert(s[k] != c);
    }
}

/// Index of the first occurrence of `c`, or the string's length if absent.
pub fn find_char(s: &str, c: char) -> (r: usize)
    ensures
        r == first_index(s@, c),
{
    let n = s.unicode_len();
    let mut i: usize = 0;
    while i < n
        invariant
            0 <= i <= n,
            n == s@.len(),
            forall|j: int| 0 <= j < i ==> s@[j] != c,
        decreases n - i,
    {
        if s.get_char(i) == c {
            proof {
                lemma_first_index_converse(s@, c, i as int);
            }
            return i;
        }
        i += 1;
    }
    proof {
        lemma_first_index(s@, c);
        if first_index(s@, c) < s@.len() {
            assert(s@[first_index(s@, c) as int] != c);
        }
    }
    n
}

/// The part before the first `c`, and the rest after it if `c` occurs.
pub open spec fn split_head_spec(s: Seq<char>, c: char) -> (Seq<char>, Option<Seq<char>>) {
    let i = first_index(s, c) as int;
    if i >= s.len() {
        (s, None)
    } else {
        (s.take(i), Some(s.skip(i + 1)))
    }
}

/// Split off the segment before the first `c`, as a split iterator's first
/// step would.
pub fn split_head<'a>(s: &'a str, c: char) -> (r: (&'a str, Option<&'a str>))
    ensures
        r.0@ == split_head_spec(s@, c).0,
        r.1 is Some <==> split_head_spec(s@, c).1 is Some,
        r.1 is Some ==> r.1->0@ == split_head_spec(s@, c).1->0,
{
    let n = s.unicode_len();
    let i = find_char(s, c);
    proof {
        lemma_first_index(s@, c);
    }
    if i >= n {
        (s, None)
    } else {
        (s.substring_char(0, i), Some(s.substring_char(i + 1, n)))
    }
}

/// `l` with one trailing carriage return removed.
pub open spec fn strip_cr(l: Seq<char>) -> Seq<char> {
    if l.len() > 0 && l.last() == '\r' {
        l.drop_last()
    } else {
        l
    }
}

/// The lines of `s`: split at newlines, each line stripped of a carriage
/// return before the newline; a final fragment without a newline is kept
/// whole.
pub open spec fn spec_lines(s: Seq<char>) -> Seq<Seq<char>>
    decreases s.len(),
{
    if s.len() == 0 {
        Seq::empty()
    } else {
        let i = first_index(s, '\n') as int;
        if i >= s.len() {
            seq![s]
        } else {
            seq![strip_cr(s.take(i))] + spec_lines(s.skip(i + 1))
        }
    }
}

/// Split a stream's text into lines.
pub fn split_lines(s: &str) -> (r: Vec<String>)
    ensures
        r.deep_view() == spec_lines(s@),
{
    let n = s.unicode_len();
    let mut res: Vec<String> = Vec::new();
    let mut start: usize = 0;
    let mut i: usize = 0;
    proof {
        assert(s@.skip(0) =~= s@);
        assert(res.deep_view() =~= Seq::<Seq<char>>::empty());
    }
    while i < n
        invariant
            0 <= start <= i <= n,
            n == s@.len(),
            spec_lines(s@) == res.deep_view() + spec_lines(s@.skip(start as int)),
            forall|j: int| start <= j < i ==> s@[j] != '\n',
        decreases n - i,
    {
        if s.get_char(i) == '\n' {
            let end = if i > start && s.get_char(i - 1) == '\r' {
                i - 1
            } else {
                i
            };
            let line = s.substring_char(start, end);
            proof {
                let t = s@.skip(start as int);
                assert(t[i - start] == s@[i as int]);
                assert(forall|j: int| 0 <= j < i - start ==> t[j] == s@[j + start] && t[j] != '\n');
                lemma_first_index_converse(t, '\n', i - start);
                assert(t.take(i - start) =~= s@.subrange(start as int, i as int));
                assert(t.skip(i - start + 1) =~= s@.skip(i + 1));
                assert(line@ =~= strip_cr(t.take(i - start))) by {
                    if i > start && s@[i - 1] == '\r' {
                        assert(t.take(i - start).last() == '\r');
                        assert(line@ =~= t.take(i - start).drop_last());
                    }
                };
            }
            let ghost old_dv = res.deep_view();
            res.push(String::from_str(line));
            proof {
                assert(res.deep_view() =~= old_dv + seq![strip_cr(
                    s@.skip(start as int).take(i - start),
                )]);
                assert(spec_lines(s@) == res.deep_view() + spec_lines(s@.skip(i + 1)));
            }
            start = i + 1;
        }
        i += 1;
    }
    if start < n {
        let line = s.substring_char(start, n);
        proof {
            let t = s@.skip(start as int);
            lemma_first_index(t, '\n');
            if first_index(t, '\n') < t.len() {
                assert(t[first_index(t, '\n') as int] == s@[first_index(t, '\n') + start]);
            }
            assert(first_index(t, '\n') == t.len());
            assert(line@ =~= t);
            assert(spec_lines(t) == seq![t]);
        }
        let ghost old_dv = res.deep_view();
        res.push(String::from_str(line));
        proof {
            assert(res.deep_view() =~= old_dv + seq![s@.skip(start as int)]);
        }
    } else {
        proof {
            assert(s@.skip(start as int) =~= Seq::<char>::empty());
            assert(res.deep_view() + spec_lines(s@.skip(start as int)) =~= res.deep_view());
        }
    }
    res
}

/// The key and value of a telemetry line: the line splits at its first
/// '='; the key is the text before it, the value everything after it.
pub open spec fn key_value_spec(line: Seq<char>) -> Option<(Seq<char>, Seq<char>)> {
    let i = first_index(line, '=') as int;
    if i >= line.len() {
        None
    } else {
        Some((line.take(i), line.skip(i + 1)))
    }
}

/// Split a telemetry line into its key and value, if it has them.
pub fn key_value<'a>(line: &'a str) -> (r: Option<(&'a str, &'a str)>)
    ensures
        match (r, key_value_spec(line@)) {
            (None, None) => true,
            (Some(p), Some(q)) => p.0@ == q.0 && p.1@ == q.1,
            _ => false,
        },
{
    let (head, tail) = split_head(line, '=');
    proof {
        lemma_first_index(line@, '=');
    }
    match tail {
        None => None,
        Some(rest) => Some((head, rest)),
    }
}

/// Index of the last occurrence of `c` in `s`, or -1 if absent.
pub open spec fn last_index_of(s: Seq<char>, c: char) -> int
    decreases s.len(),
{
    if s.len() == 0 {
        -1
    } else if s.last() == c {
        s.len() - 1
    } else {
        last_index_of(s.drop_last(), c)
    }
}

/// What `last_index_of` finds is the last occurrence.
pub proof fn lemma_last_index_of(s: Seq<char>, c: char)
    ensures
        -1 <= last_index_of(s, c) < s.len(),
        last_index_of(s, c) >= 0 ==> s[last_index_of(s, c)] == c,
        forall|j: int| last_index_of(s, c) < j < s.len() ==> s[j] != c,
        last_index_of(s, c) == -1 ==> forall|j: int| 0 <= j < s.len() ==> s[j] != c,
    decreases s.len(),
{
    if s.len() > 0 && s.last() != c {
        lemma_last_index_of(s.drop_last(), c);
        assert(forall|j: int| 0 <= j < s.len() - 1 ==> s[j] == s.drop_last()[j]);
    }
}

/// A last occurrence pins `last_index_of` down.
pub proof fn lemma_last_index_of_converse(s: Seq<char>, c: char, k: int)
    requires
        0 <= k < s.len(),
        s[k] == c,
        forall|j: int| k < j < s.len() ==> s[j] != c,
    ensures
        last_index_of(s, c) == k,
{
    lemma_last_index_of(s, c);
    let i = last_index_of(s, c);
    if i < k {
        assert(s[k] != c);
    }
    if k < i {
        assert(s[i] != c);
    }
}

/// Index of the last occurrence of `c`, if any.
pub fn rfind_char(s: &str, c: char) -> (r: Option<usize>)
    ensures
        r is Some <==> last_index_of(s@, c) >= 0,
        r is Some ==> r->0 == last_index_of(s@, c),
{
    let n = s.unicode_len();
    let mut i: usize = n;
    while i > 0
        invariant
            0 <= i <= n,
            n == s@.len(),
            forall|j: int| i <= j < n ==> s@[j] != c,
        decreases i,
    {
        i -= 1;
        if s.get_char(i) == c {
            proof {
                lemma_last_index_of_converse(s@, c, i as int);
            }
            return Some(i);
        }
    }
    proof {
        lemma_last_index_of(s@, c);
        if last_index_of(s@, c) >= 0 {
            assert(s@[last_index_of(s@, c)] != c);
        }
    }
    None
}

/// Compare two strings for character equality.
pub fn str_eq(a: &str, b: &str) -> (r: bool)
    ensures
        r == (a@ == b@),
{
    let na = a.unicode_len();
    let nb = b.unicode_len();
    if na != nb {
        return false;
    }
    let mut i: usize = 0;
    while i < na
        invariant
            0 <= i <= na,
            na == a@.len(),
            na == b@.len(),
            forall|j: int| 0 <= j < i ==> a@[j] == b@[j],
        decreases na - i,
    {
        if a.get_char(i) != b.get_char(i) {
            return false;
        }
        i += 1;
    }
    proof {
        assert(a@ =~= b@);
    }
    true
}

} // verus!
