use vstd::prelude::*;

verus! {

/// The decimal digit that `c` stands for.
pub open spec fn digit_val(c: char) -> int {
    c as int - '0' as int
}

pub open spec fn is_digit(c: char) -> bool {
    '0' <= c && c <= '9'
}

pub open spec fn all_digits(t: Seq<char>) -> bool {
    forall|i: int| 0 <= i < t.len() ==> is_digit(#[trigger] t[i])
}

/// The number written by a run of decimal digits, most significant first.
pub open spec fn digits_val(t: Seq<char>) -> int
    decreases t.len(),
{
    if t.len() == 0 {
        0
    } else {
        digits_val(t.drop_last()) * 10 + digit_val(t.last())
    }
}

pub open spec fn digit_char(d: nat) -> char {
    let d = d % 10;
    if d == 0 { '0' }
    else if d == 1 { '1' }
    else if d == 2 { '2' }
    else if d == 3 { '3' }
    else if d == 4 { '4' }
    else if d == 5 { '5' }
    else if d == 6 { '6' }
    else if d == 7 { '7' }
    else if d == 8 { '8' }
    else { '9' }
}

/// The shortest decimal text of a natural number.
pub open spec fn nat_text(n: nat) -> Seq<char>
    decreases n,
{
    if n < 10 {
        seq![digit_char(n)]
    } else {
        nat_text(n / 10).push(digit_char(n % 10))
    }
}

/// The decimal text of an integer, with a leading `-` when it is negative.
pub open spec fn int_text(n: int) -> Seq<char> {
    if n < 0 {
        seq!['-'] + nat_text((-n) as nat)
    } else {
        nat_text(n as nat)
    }
}

/// What a signed 64-bit decimal field reads as: an optional sign, then at
/// least one digit, in range.
pub open spec fn parse_int_text(t: Seq<char>) -> Option<int> {
    if t.len() > 0 && t[0] == '-' {
        let d = t.drop_first();
        if d.len() > 0 && all_digits(d) && digits_val(d) <= i64::MAX + 1 {
            Some(-digits_val(d))
        } else {
            None
        }
    } else {
        let d = if t.len() > 0 && t[0] == '+' { t.drop_first() } else { t };
        if d.len() > 0 && all_digits(d) && digits_val(d) <= i64::MAX {
            Some(digits_val(d))
        } else {
            None
        }
    }
}

/// What a length or count field reads as: an optional `+`, then at least one
/// digit, within `usize`.
pub open spec fn parse_len_text(t: Seq<char>) -> Option<nat> {
    let d = if t.len() > 0 && t[0] == '+' { t.drop_first() } else { t };
    if d.len() > 0 && all_digits(d) && digits_val(d) <= usize::MAX {
        Some(digits_val(d) as nat)
    } else {
        None
    }
}

/// The number of consecutive digits in `t` from `i` on.
pub open spec fn digit_run(t: Seq<char>, i: int) -> nat
    decreases t.len() - i,
{
    if 0 <= i < t.len() && is_digit(t[i]) {
        1 + digit_run(t, i + 1)
    } else {
        0
    }
}

/// An exponent from `i` to the end: an optional sign, then digits only.
pub open spec fn exponent_ok(t: Seq<char>, i: int) -> bool {
    let j = if i < t.len() && (t[i] == '+' || t[i] == '-') { i + 1 } else { i };
    digit_run(t, j) > 0 && j + digit_run(t, j) == t.len()
}

/// A decimal floating-point text: an optional sign, digits with an optional
/// fraction (at least one digit in all), and an optional exponent.
pub open spec fn is_float_text(t: Seq<char>) -> bool {
    let p = if t.len() > 0 && (t[0] == '+' || t[0] == '-') { 1int } else { 0int };
    let a = digit_run(t, p);
    let q = p + a;
    let has_point = q < t.len() && t[q] == '.';
    let b = if has_point { digit_run(t, q + 1) } else { 0 };
    let r = if has_point { q + 1 + b } else { q };
    a + b > 0 && (r == t.len() || ((t[r] == 'e' || t[r] == 'E') && exponent_ok(t, r + 1)))
}

pub open spec fn is_crlf_at(s: Seq<char>, i: int) -> bool {
    0 <= i && i + 1 < s.len() && s[i] == '\r' && s[i + 1] == '\n'
}

/// The first line break at or after `from`.
pub open spec fn find_crlf(s: Seq<char>, from: int) -> Option<int>
    decreases s.len() - from,
{
    if from < 0 || from + 1 >= s.len() {
        None
    } else if is_crlf_at(s, from) {
        Some(from)
    } else {
        find_crlf(s, from + 1)
    }
}

pub open spec fn no_crlf(t: Seq<char>) -> bool {
    forall|i: int| #![trigger t[i]] 0 <= i < t.len() ==> !is_crlf_at(t, i)
}

pub open spec fn crlf() -> Seq<char> {
    seq!['\r', '\n']
}


/// The characters of `s` from `a` up to `b`.
pub fn slice_chars(s: &Vec<char>, a: usize, b: usize) -> (r: Vec<char>)
    requires
        a <= b <= s@.len(),
    ensures
        r@ == s@.subrange(a as int, b as int),
{
    let mut r: Vec<char> = Vec::new();
    let mut i: usize = a;
    while i < b
        invariant
            a <= i <= b <= s@.len(),
            r@ == s@.subrange(a as int, i as int),
        decreases b - i,
    {
        r.push(s[i]);
        i = i + 1;
    }
    r
}

/// The position of the first line break in `s` at or after `from`.
pub fn find_crlf_from(s: &Vec<char>, from: usize) -> (r: Option<usize>)
    ensures
        r matches Some(e) ==> find_crlf(s@, from as int) == Some(e as int),
        r is None ==> find_crlf(s@, from as int) is None,
{
    let mut i: usize = from;
    while i < s.len() && i + 1 < s.len()
        invariant
            from <= i,
            find_crlf(s@, from as int) == find_crlf(s@, i as int),
        decreases s@.len() - i,
    {
        if s[i] == '\r' && s[i + 1] == '\n' {
            return Some(i);
        }
        i = i + 1;
    }
    None
}

/// The number of consecutive digits in `t` from `i` on.
pub fn count_digits(t: &Vec<char>, i: usize) -> (r: usize)
    ensures
        r == digit_run(t@, i as int),
        i + r <= t@.len() || r == 0,
{
    let mut j: usize = i;
    while j < t.len() && '0' <= t[j] && t[j] <= '9'
        invariant
            i <= j,
            j <= t@.len() || j == i,
            digit_run(t@, i as int) == (j - i) + digit_run(t@, j as int),
        decreases t@.len() - j,
    {
        j = j + 1;
    }
    j - i
}

/// The value of the digits of `t` from `i` on, when they are at least one,
/// all digits, and at most `limit`.
fn bounded_digits(t: &Vec<char>, i: usize, limit: u128) -> (r: Option<u128>)
    requires
        limit <= u64::MAX as u128 + 1,
        i <= t@.len(),
    ensures
        ({
            let d = t@.subrange(i as int, t@.len() as int);
            match r {
                Some(v) => d.len() > 0 && all_digits(d) && digits_val(d) <= limit
                    && v == digits_val(d),
                None => !(d.len() > 0 && all_digits(d) && digits_val(d) <= limit),
            }
        }),
{
    let mut acc: u128 = 0;
    let mut ok = true;
    let mut j: usize = i;
    while j < t.len()
        invariant
            i <= j <= t@.len(),
            limit <= u64::MAX as u128 + 1,
            ok == all_digits(t@.subrange(i as int, j as int)),
            ok ==> acc as int == if digits_val(t@.subrange(i as int, j as int)) <= limit {
                digits_val(t@.subrange(i as int, j as int))
            } else {
                limit + 1
            },
            ok ==> digits_val(t@.subrange(i as int, j as int)) >= 0,
        decreases t@.len() - j,
    {
        let c = t[j];
        proof {
            let p = t@.subrange(i as int, j as int);
            let q = t@.subrange(i as int, j + 1);
            assert(q.drop_last() =~= p);
            assert(q.last() == c);
            if all_digits(q) {
                assert forall|k: int| 0 <= k < p.len() implies is_digit(#[trigger] p[k]) by {
                    assert(p[k] == q[k]);
                }
            }
            if all_digits(p) && is_digit(c) {
                assert forall|k: int| 0 <= k < q.len() implies is_digit(#[trigger] q[k]) by {
                    if k < p.len() {
                        assert(p[k] == q[k]);
                    }
                }
            }
        }
        if ok && '0' <= c && c <= '9' {
            let d = (c as u32 - '0' as u32) as u128;
            let next = acc * 10 + d;
            acc = if next > limit { limit + 1 } else { next };
        } else {
            ok = false;
        }
        j = j + 1;
    }
    if ok && j > i && acc <= limit {
        Some(acc)
    } else {
        None
    }
}

/// Reads a signed 64-bit decimal field.
pub fn parse_int_field(t: &Vec<char>) -> (r: Option<i64>)
    ensures
        match r {
            Some(n) => parse_int_text(t@) == Some(n as int),
            None => parse_int_text(t@) is None,
        },
{
    if t.len() > 0 && t[0] == '-' {
        proof {
            assert(t@.subrange(1, t@.len() as int) =~= t@.drop_first());
        }
        match bounded_digits(t, 1, i64::MAX as u128 + 1) {
            Some(v) => {
                if v == i64::MAX as u128 + 1 {
                    Some(i64::MIN)
                } else {
                    Some(-(v as i64))
                }
            },
            None => None,
        }
    } else {
        let start: usize = if t.len() > 0 && t[0] == '+' { 1 } else { 0 };
        proof {
            assert(t@.subrange(1, t@.len() as int) =~= t@.drop_first());
            assert(t@.subrange(0, t@.len() as int) =~= t@);
        }
        match bounded_digits(t, start, i64::MAX as u128) {
            Some(v) => Some(v as i64),
            None => None,
        }
    }
}

/// Reads a length or count field.
pub fn parse_len_field(t: &Vec<char>) -> (r: Option<usize>)
    ensures
        match r {
            Some(n) => parse_len_text(t@) == Some(n as nat),
            None => parse_len_text(t@) is None,
        },
{
    let start: usize = if t.len() > 0 && t[0] == '+' { 1 } else { 0 };
    proof {
        assert(t@.subrange(1, t@.len() as int) =~= t@.drop_first());
        assert(t@.subrange(0, t@.len() as int) =~= t@);
    }
    match bounded_digits(t, start, usize::MAX as u128) {
        Some(v) => Some(v as usize),
        None => None,
    }
}

/// Whether `t` is a decimal floating-point text.
pub fn is_float_field(t: &Vec<char>) -> (r: bool)
    ensures
        r == is_float_text(t@),
{
    let p: usize = if t.len() > 0 && (t[0] == '+' || t[0] == '-') { 1 } else { 0 };
    let a = count_digits(t, p);
    let q = p + a;
    let has_point = q < t.len() && t[q] == '.';
    let b = if has_point { count_digits(t, q + 1) } else { 0 };
    let r = if has_point { q + 1 + b } else { q };
    if a + b == 0 {
        return false;
    }
    if r == t.len() {
        return true;
    }
    if !(t[r] == 'e' || t[r] == 'E') {
        return false;
    }
    let i = r + 1;
    let j = if i < t.len() && (t[i] == '+' || t[i] == '-') { i + 1 } else { i };
    let e = count_digits(t, j);
    e > 0 && j + e == t.len()
}

} // verus!
