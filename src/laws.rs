use vstd::prelude::*;

use crate::decode::{decode_value, parse_elems, parse_frame, skip_crlf, ProtoParseError};
use crate::encode::{elems_text, encode_value};
use crate::text::{
    all_digits, digit_char, digit_val, crlf, digits_val, find_crlf, int_text, is_crlf_at, is_digit, is_float_text, nat_text,
    no_crlf, parse_int_text, parse_len_text,
};
use crate::value::Value;

verus! {

/// A value that the decoder can read back: no error or big-integer values;
/// integers within 64 bits; simple strings without a line break; decimal
/// texts for doubles; lengths within `usize`; the same for each element of
/// an array.
pub open spec fn decodable(v: Value) -> bool
    decreases v,
{
    match v {
        Value::SimpleString(t) => no_crlf(t),
        Value::Int(n) => i64::MIN <= n <= i64::MAX,
        Value::BulkString(t) => t.len() <= usize::MAX,
        Value::Array(xs) => xs.len() <= usize::MAX && forall|i: int|
            0 <= i < xs.len() ==> decodable(#[trigger] xs[i]),
        Value::Bool(_) => true,
        Value::Double(t) => is_float_text(t) && no_crlf(t),
        Value::Null => true,
        _ => false,
    }
}

/// `t` stands in `s` at `pos`.
pub open spec fn stands_at(s: Seq<char>, pos: int, t: Seq<char>) -> bool {
    0 <= pos && pos + t.len() <= s.len() && s.subrange(pos, pos + t.len()) == t
}

proof fn lemma_find_line_end(s: Seq<char>, pos: int, t: Seq<char>)
    requires
        stands_at(s, pos, t + crlf()),
        no_crlf(t),
    ensures
        find_crlf(s, pos) == Some(pos + t.len()),
    decreases t.len(),
{
    let n = t.len() as int;
    assert(s[pos + n] == (t + crlf())[n]);
    assert(s[pos + n + 1] == (t + crlf())[n + 1]);
    let w = t + crlf();
    assert(s[pos + n] == s.subrange(pos, pos + w.len())[n]);
    assert(s[pos + n + 1] == s.subrange(pos, pos + w.len())[n + 1]);
    if t.len() > 0 {
        assert(s[pos] == s.subrange(pos, pos + w.len())[0]);
        assert(s[pos + 1] == s.subrange(pos, pos + w.len())[1]);
        assert(s[pos] == t[0]);
        if t.len() > 1 {
            assert(s[pos + 1] == t[1]);
            assert(!is_crlf_at(t, 0));
        } else {
            assert(s[pos + 1] == '\r');
        }
        assert(!is_crlf_at(s, pos));
        let u = t.drop_first();
        assert forall|i: int| #![trigger u[i]] 0 <= i < u.len() implies !is_crlf_at(u, i) by {
            assert(!is_crlf_at(t, i + 1));
        }
        assert(s.subrange(pos + 1, pos + 1 + (u + crlf()).len()) =~= u + crlf()) by {
            assert forall|i: int| 0 <= i < (u + crlf()).len() implies s.subrange(
                pos + 1,
                pos + 1 + (u + crlf()).len(),
            )[i] == (u + crlf())[i] by {
                assert(s[pos + 1 + i] == (t + crlf())[i + 1]);
            }
        }
        lemma_find_line_end(s, pos + 1, u);
    }
}

proof fn lemma_digit_char(d: nat)
    ensures
        is_digit(digit_char(d)),
        digit_val(digit_char(d)) == d % 10,
{
}

proof fn lemma_nat_text(n: nat)
    ensures
        nat_text(n).len() >= 1,
        all_digits(nat_text(n)),
        digits_val(nat_text(n)) == n,
    decreases n,
{
    lemma_digit_char(n);
    if n >= 10 {
        lemma_nat_text(n / 10);
        lemma_digit_char(n % 10);
        let t = nat_text(n);
        assert(t.drop_last() =~= nat_text(n / 10));
        assert(t.last() == digit_char(n % 10));
        assert((n % 10) % 10 == n % 10);
        assert(digit_val(t.last()) == n % 10);
        assert(digits_val(t) == digits_val(t.drop_last()) * 10 + digit_val(t.last()));
        assert(n == (n / 10) * 10 + n % 10);
        assert forall|i: int| 0 <= i < t.len() implies is_digit(#[trigger] t[i]) by {
            if i < t.len() - 1 {
                assert(t[i] == nat_text(n / 10)[i]);
            }
        }
    } else {
        assert(nat_text(n) =~= seq![digit_char(n)]);
        assert(nat_text(n).drop_last() =~= Seq::<char>::empty());
        assert(n % 10 == n);
        assert(digits_val(nat_text(n)) == digits_val(Seq::<char>::empty()) * 10 + digit_val(
            digit_char(n),
        ));
    }
}

proof fn lemma_digits_no_crlf(t: Seq<char>)
    requires
        all_digits(t),
    ensures
        no_crlf(t),
{
    assert forall|i: int| #![trigger t[i]] 0 <= i < t.len() implies !is_crlf_at(t, i) by {
        assert(is_digit(t[i]));
    }
}

proof fn lemma_len_text(n: nat)
    requires
        n <= usize::MAX,
    ensures
        parse_len_text(nat_text(n)) == Some(n),
        no_crlf(nat_text(n)),
{
    lemma_nat_text(n);
    lemma_digits_no_crlf(nat_text(n));
    assert(is_digit(nat_text(n)[0]));
}

proof fn lemma_int_text(n: int)
    requires
        i64::MIN <= n <= i64::MAX,
    ensures
        parse_int_text(int_text(n)) == Some(n),
        no_crlf(int_text(n)),
{
    if n < 0 {
        let m = (-n) as nat;
        lemma_nat_text(m);
        let t = int_text(n);
        assert(t.drop_first() =~= nat_text(m));
        assert forall|i: int| #![trigger t[i]] 0 <= i < t.len() implies !is_crlf_at(t, i) by {
            if i > 0 {
                assert(t[i] == nat_text(m)[i - 1]);
                assert(is_digit(nat_text(m)[i - 1]));
            }
        }
    } else {
        lemma_nat_text(n as nat);
        lemma_digits_no_crlf(nat_text(n as nat));
        assert(is_digit(nat_text(n as nat)[0]));
    }
}

proof fn lemma_elems_front(xs: Seq<Value>)
    requires
        xs.len() >= 1,
    ensures
        elems_text(xs) == encode_value(xs[0]) + crlf() + elems_text(xs.subrange(1, xs.len() as int)),
    decreases xs.len(),
{
    let n = xs.len() as int;
    if n == 1 {
        assert(xs.subrange(0, 0) =~= Seq::<Value>::empty());
        assert(xs.subrange(1, 1) =~= Seq::<Value>::empty());
        assert(elems_text(xs.subrange(0, 0)) == Seq::<char>::empty());
        assert(elems_text(xs) == elems_text(xs.subrange(0, 0)) + encode_value(xs[0]) + crlf());
        assert(elems_text(xs.subrange(1, 1)) == Seq::<char>::empty());
        assert(elems_text(xs) =~= encode_value(xs[0]) + crlf());
    } else {
        let ys = xs.subrange(0, n - 1);
        lemma_elems_front(ys);
        let zs = xs.subrange(1, n);
        assert(zs.subrange(0, n - 2) =~= ys.subrange(1, n - 1));
        assert(zs[n - 2] == xs[n - 1]);
        assert(ys[0] == xs[0]);
        assert(elems_text(xs) =~= encode_value(xs[0]) + crlf() + elems_text(zs));
    }
}

/// `t` stands in `s` at `pos`, and so does each of its pieces.
proof fn lemma_piece(s: Seq<char>, pos: int, t: Seq<char>, a: int, b: int)
    requires
        stands_at(s, pos, t),
        0 <= a <= b <= t.len(),
    ensures
        s.subrange(pos + a, pos + b) == t.subrange(a, b),
        forall|i: int| a <= i < b ==> #[trigger] s[pos + i] == t[i],
{
    assert(s.subrange(pos + a, pos + b) =~= t.subrange(a, b)) by {
        assert forall|i: int| 0 <= i < b - a implies s.subrange(pos + a, pos + b)[i] == t.subrange(
            a,
            b,
        )[i] by {
            assert(s[pos + a + i] == s.subrange(pos, pos + t.len())[a + i]);
        }
    }
    assert forall|i: int| a <= i < b implies #[trigger] s[pos + i] == t[i] by {
        assert(s[pos + i] == s.subrange(pos, pos + t.len())[i]);
    }
}

/// Reading a line `tag`, `line`, line break that stands at `pos`.
proof fn lemma_line(s: Seq<char>, pos: int, tag: char, line: Seq<char>, rest: Seq<char>)
    requires
        stands_at(s, pos, seq![tag] + line + crlf() + rest),
        no_crlf(line),
    ensures
        s[pos] == tag,
        find_crlf(s, pos + 1) == Some(pos + 1 + line.len()),
        s.subrange(pos + 1, pos + 1 + line.len()) == line,
{
    let t = seq![tag] + line + crlf() + rest;
    let ll = line.len() as int;
    lemma_piece(s, pos, t, 0, 1);
    lemma_piece(s, pos, t, 1, ll + 3);
    assert(t.subrange(1, ll + 3) =~= line + crlf());
    lemma_find_line_end(s, pos + 1, line);
    lemma_piece(s, pos, t, 1, ll + 1);
    assert(t.subrange(1, ll + 1) =~= line);
}

proof fn lemma_frame(v: Value, s: Seq<char>, pos: int)
    requires
        decodable(v),
        stands_at(s, pos, encode_value(v)),
    ensures
        parse_frame(s, pos) == Ok::<(Value, int), ProtoParseError>(
            (v, pos + encode_value(v).len()),
        ),
    decreases v, 0int,
{
    let t = encode_value(v);
    match v {
        Value::SimpleString(x) => {
            assert(t =~= seq!['+'] + x + crlf() + Seq::empty());
            lemma_line(s, pos, '+', x, Seq::empty());
        },
        Value::Int(n) => {
            lemma_int_text(n);
            assert(t =~= seq![':'] + int_text(n) + crlf() + Seq::empty());
            lemma_line(s, pos, ':', int_text(n), Seq::empty());
        },
        Value::BulkString(x) => {
            let h = nat_text(x.len());
            let hl = h.len() as int;
            let xl = x.len() as int;
            lemma_len_text(x.len());
            assert(t =~= seq!['$'] + h + crlf() + (x + crlf()));
            lemma_line(s, pos, '$', h, x + crlf());
            let next = pos + 1 + hl + 2;
            lemma_piece(s, pos, t, hl + 3, t.len() as int);
            assert(t.subrange(hl + 3, t.len() as int) =~= x + crlf());
            assert(s[next + xl] == (x + crlf())[xl]);
            assert(s[next + xl + 1] == (x + crlf())[xl + 1]);
            lemma_piece(s, pos, t, hl + 3, hl + 3 + xl);
            assert(t.subrange(hl + 3, hl + 3 + xl) =~= x);
        },
        Value::Array(xs) => {
            let h = nat_text(xs.len());
            let hl = h.len() as int;
            lemma_len_text(xs.len());
            let body = if xs.len() == 0 { crlf() } else { elems_text(xs) };
            assert(t =~= seq!['*'] + h + crlf() + body);
            lemma_line(s, pos, '*', h, body);
            let next = pos + 1 + hl + 2;
            lemma_piece(s, pos, t, hl + 3, t.len() as int);
            assert(t.subrange(hl + 3, t.len() as int) =~= body);
            if xs.len() == 0 {
                assert(s[next] == body[0]);
                assert(s[next + 1] == body[1]);
                assert(xs =~= Seq::<Value>::empty());
            } else {
                lemma_elems(xs, s, next);
            }
        },
        Value::Bool(b) => {
            let c = if b { 't' } else { 'f' };
            assert(t =~= seq!['#'] + seq![c] + crlf() + Seq::empty());
            assert(no_crlf(seq![c]));
            lemma_line(s, pos, '#', seq![c], Seq::empty());
        },
        Value::Double(x) => {
            assert(t =~= seq![','] + x + crlf() + Seq::empty());
            lemma_line(s, pos, ',', x, Seq::empty());
        },
        Value::Null => {
            assert(t =~= seq!['_'] + Seq::empty() + crlf() + Seq::empty());
            lemma_line(s, pos, '_', Seq::empty(), Seq::empty());
        },
        _ => {},
    }
}

proof fn lemma_elems(xs: Seq<Value>, s: Seq<char>, pos: int)
    requires
        forall|i: int| 0 <= i < xs.len() ==> decodable(#[trigger] xs[i]),
        stands_at(s, pos, elems_text(xs)),
    ensures
        parse_elems(s, pos, xs.len()) == Ok::<(Seq<Value>, int), ProtoParseError>(
            (xs, pos + elems_text(xs).len()),
        ),
    decreases xs, 1int,
{
    if xs.len() == 0 {
        assert(xs =~= Seq::<Value>::empty());
    } else {
        let t = elems_text(xs);
        let first = encode_value(xs[0]);
        let fl = first.len() as int;
        let tail = xs.subrange(1, xs.len() as int);
        lemma_elems_front(xs);
        lemma_piece(s, pos, t, 0, fl);
        assert(t.subrange(0, fl) =~= first);
        lemma_frame(xs[0], s, pos);
        let e1 = pos + fl;
        assert(s[e1] == t[fl]);
        assert(s[e1 + 1] == t[fl + 1]);
        let e2 = e1 + 2;
        lemma_piece(s, pos, t, fl + 2, t.len() as int);
        assert(t.subrange(fl + 2, t.len() as int) =~= elems_text(tail));
        assert forall|i: int| 0 <= i < tail.len() implies decodable(#[trigger] tail[i]) by {
            assert(tail[i] == xs[i + 1]);
        }
        lemma_elems(tail, s, e2);
        assert(seq![xs[0]] + tail =~= xs);
    }
}

/// Decoding the encoding of a value gives the value back, for every value
/// that the decoder reads.
pub proof fn lemma_decode_encode(v: Value)
    requires
        decodable(v),
    ensures
        decode_value(encode_value(v)) == Ok::<Value, ProtoParseError>(v),
{
    let s = encode_value(v);
    assert(s.subrange(0, s.len() as int) =~= s);
    lemma_frame(v, s, 0);
}


/// What is left of `s` from `pos` on is a beginning of `t`.
pub open spec fn prefix_at(s: Seq<char>, pos: int, t: Seq<char>) -> bool {
    0 <= pos <= s.len() && s.len() - pos <= t.len() && s.subrange(pos, s.len() as int)
        == t.subrange(0, s.len() - pos)
}

proof fn lemma_prefix_index(s: Seq<char>, pos: int, t: Seq<char>)
    requires
        prefix_at(s, pos, t),
    ensures
        forall|i: int| 0 <= i < s.len() - pos ==> #[trigger] s[pos + i] == t[i],
{
    assert forall|i: int| 0 <= i < s.len() - pos implies #[trigger] s[pos + i] == t[i] by {
        assert(s[pos + i] == s.subrange(pos, s.len() as int)[i]);
        assert(t[i] == t.subrange(0, s.len() - pos)[i]);
    }
}

/// A beginning of `t` that holds its first `b` characters holds them.
proof fn lemma_prefix_stands(s: Seq<char>, pos: int, t: Seq<char>, b: int)
    requires
        prefix_at(s, pos, t),
        0 <= b <= s.len() - pos,
    ensures
        stands_at(s, pos, t.subrange(0, b)),
{
    lemma_prefix_index(s, pos, t);
    assert(s.subrange(pos, pos + b) =~= t.subrange(0, b)) by {
        assert forall|i: int| 0 <= i < b implies s.subrange(pos, pos + b)[i] == t.subrange(0, b)[i] by {
            assert(s[pos + i] == t[i]);
        }
    }
}

/// Moving the start of a beginning on by `d` characters.
proof fn lemma_prefix_shift(s: Seq<char>, pos: int, t: Seq<char>, d: int)
    requires
        prefix_at(s, pos, t),
        0 <= d <= s.len() - pos,
    ensures
        prefix_at(s, pos + d, t.subrange(d, t.len() as int)),
{
    lemma_prefix_index(s, pos, t);
    let u = t.subrange(d, t.len() as int);
    let m = s.len() - pos - d;
    assert(s.subrange(pos + d, s.len() as int) =~= u.subrange(0, m)) by {
        assert forall|i: int| 0 <= i < m implies s.subrange(pos + d, s.len() as int)[i] == u.subrange(0, m)[i] by {
            assert(s[pos + (d + i)] == t[d + i]);
        }
    }
}

proof fn lemma_no_line_end(s: Seq<char>, from: int, t: Seq<char>)
    requires
        prefix_at(s, from, t + crlf()),
        s.len() - from < t.len() + 2,
        no_crlf(t),
    ensures
        find_crlf(s, from) is None,
    decreases s.len() - from,
{
    if from + 1 < s.len() {
        let w = t + crlf();
        lemma_prefix_index(s, from, w);
        assert(s[from + 0] == w[0]);
        assert(s[from + 1] == w[1]);
        if t.len() > 1 {
            assert(!is_crlf_at(t, 0));
        }
        assert(!is_crlf_at(s, from));
        let u = t.drop_first();
        assert forall|i: int| #![trigger u[i]] 0 <= i < u.len() implies !is_crlf_at(u, i) by {
            assert(!is_crlf_at(t, i + 1));
        }
        lemma_prefix_shift(s, from, w, 1);
        assert(w.subrange(1, w.len() as int) =~= u + crlf());
        lemma_no_line_end(s, from + 1, u);
    }
}

/// Reading the first line of a beginning of `tag`, `line`, line break, `rest`.
proof fn lemma_header(s: Seq<char>, pos: int, tag: char, line: Seq<char>, rest: Seq<char>)
    requires
        prefix_at(s, pos, seq![tag] + line + crlf() + rest),
        pos < s.len(),
        no_crlf(line),
    ensures
        s[pos] == tag,
        s.len() - pos >= line.len() + 3 ==> find_crlf(s, pos + 1) == Some(pos + 1 + line.len())
            && s.subrange(pos + 1, pos + 1 + line.len()) == line
            && prefix_at(s, pos + line.len() + 3, rest),
        s.len() - pos < line.len() + 3 ==> find_crlf(s, pos + 1) is None,
{
    let t = seq![tag] + line + crlf() + rest;
    let ll = line.len() as int;
    lemma_prefix_index(s, pos, t);
    assert(s[pos + 0] == t[0]);
    if s.len() - pos >= ll + 3 {
        lemma_prefix_stands(s, pos, t, ll + 3);
        assert(t.subrange(0, ll + 3) =~= seq![tag] + line + crlf() + Seq::empty());
        lemma_line(s, pos, tag, line, Seq::empty());
        lemma_prefix_shift(s, pos, t, ll + 3);
        assert(t.subrange(ll + 3, t.len() as int) =~= rest);
    } else {
        lemma_prefix_shift(s, pos, t, 1);
        assert(t.subrange(1, t.len() as int) =~= line + crlf() + rest);
        let w = line + crlf();
        assert(prefix_at(s, pos + 1, w)) by {
            let m = s.len() - pos - 1;
            assert((line + crlf() + rest).subrange(0, m) =~= w.subrange(0, m));
        }
        lemma_no_line_end(s, pos + 1, line);
    }
}

proof fn lemma_frame_prefix(v: Value, s: Seq<char>, pos: int)
    requires
        decodable(v),
        prefix_at(s, pos, encode_value(v)),
        s.len() - pos < encode_value(v).len(),
    ensures
        parse_frame(s, pos) == Err::<(Value, int), ProtoParseError>(ProtoParseError::IncompleteInput)
            || parse_frame(s, pos) == Ok::<(Value, int), ProtoParseError>((v, s.len() as int)),
    decreases v, 0int,
{
    if pos == s.len() {
        return;
    }
    let t = encode_value(v);
    match v {
        Value::SimpleString(x) => {
            assert(t =~= seq!['+'] + x + crlf() + Seq::empty());
            lemma_header(s, pos, '+', x, Seq::empty());
        },
        Value::Int(n) => {
            lemma_int_text(n);
            assert(t =~= seq![':'] + int_text(n) + crlf() + Seq::empty());
            lemma_header(s, pos, ':', int_text(n), Seq::empty());
        },
        Value::BulkString(x) => {
            let h = nat_text(x.len());
            lemma_len_text(x.len());
            assert(t =~= seq!['$'] + h + crlf() + (x + crlf()));
            lemma_header(s, pos, '$', h, x + crlf());
        },
        Value::Array(xs) => {
            let h = nat_text(xs.len());
            let hl = h.len() as int;
            lemma_len_text(xs.len());
            let body = if xs.len() == 0 { crlf() } else { elems_text(xs) };
            assert(t =~= seq!['*'] + h + crlf() + body);
            lemma_header(s, pos, '*', h, body);
            if s.len() - pos >= hl + 3 {
                let next = pos + hl + 3;
                if xs.len() == 0 {
                    assert(xs =~= Seq::<Value>::empty());
                    if s.len() == next + 1 {
                        lemma_prefix_index(s, next, body);
                        assert(s[next + 0] == body[0]);
                    }
                } else {
                    lemma_elems_prefix(xs, s, next);
                }
            }
        },
        Value::Bool(b) => {
            let c = if b { 't' } else { 'f' };
            assert(t =~= seq!['#'] + seq![c] + crlf() + Seq::empty());
            assert(no_crlf(seq![c]));
            lemma_header(s, pos, '#', seq![c], Seq::empty());
        },
        Value::Double(x) => {
            assert(t =~= seq![','] + x + crlf() + Seq::empty());
            lemma_header(s, pos, ',', x, Seq::empty());
        },
        Value::Null => {
            assert(t =~= seq!['_'] + Seq::empty() + crlf() + Seq::empty());
            lemma_header(s, pos, '_', Seq::empty(), Seq::empty());
        },
        _ => {},
    }
}

proof fn lemma_elems_prefix(xs: Seq<Value>, s: Seq<char>, pos: int)
    requires
        xs.len() >= 1,
        forall|i: int| 0 <= i < xs.len() ==> decodable(#[trigger] xs[i]),
        prefix_at(s, pos, elems_text(xs)),
        s.len() - pos < elems_text(xs).len(),
    ensures
        parse_elems(s, pos, xs.len()) == Err::<(Seq<Value>, int), ProtoParseError>(
            ProtoParseError::IncompleteInput,
        ) || parse_elems(s, pos, xs.len()) == Ok::<(Seq<Value>, int), ProtoParseError>(
            (xs, s.len() as int),
        ),
    decreases xs, 1int,
{
    let t = elems_text(xs);
    let first = encode_value(xs[0]);
    let fl = first.len() as int;
    let tail = xs.subrange(1, xs.len() as int);
    let k = xs.len();
    lemma_elems_front(xs);
    assert(seq![xs[0]] + tail =~= xs);
    assert forall|i: int| 0 <= i < tail.len() implies decodable(#[trigger] tail[i]) by {
        assert(tail[i] == xs[i + 1]);
    }
    let n = s.len() as int;
    if n - pos < fl {
        assert(prefix_at(s, pos, first)) by {
            assert(t.subrange(0, n - pos) =~= first.subrange(0, n - pos));
        }
        lemma_frame_prefix(xs[0], s, pos);
        if parse_frame(s, pos) is Ok {
            assert(skip_crlf(s, n) == Some(n));
            assert(pos < n);
            if k > 1 {
                assert(parse_frame(s, n) == Err::<(Value, int), ProtoParseError>(
                    ProtoParseError::IncompleteInput,
                ));
                assert(parse_elems(s, n, (k - 1) as nat) == Err::<(Seq<Value>, int), ProtoParseError>(
                    ProtoParseError::IncompleteInput,
                ));
            } else {
                assert(tail =~= Seq::<Value>::empty());
                assert(parse_elems(s, n, (k - 1) as nat) == Ok::<(Seq<Value>, int), ProtoParseError>(
                    (Seq::empty(), n),
                ));
            }
        }
    } else {
        lemma_prefix_stands(s, pos, t, fl);
        assert(t.subrange(0, fl) =~= first);
        lemma_frame(xs[0], s, pos);
        let e1 = pos + fl;
        lemma_prefix_index(s, pos, t);
        if n >= e1 + 2 {
            assert(s[pos + fl] == t[fl]);
            assert(s[pos + (fl + 1)] == t[fl + 1]);
            assert(skip_crlf(s, e1) == Some(e1 + 2));
            lemma_prefix_shift(s, pos, t, fl + 2);
            assert(t.subrange(fl + 2, t.len() as int) =~= elems_text(tail));
            if tail.len() == 0 {
                assert(false);
            }
            lemma_elems_prefix(tail, s, e1 + 2);
        } else if n == e1 + 1 {
            assert(s[pos + fl] == t[fl]);
            assert(skip_crlf(s, e1) is None);
        } else {
            assert(skip_crlf(s, e1) == Some(e1));
            if k > 1 {
                assert(parse_frame(s, n) == Err::<(Value, int), ProtoParseError>(
                    ProtoParseError::IncompleteInput,
                ));
                assert(parse_elems(s, n, (k - 1) as nat) == Err::<(Seq<Value>, int), ProtoParseError>(
                    ProtoParseError::IncompleteInput,
                ));
            } else {
                assert(tail =~= Seq::<Value>::empty());
                assert(parse_elems(s, n, (k - 1) as nat) == Ok::<(Seq<Value>, int), ProtoParseError>(
                    (Seq::empty(), n),
                ));
            }
        }
    }
}

/// A frame cut short is no protocol error: every proper beginning of the
/// encoding of a value that the decoder reads decodes as incomplete input,
/// or already as that value.
pub proof fn lemma_prefix_incomplete(v: Value, k: int)
    requires
        decodable(v),
        0 <= k < encode_value(v).len(),
    ensures
        decode_value(encode_value(v).subrange(0, k)) == Err::<Value, ProtoParseError>(
            ProtoParseError::IncompleteInput,
        ) || decode_value(encode_value(v).subrange(0, k)) == Ok::<Value, ProtoParseError>(v),
{
    let t = encode_value(v);
    let s = t.subrange(0, k);
    assert(s.subrange(0, k) =~= t.subrange(0, k));
    lemma_frame_prefix(v, s, 0);
}

/// A frame that arrives in two reads: once the first has landed the decoder
/// asks for more input (or already has the value), and once both have landed
/// it gives the value.
pub proof fn lemma_two_reads(v: Value, first: Seq<char>, second: Seq<char>)
    requires
        decodable(v),
        first + second == encode_value(v),
        second.len() > 0,
    ensures
        decode_value(first) == Err::<Value, ProtoParseError>(ProtoParseError::IncompleteInput)
            || decode_value(first) == Ok::<Value, ProtoParseError>(v),
        decode_value(first + second) == Ok::<Value, ProtoParseError>(v),
{
    let t = encode_value(v);
    assert(t.subrange(0, first.len() as int) =~= first);
    lemma_prefix_incomplete(v, first.len() as int);
    lemma_decode_encode(v);
}

} // verus!
