use vstd::prelude::*;

use crate::text::{
    find_crlf, find_crlf_from, is_crlf_at, is_float_field, is_float_text, parse_int_field,
    parse_int_text, parse_len_field, parse_len_text, slice_chars,
};
use crate::value::{RedisProto, Value};

verus! {

/// Why a frame could not be decoded.
#[derive(Debug, Clone, Copy, PartialEq, Eq, Structural)]
pub enum ProtoParseError {
    MalformedInput,
    IncompleteInput,
    NoImpl,
    ParseIntError,
    ParseFloatError,
}

/// The tags that this decoder reads.
pub open spec fn is_decoded_tag(c: char) -> bool {
    c == '+' || c == ':' || c == '$' || c == '*' || c == '_' || c == '#' || c == ','
}

/// Where the next frame starts after a frame that ends at `i`: past one line
/// break, if there is one. `None` when the input ends in the middle of one.
pub open spec fn skip_crlf(s: Seq<char>, i: int) -> Option<int> {
    if is_crlf_at(s, i) {
        Some(i + 2)
    } else if 0 <= i && i + 1 == s.len() && s[i] == '\r' {
        None
    } else {
        Some(i)
    }
}

/// Decodes the frame that starts at `pos`: its value and the position just
/// after it.
pub open spec fn parse_frame(s: Seq<char>, pos: int) -> Result<(Value, int), ProtoParseError>
    decreases s.len() - pos, 0int,
{
    if pos < 0 || pos >= s.len() {
        Err(ProtoParseError::IncompleteInput)
    } else if !is_decoded_tag(s[pos]) {
        Err(ProtoParseError::NoImpl)
    } else {
        match find_crlf(s, pos + 1) {
            None => Err(ProtoParseError::IncompleteInput),
            Some(e) => {
                if !(pos < e && e < s.len() && 2 <= s.len() - e) {
                    Err(ProtoParseError::IncompleteInput)
                } else {
                    let tag = s[pos];
                    let line = s.subrange(pos + 1, e);
                    let next = e + 2;
                    if tag == '+' {
                        Ok((Value::SimpleString(line), next))
                    } else if tag == ':' {
                        match parse_int_text(line) {
                            Some(n) => Ok((Value::Int(n), next)),
                            None => Err(ProtoParseError::ParseIntError),
                        }
                    } else if tag == ',' {
                        if is_float_text(line) {
                            Ok((Value::Double(line), next))
                        } else {
                            Err(ProtoParseError::ParseFloatError)
                        }
                    } else if tag == '#' {
                        if line == seq!['t'] {
                            Ok((Value::Bool(true), next))
                        } else if line == seq!['f'] {
                            Ok((Value::Bool(false), next))
                        } else {
                            Err(ProtoParseError::MalformedInput)
                        }
                    } else if tag == '_' {
                        if line.len() == 0 {
                            Ok((Value::Null, next))
                        } else {
                            Err(ProtoParseError::MalformedInput)
                        }
                    } else if tag == '$' {
                        match parse_len_text(line) {
                            None => Err(ProtoParseError::ParseIntError),
                            Some(n) => if next + n + 2 <= s.len() && is_crlf_at(s, next + n) {
                                Ok((Value::BulkString(s.subrange(next, next + n)), next + n + 2))
                            } else {
                                Err(ProtoParseError::IncompleteInput)
                            },
                        }
                    } else {
                        match parse_len_text(line) {
                            None => Err(ProtoParseError::ParseIntError),
                            Some(n) => if n == 0 {
                                match skip_crlf(s, next) {
                                    Some(end) => Ok((Value::Array(Seq::empty()), end)),
                                    None => Err(ProtoParseError::IncompleteInput),
                                }
                            } else {
                                match parse_elems(s, next, n) {
                                    Ok((xs, end)) => Ok((Value::Array(xs), end)),
                                    Err(x) => Err(x),
                                }
                            },
                        }
                    }
                }
            },
        }
    }
}

/// Decodes `k` frames from `pos` on, each optionally followed by a line break.
pub open spec fn parse_elems(s: Seq<char>, pos: int, k: nat) -> Result<
    (Seq<Value>, int),
    ProtoParseError,
>
    decreases s.len() - pos, 1int,
{
    if k == 0 {
        Ok((Seq::empty(), pos))
    } else if pos < 0 || pos > s.len() {
        Err(ProtoParseError::IncompleteInput)
    } else {
        match parse_frame(s, pos) {
            Err(x) => Err(x),
            Ok((v, e1)) => match skip_crlf(s, e1) {
                None => Err(ProtoParseError::IncompleteInput),
                Some(e2) => if !(pos < e2 <= s.len()) {
                    Err(ProtoParseError::IncompleteInput)
                } else {
                    match parse_elems(s, e2, (k - 1) as nat) {
                        Err(x) => Err(x),
                        Ok((vs, e3)) => Ok((seq![v] + vs, e3)),
                    }
                },
            },
        }
    }
}

/// What a text decodes to: the first frame in it.
pub open spec fn decode_value(s: Seq<char>) -> Result<Value, ProtoParseError> {
    match parse_frame(s, 0) {
        Ok((v, _)) => Ok(v),
        Err(x) => Err(x),
    }
}

pub open spec fn with_prefix(
    a: Seq<Value>,
    r: Result<(Seq<Value>, int), ProtoParseError>,
) -> Result<(Seq<Value>, int), ProtoParseError> {
    match r {
        Ok((vs, e)) => Ok((a + vs, e)),
        Err(x) => Err(x),
    }
}

/// Relies on `str::chars`: the characters of `text`, in order.
#[verifier::external_body]
fn chars_of(text: &str) -> (r: Vec<char>)
    ensures
        r@ == text@,
{
    text.chars().collect()
}

/// Relies on `String`'s `FromIterator<char>`: the string of the characters of
/// `s` from `a` up to `b`, in order.
#[verifier::external_body]
fn string_of(s: &Vec<char>, a: usize, b: usize) -> (r: String)
    requires
        a <= b <= s@.len(),
    ensures
        r@ == s@.subrange(a as int, b as int),
{
    s[a..b].iter().collect()
}

fn skip_line_break(s: &Vec<char>, i: usize) -> (r: Option<usize>)
    ensures
        r matches Some(e) ==> skip_crlf(s@, i as int) == Some(e as int),
        r is None ==> skip_crlf(s@, i as int) is None,
{
    if i < s.len() && i + 1 < s.len() && s[i] == '\r' && s[i + 1] == '\n' {
        Some(i + 2)
    } else if i < s.len() && i + 1 == s.len() && s[i] == '\r' {
        None
    } else {
        Some(i)
    }
}

/// Decodes the frame of `s` that starts at `pos`.
fn decode_frame(s: &Vec<char>, pos: usize) -> (r: Result<
    (RedisProto, usize),
    ProtoParseError,
>)
    ensures
        match r {
            Ok((v, e)) => parse_frame(s@, pos as int) == Ok::<(Value, int), ProtoParseError>(
                (v@, e as int),
            ),
            Err(x) => parse_frame(s@, pos as int) == Err::<(Value, int), ProtoParseError>(x),
        },
    decreases s@.len() - pos, 0int,
{
    if pos >= s.len() {
        return Err(ProtoParseError::IncompleteInput);
    }
    let tag = s[pos];
    if !(tag == '+' || tag == ':' || tag == '$' || tag == '*' || tag == '_' || tag == '#' || tag
        == ',') {
        return Err(ProtoParseError::NoImpl);
    }
    let e = match find_crlf_from(s, pos + 1) {
        None => {
            return Err(ProtoParseError::IncompleteInput);
        },
        Some(e) => e,
    };
    if !(pos < e && e < s.len() && 2 <= s.len() - e) {
        return Err(ProtoParseError::IncompleteInput);
    }
    let line = slice_chars(s, pos + 1, e);
    let next = e + 2;
    let ghost sline = s@.subrange(pos + 1, e as int);
    if tag == '+' {
        Ok((RedisProto::SimpleString(string_of(s, pos + 1, e)), next))
    } else if tag == ':' {
        match parse_int_field(&line) {
            Some(n) => Ok((RedisProto::Int(n), next)),
            None => Err(ProtoParseError::ParseIntError),
        }
    } else if tag == ',' {
        if is_float_field(&line) {
            Ok((RedisProto::Double(string_of(s, pos + 1, e)), next))
        } else {
            Err(ProtoParseError::ParseFloatError)
        }
    } else if tag == '#' {
        if line.len() == 1 && line[0] == 't' {
            assert(sline =~= seq!['t']);
            Ok((RedisProto::Bool(true), next))
        } else if line.len() == 1 && line[0] == 'f' {
            assert(sline =~= seq!['f']);
            Ok((RedisProto::Bool(false), next))
        } else {
            assert(sline != seq!['t'] && sline != seq!['f']) by {
                if sline == seq!['t'] || sline == seq!['f'] {
                    assert(sline[0] == line@[0]);
                }
            }
            Err(ProtoParseError::MalformedInput)
        }
    } else if tag == '_' {
        if line.len() == 0 {
            Ok((RedisProto::Null, next))
        } else {
            Err(ProtoParseError::MalformedInput)
        }
    } else if tag == '$' {
        match parse_len_field(&line) {
            None => Err(ProtoParseError::ParseIntError),
            Some(n) => {
                if n <= s.len() - next && 2 <= s.len() - next - n && s[next + n] == '\r' && s[next
                    + n + 1] == '\n' {
                    Ok((RedisProto::BulkString(string_of(s, next, next + n)), next + n + 2))
                } else {
                    Err(ProtoParseError::IncompleteInput)
                }
            },
        }
    } else {
        match parse_len_field(&line) {
            None => Err(ProtoParseError::ParseIntError),
            Some(n) => {
                if n == 0 {
                    let v = RedisProto::Array(Vec::new());
                    assert(v@ == Value::Array(Seq::empty())) by {
                        assert(v@->Array_0 =~= Seq::<Value>::empty());
                    }
                    match skip_line_break(s, next) {
                        Some(end) => Ok((v, end)),
                        None => Err(ProtoParseError::IncompleteInput),
                    }
                } else {
                    match decode_elems(s, next, n) {
                        Ok((xs, end)) => {
                            let v = RedisProto::Array(xs);
                            proof {
                                let ghost ev = parse_elems(s@, next as int, n as nat);
                                assert(v@->Array_0 =~= ev->Ok_0.0);
                            }
                            Ok((v, end))
                        },
                        Err(x) => Err(x),
                    }
                }
            },
        }
    }
}

/// Decodes `k` frames of `s` from `pos` on, each optionally followed by a
/// line break.
fn decode_elems(s: &Vec<char>, pos: usize, k: usize) -> (r: Result<
    (Vec<RedisProto>, usize),
    ProtoParseError,
>)
    requires
        pos <= s@.len(),
    ensures
        match r {
            Ok((xs, e)) => parse_elems(s@, pos as int, k as nat) matches Ok((vs, e2)) && e2
                == e as int && vs.len() == xs@.len() && forall|i: int|
                0 <= i < vs.len() ==> #[trigger] vs[i] == xs@[i]@,
            Err(x) => parse_elems(s@, pos as int, k as nat) == Err::<(Seq<Value>, int), ProtoParseError>(x),
        },
    decreases s@.len() - pos, 1int,
{
    let mut xs: Vec<RedisProto> = Vec::new();
    let mut p: usize = pos;
    let mut left: usize = k;
    let ghost acc: Seq<Value> = Seq::empty();
    while left > 0
        invariant
            pos <= p <= s@.len(),
            acc.len() == xs@.len(),
            forall|i: int| 0 <= i < acc.len() ==> #[trigger] acc[i] == xs@[i]@,
            parse_elems(s@, pos as int, k as nat) == with_prefix(
                acc,
                parse_elems(s@, p as int, left as nat),
            ),
        decreases left,
    {
        let (v, e1) = match decode_frame(s, p) {
            Ok(f) => f,
            Err(x) => {
                return Err(x);
            },
        };
        let e2 = match skip_line_break(s, e1) {
            Some(e2) => e2,
            None => {
                return Err(ProtoParseError::IncompleteInput);
            },
        };
        if !(p < e2 && e2 <= s.len()) {
            return Err(ProtoParseError::IncompleteInput);
        }
        proof {
            let r = parse_elems(s@, e2 as int, (left - 1) as nat);
            assert(parse_elems(s@, p as int, left as nat) == with_prefix(seq![v@], r));
            match r {
                Ok((vs, e3)) => {
                    assert(acc + (seq![v@] + vs) =~= acc.push(v@) + vs);
                },
                Err(_) => {},
            }
            acc = acc.push(v@);
        }
        xs.push(v);
        p = e2;
        left = left - 1;
    }
    proof {
        assert(acc + Seq::<Value>::empty() =~= acc);
    }
    Ok((xs, p))
}

impl RedisProto {
    /// Decodes the first frame of `text`.
    pub fn decode(text: &str) -> (r: Result<RedisProto, ProtoParseError>)
        ensures
            match r {
                Ok(v) => decode_value(text@) == Ok::<Value, ProtoParseError>(v@),
                Err(x) => decode_value(text@) == Err::<Value, ProtoParseError>(x),
            },
    {
        let s = chars_of(text);
        match decode_frame(&s, 0) {
            Ok((v, _)) => Ok(v),
            Err(x) => Err(x),
        }
    }
}

} // verus!
