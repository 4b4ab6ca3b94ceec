use vstd::prelude::*;
use vstd::string::StringExecFns;

use crate::text::{crlf, digit_char, int_text, nat_text};
use crate::value::{RedisProto, Value};

verus! {

/// The wire text of a value.
pub open spec fn encode_value(v: Value) -> Seq<char>
    decreases v,
{
    match v {
        Value::SimpleString(s) => seq!['+'] + s + crlf(),
        Value::SimpleErr(s) => seq!['-'] + s + crlf(),
        Value::Int(n) => seq![':'] + int_text(n) + crlf(),
        Value::BulkString(s) => seq!['$'] + nat_text(s.len()) + crlf() + s + crlf(),
        Value::Array(xs) => seq!['*'] + nat_text(xs.len()) + crlf() + if xs.len() == 0 {
            crlf()
        } else {
            elems_text(xs)
        },
        Value::Bool(b) => seq!['#', if b { 't' } else { 'f' }] + crlf(),
        Value::Double(t) => seq![','] + t + crlf(),
        Value::BigInt(n) => seq!['('] + int_text(n) + crlf(),
        Value::BulkErr(s) => seq!['!'] + nat_text(s.len()) + crlf() + s + crlf(),
        Value::Null => seq!['_'] + crlf(),
    }
}

/// The elements of an array, each encoded and followed by a line break: the
/// encodings joined by line breaks, with one more at the end.
pub open spec fn elems_text(xs: Seq<Value>) -> Seq<char>
    decreases xs,
{
    if xs.len() == 0 {
        Seq::empty()
    } else {
        elems_text(xs.subrange(0, xs.len() - 1)) + encode_value(xs[xs.len() - 1]) + crlf()
    }
}

fn digit_str(d: u128) -> (r: &'static str)
    requires
        d < 10,
    ensures
        r@ == seq![digit_char(d as nat)],
{
    proof {
        reveal_strlit("0");
        reveal_strlit("1");
        reveal_strlit("2");
        reveal_strlit("3");
        reveal_strlit("4");
        reveal_strlit("5");
        reveal_strlit("6");
        reveal_strlit("7");
        reveal_strlit("8");
        reveal_strlit("9");
    }
    let r = if d == 0 { "0" }
    else if d == 1 { "1" }
    else if d == 2 { "2" }
    else if d == 3 { "3" }
    else if d == 4 { "4" }
    else if d == 5 { "5" }
    else if d == 6 { "6" }
    else if d == 7 { "7" }
    else if d == 8 { "8" }
    else { "9" };
    assert(r@ =~= seq![digit_char(d as nat)]);
    r
}

/// Appends the decimal text of `n`.
fn append_nat(out: &mut String, n: u128)
    ensures
        final(out)@ == old(out)@ + nat_text(n as nat),
    decreases n,
{
    if n >= 10 {
        append_nat(out, n / 10);
        out.append(digit_str(n % 10));
        assert(final(out)@ =~= old(out)@ + nat_text(n as nat));
    } else {
        out.append(digit_str(n));
        assert(final(out)@ =~= old(out)@ + nat_text(n as nat));
    }
}

/// Appends the decimal text of `n`, signed.
fn append_int(out: &mut String, n: i128)
    ensures
        final(out)@ == old(out)@ + int_text(n as int),
{
    proof {
        reveal_strlit("-");
    }
    if n < 0 {
        out.append("-");
        let m: u128 = ((-(n + 1)) as u128) + 1;
        append_nat(out, m);
        assert(final(out)@ =~= old(out)@ + int_text(n as int));
    } else {
        append_nat(out, n as u128);
    }
}

/// Appends `tag`, the length of `s`, a line break, `s` and a line break.
fn append_counted(out: &mut String, tag: &str, s: &String)
    ensures
        final(out)@ == old(out)@ + tag@ + nat_text(s@.len()) + crlf() + s@ + crlf(),
{
    proof {
        reveal_strlit("\r\n");
    }
    out.append(tag);
    let n = s.as_str().unicode_len();
    append_nat(out, n as u128);
    out.append("\r\n");
    out.append(s.as_str());
    out.append("\r\n");
    assert(final(out)@ =~= old(out)@ + tag@ + nat_text(s@.len()) + crlf() + s@ + crlf());
}

/// Appends `tag`, `s` and a line break.
fn append_line(out: &mut String, tag: &str, s: &str)
    ensures
        final(out)@ == old(out)@ + tag@ + s@ + crlf(),
{
    proof {
        reveal_strlit("\r\n");
    }
    out.append(tag);
    out.append(s);
    out.append("\r\n");
    assert(final(out)@ =~= old(out)@ + tag@ + s@ + crlf());
}

impl RedisProto {
    /// Appends the wire text of this value to `out`.
    pub fn encode_into(&self, out: &mut String)
        ensures
            final(out)@ == old(out)@ + encode_value(self@),
        decreases self,
    {
        proof {
            reveal_strlit("+");
            reveal_strlit("-");
            reveal_strlit(":");
            reveal_strlit("$");
            reveal_strlit("*");
            reveal_strlit("#t");
            reveal_strlit("#f");
            reveal_strlit(",");
            reveal_strlit("(");
            reveal_strlit("!");
            reveal_strlit("_");
            reveal_strlit("");
            reveal_strlit("\r\n");
        }
        match self {
            RedisProto::SimpleString(s) => append_line(out, "+", s.as_str()),
            RedisProto::SimpleErr(s) => append_line(out, "-", s.as_str()),
            RedisProto::Int(n) => {
                out.append(":");
                append_int(out, *n as i128);
                out.append("\r\n");
                assert(final(out)@ =~= old(out)@ + encode_value(self@));
            },
            RedisProto::BulkString(s) => append_counted(out, "$", s),
            RedisProto::Array(xs) => {
                out.append("*");
                append_nat(out, xs.len() as u128);
                out.append("\r\n");
                let ghost head = out@;
                let ghost vs = self@->Array_0;
                assert(vs.len() == xs@.len());
                let mut i: usize = 0;
                while i < xs.len()
                    invariant
                        i <= xs@.len(),
                        vs.len() == xs@.len(),
                        vs == self@->Array_0,
                        self@ == (Value::Array(vs)),
                        *self == (RedisProto::Array(*xs)),
                        forall|k: int| 0 <= k < xs@.len() ==> #[trigger] vs[k] == xs@[k]@,
                        out@ == head + elems_text(vs.subrange(0, i as int)),
                    decreases xs@.len() - i,
                {
                    assert(decreases_to!(self => xs@[i as int]));
                    proof {
                        reveal_strlit("\r\n");
                    }
                    let ghost before = out@;
                    xs[i].encode_into(out);
                    let ghost s1 = vs.subrange(0, i + 1);
                    assert(s1.len() == i + 1);
                    assert(s1[i as int] == vs[i as int]);
                    assert(vs[i as int] == xs@[i as int]@);
                    out.append("\r\n");
                    assert(vs.subrange(0, i + 1).subrange(0, i as int) =~= vs.subrange(0, i as int));
                    assert(elems_text(s1) == elems_text(s1.subrange(0, i as int)) + encode_value(
                        s1[i as int],
                    ) + crlf());
                    assert(out@ =~= before + encode_value(xs@[i as int]@) + crlf());
                    assert(out@ =~= head + elems_text(vs.subrange(0, i + 1)));
                    i = i + 1;
                }
                if xs.len() == 0 {
                    out.append("\r\n");
                } else {
                    assert(vs.subrange(0, vs.len() as int) =~= vs);
                }
                assert(final(out)@ =~= old(out)@ + encode_value(self@));
            },
            RedisProto::Bool(b) => {
                if *b {
                    out.append("#t");
                } else {
                    out.append("#f");
                }
                out.append("\r\n");
                assert(final(out)@ =~= old(out)@ + encode_value(self@));
            },
            RedisProto::Double(t) => append_line(out, ",", t.as_str()),
            RedisProto::BigInt(n) => {
                out.append("(");
                append_int(out, *n);
                out.append("\r\n");
                assert(final(out)@ =~= old(out)@ + encode_value(self@));
            },
            RedisProto::BulkErr(s) => append_counted(out, "!", s),
            RedisProto::Null => append_line(out, "_", ""),
        }
    }

    /// The wire text of this value.
    pub fn encode(&self) -> (r: String)
        ensures
            r@ == encode_value(self@),
    {
        let mut out = String::new();
        self.encode_into(&mut out);
        assert(out@ =~= encode_value(self@));
        out
    }
}

} // verus!
