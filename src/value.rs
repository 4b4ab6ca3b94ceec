use vstd::prelude::*;

verus! {

/// A wire-level value.
///
/// `Double` carries the decimal text of the number as it stands on the wire.
#[derive(Debug, PartialEq)]
pub enum RedisProto {
    SimpleString(String),
    SimpleErr(String),
    Int(i64),
    BulkString(String),
    Array(Vec<RedisProto>),
    Bool(bool),
    Double(String),
    BigInt(i128),
    BulkErr(String),
    Null,
}

/// The mathematical model of a wire-level value.
pub enum Value {
    SimpleString(Seq<char>),
    SimpleErr(Seq<char>),
    Int(int),
    BulkString(Seq<char>),
    Array(Seq<Value>),
    Bool(bool),
    Double(Seq<char>),
    BigInt(int),
    BulkErr(Seq<char>),
    Null,
}

impl View for RedisProto {
    type V = Value;

    open spec fn view(&self) -> Value
        decreases self,
    {
        match self {
            RedisProto::SimpleString(s) => Value::SimpleString(s@),
            RedisProto::SimpleErr(s) => Value::SimpleErr(s@),
            RedisProto::Int(n) => Value::Int(*n as int),
            RedisProto::BulkString(s) => Value::BulkString(s@),
            RedisProto::Array(xs) => Value::Array(
                Seq::new(xs@.len(), |i: int| if 0 <= i < xs@.len() { xs@[i].view() } else { Value::Null }),
            ),
            RedisProto::Bool(b) => Value::Bool(*b),
            RedisProto::Double(s) => Value::Double(s@),
            RedisProto::BigInt(n) => Value::BigInt(*n as int),
            RedisProto::BulkErr(s) => Value::BulkErr(s@),
            RedisProto::Null => Value::Null,
        }
    }
}

} // verus!

verus! {

impl RedisProto {
    /// A deep copy of this value.
    pub fn duplicate(&self) -> (r: RedisProto)
        ensures
            r@ == self@,
        decreases self,
    {
        match self {
            RedisProto::SimpleString(s) => RedisProto::SimpleString(s.clone()),
            RedisProto::SimpleErr(s) => RedisProto::SimpleErr(s.clone()),
            RedisProto::Int(n) => RedisProto::Int(*n),
            RedisProto::BulkString(s) => RedisProto::BulkString(s.clone()),
            RedisProto::Array(xs) => {
                let mut ys: Vec<RedisProto> = Vec::new();
                let mut i: usize = 0;
                while i < xs.len()
                    invariant
                        i <= xs@.len(),
                        ys@.len() == i,
                        *self == (RedisProto::Array(*xs)),
                        self@ == (Value::Array(self@->Array_0)),
                        forall|k: int| 0 <= k < xs@.len() ==> #[trigger] self@->Array_0[k] == xs@[k]@,
                        forall|k: int| 0 <= k < i ==> #[trigger] ys@[k]@ == xs@[k]@,
                    decreases xs@.len() - i,
                {
                    assert(decreases_to!(self => xs@[i as int]));
                    ys.push(xs[i].duplicate());
                    i = i + 1;
                }
                let r = RedisProto::Array(ys);
                assert(r@->Array_0 =~= self@->Array_0) by {
                    assert(r@->Array_0.len() == self@->Array_0.len());
                    assert forall|k: int| 0 <= k < xs@.len() implies r@->Array_0[k]
                        == self@->Array_0[k] by {
                        assert(ys@[k]@ == xs@[k]@);
                    }
                }
                r
            },
            RedisProto::Bool(b) => RedisProto::Bool(*b),
            RedisProto::Double(s) => RedisProto::Double(s.clone()),
            RedisProto::BigInt(n) => RedisProto::BigInt(*n),
            RedisProto::BulkErr(s) => RedisProto::BulkErr(s.clone()),
            RedisProto::Null => RedisProto::Null,
        }
    }
}

} // verus!
