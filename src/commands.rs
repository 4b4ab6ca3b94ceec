use vstd::prelude::*;
use vstd::string::StrSliceExecFns;

use crate::store::Store;
use crate::value::{RedisProto, Value};

verus! {

/// A request, decoded from an array of bulk strings.
#[derive(Debug, PartialEq)]
pub enum RedisCommand {
    Get { key: String },
    SetKey { key: String, value: RedisProto },
    Ping,
}

/// Why a request could not be turned into a command or carried out.
#[derive(Debug, Clone, Copy, PartialEq, Eq, Structural)]
pub enum CommandError {
    ParseError,
    InvalidLength,
    InvalidCommand,
    InvalidKey,
}

/// The mathematical model of a command.
pub enum Command {
    Get(Seq<char>),
    SetKey(Seq<char>, Value),
    Ping,
}

impl View for RedisCommand {
    type V = Command;

    open spec fn view(&self) -> Command {
        match self {
            RedisCommand::Get { key } => Command::Get(key@),
            RedisCommand::SetKey { key, value } => Command::SetKey(key@, value@),
            RedisCommand::Ping => Command::Ping,
        }
    }
}

/// Whether `name` spells `lower` (given with its upper-case twin `upper`),
/// letter by letter in either case.
pub open spec fn is_word(name: Seq<char>, lower: Seq<char>, upper: Seq<char>) -> bool {
    name.len() == lower.len() && forall|i: int|
        0 <= i < name.len() ==> #[trigger] name[i] == lower[i] || name[i] == upper[i]
}

pub open spec fn is_get(name: Seq<char>) -> bool {
    is_word(name, seq!['g', 'e', 't'], seq!['G', 'E', 'T'])
}

pub open spec fn is_set(name: Seq<char>) -> bool {
    is_word(name, seq!['s', 'e', 't'], seq!['S', 'E', 'T'])
}

pub open spec fn is_ping(name: Seq<char>) -> bool {
    is_word(name, seq!['p', 'i', 'n', 'g'], seq!['P', 'I', 'N', 'G'])
}

/// The command that a decoded request stands for.
pub open spec fn parse_command(v: Value) -> Result<Command, CommandError> {
    match v {
        Value::Array(xs) => if xs.len() == 0 {
            Err(CommandError::InvalidLength)
        } else {
            match xs[0] {
                Value::BulkString(name) => if is_get(name) {
                    if xs.len() < 2 {
                        Err(CommandError::InvalidLength)
                    } else {
                        match xs[1] {
                            Value::BulkString(k) => Ok(Command::Get(k)),
                            _ => Err(CommandError::ParseError),
                        }
                    }
                } else if is_set(name) {
                    if xs.len() < 3 {
                        Err(CommandError::InvalidLength)
                    } else {
                        match xs[1] {
                            Value::BulkString(k) => Ok(Command::SetKey(k, xs[2])),
                            _ => Err(CommandError::ParseError),
                        }
                    }
                } else if is_ping(name) {
                    Ok(Command::Ping)
                } else {
                    Err(CommandError::InvalidCommand)
                },
                _ => Err(CommandError::ParseError),
            }
        },
        _ => Err(CommandError::ParseError),
    }
}

/// The text that describes an error of the command layer.
pub open spec fn command_error_text(e: CommandError) -> Seq<char> {
    match e {
        CommandError::ParseError => "couldnt parse input into command"@,
        CommandError::InvalidLength => "invalid length"@,
        CommandError::InvalidCommand => "invalid command"@,
        CommandError::InvalidKey => "invalid key"@,
    }
}

impl CommandError {
    /// The text that describes this error.
    pub fn message(&self) -> (r: &'static str)
        ensures
            r@ == command_error_text(*self),
    {
        match self {
            CommandError::ParseError => "couldnt parse input into command",
            CommandError::InvalidLength => "invalid length",
            CommandError::InvalidCommand => "invalid command",
            CommandError::InvalidKey => "invalid key",
        }
    }
}

/// Whether `name` spells the word given in lower and upper case.
fn word_matches(name: &String, lower: &str, upper: &str) -> (r: bool)
    requires
        lower@.len() == upper@.len(),
    ensures
        r == is_word(name@, lower@, upper@),
{
    let s = name.as_str();
    let n = s.unicode_len();
    if n != lower.unicode_len() {
        return false;
    }
    let mut i: usize = 0;
    while i < n
        invariant
            n == name@.len() == lower@.len() == upper@.len(),
            s@ == name@,
            i <= n,
            forall|j: int| 0 <= j < i ==> #[trigger] name@[j] == lower@[j] || name@[j] == upper@[j],
        decreases n - i,
    {
        let c = s.get_char(i);
        if c != lower.get_char(i) && c != upper.get_char(i) {
            return false;
        }
        i = i + 1;
    }
    true
}

impl RedisCommand {
    /// Reads a command from a decoded request.
    pub fn parse(command_array: RedisProto) -> (r: Result<Self, CommandError>)
        ensures
            match r {
                Ok(c) => parse_command(command_array@) == Ok::<Command, CommandError>(c@),
                Err(e) => parse_command(command_array@) == Err::<Command, CommandError>(e),
            },
    {
        proof {
            reveal_strlit("get");
            reveal_strlit("GET");
            reveal_strlit("set");
            reveal_strlit("SET");
            reveal_strlit("ping");
            reveal_strlit("PING");
            assert("get"@ =~= seq!['g', 'e', 't']);
            assert("GET"@ =~= seq!['G', 'E', 'T']);
            assert("set"@ =~= seq!['s', 'e', 't']);
            assert("SET"@ =~= seq!['S', 'E', 'T']);
            assert("ping"@ =~= seq!['p', 'i', 'n', 'g']);
            assert("PING"@ =~= seq!['P', 'I', 'N', 'G']);
        }
        let xs = match &command_array {
            RedisProto::Array(xs) => xs,
            _ => {
                return Err(CommandError::ParseError);
            },
        };
        let ghost vs = command_array@->Array_0;
        assert(vs.len() == xs@.len());
        if xs.len() == 0 {
            return Err(CommandError::InvalidLength);
        }
        assert(vs[0] == xs@[0]@);
        let name = match &xs[0] {
            RedisProto::BulkString(name) => name,
            _ => {
                return Err(CommandError::ParseError);
            },
        };
        if word_matches(name, "get", "GET") {
            if xs.len() < 2 {
                return Err(CommandError::InvalidLength);
            }
            assert(vs[1] == xs@[1]@);
            match &xs[1] {
                RedisProto::BulkString(key) => Ok(RedisCommand::Get { key: key.clone() }),
                _ => Err(CommandError::ParseError),
            }
        } else if word_matches(name, "set", "SET") {
            if xs.len() < 3 {
                return Err(CommandError::InvalidLength);
            }
            assert(vs[1] == xs@[1]@);
            assert(vs[2] == xs@[2]@);
            match &xs[1] {
                RedisProto::BulkString(key) => Ok(
                    RedisCommand::SetKey { key: key.clone(), value: xs[2].duplicate() },
                ),
                _ => Err(CommandError::ParseError),
            }
        } else if word_matches(name, "ping", "PING") {
            Ok(RedisCommand::Ping)
        } else {
            Err(CommandError::InvalidCommand)
        }
    }

    /// Carries out the command on the store: a read returns the stored value,
    /// a write stores it and returns nothing, a ping returns nothing.
    pub fn execute(&self, db: &mut Store) -> (r: Result<Option<RedisProto>, CommandError>)
        requires
            old(db).wf(),
        ensures
            final(db).wf(),
            match self@ {
                Command::Get(k) => final(db)@ == old(db)@ && if old(db)@.contains_key(k) {
                    r matches Ok(Some(v)) && v@ == old(db)@[k]
                } else {
                    r == Err::<Option<RedisProto>, CommandError>(CommandError::InvalidKey)
                },
                Command::SetKey(k, v) => final(db)@ == old(db)@.insert(k, v) && r is Ok && r->Ok_0
                    is None,
                Command::Ping => final(db)@ == old(db)@ && r is Ok && r->Ok_0 is None,
            },
    {
        match self {
            RedisCommand::Get { key } => match db.get(key) {
                Some(v) => Ok(Some(v)),
                None => Err(CommandError::InvalidKey),
            },
            RedisCommand::SetKey { key, value } => {
                db.set(key.clone(), value.duplicate());
                Ok(None)
            },
            RedisCommand::Ping => Ok(None),
        }
    }
}

} // verus!
