use vstd::prelude::*;
use vstd::string::StringExecFns;

use crate::commands::{command_error_text, parse_command, Command, CommandError, RedisCommand};
use crate::decode::{decode_value, ProtoParseError};
use crate::encode::encode_value;
use crate::store::Store;
use crate::value::{RedisProto, Value};

verus! {

/// How much the receive buffer grows by when a read fills it.
pub const BUFFER_STEP: usize = 1024;

#[verifier::external_type_specification]
#[verifier::external_body]
pub struct ExIoError(std::io::Error);

/// An error of the server around the command layer.
#[derive(Debug)]
pub enum RedisError {
    IOError(std::io::Error),
    NoKeyFound,
}

impl RedisError {
    /// The text that describes this error.
    pub fn message(&self) -> (r: &'static str)
        ensures
            self is NoKeyFound ==> r@ == "key does not exist"@,
            self is IOError ==> r@ == "io error"@,
    {
        match self {
            RedisError::IOError(_) => "io error",
            RedisError::NoKeyFound => "key does not exist",
        }
    }
}

/// The text of a run of bytes, each invalid sequence replaced.
pub uninterp spec fn lossy_text(b: Seq<u8>) -> Seq<char>;

/// Relies on `String::from_utf8_lossy`: the text of the first `n` bytes of
/// `buf`, which depends on those bytes alone.
#[verifier::external_body]
fn text_of_prefix(buf: &Vec<u8>, n: usize) -> (r: String)
    requires
        n <= buf@.len(),
    ensures
        r@ == lossy_text(buf@.subrange(0, n as int)),
{
    String::from_utf8_lossy(&buf[..n]).into_owned()
}

/// The reply to a decoded request, given the store before it.
pub open spec fn reply_value(request: Value, db: Map<Seq<char>, Value>) -> Value {
    match parse_command(request) {
        Err(e) => Value::BulkErr(command_error_text(e)),
        Ok(Command::Get(k)) => if db.contains_key(k) {
            db[k]
        } else {
            Value::BulkErr(command_error_text(CommandError::InvalidKey))
        },
        Ok(Command::SetKey(_, _)) => Value::SimpleString("OK"@),
        Ok(Command::Ping) => Value::SimpleString("PONG"@),
    }
}

/// The store after a decoded request.
pub open spec fn store_after(request: Value, db: Map<Seq<char>, Value>) -> Map<Seq<char>, Value> {
    match parse_command(request) {
        Ok(Command::SetKey(k, v)) => db.insert(k, v),
        _ => db,
    }
}

/// Builds the reply to a command from what carrying it out gave.
fn reply(command: &RedisCommand, res: Result<Option<RedisProto>, CommandError>) -> (r: RedisProto)
    ensures
        command@ is Ping ==> r@ == Value::SimpleString("PONG"@),
        command@ is SetKey ==> r@ == Value::SimpleString("OK"@),
        command@ is Get ==> match res {
            Ok(Some(v)) => r@ == v@,
            Ok(None) => r@ == Value::BulkErr("key does not exist"@),
            Err(e) => r@ == Value::BulkErr(command_error_text(e)),
        },
{
    match command {
        RedisCommand::Ping => RedisProto::SimpleString(String::from_str("PONG")),
        RedisCommand::SetKey { .. } => RedisProto::SimpleString(String::from_str("OK")),
        RedisCommand::Get { .. } => match res {
            Ok(Some(v)) => v,
            Ok(None) => RedisProto::BulkErr(String::from_str(RedisError::NoKeyFound.message())),
            Err(e) => RedisProto::BulkErr(String::from_str(e.message())),
        },
    }
}

/// Carries out a decoded request on the store and builds its reply; an
/// error of the command layer becomes an error reply.
pub fn handle(request: RedisProto, db: &mut Store) -> (r: RedisProto)
    requires
        old(db).wf(),
    ensures
        final(db).wf(),
        r@ == reply_value(request@, old(db)@),
        final(db)@ == store_after(request@, old(db)@),
{
    match RedisCommand::parse(request) {
        Err(e) => RedisProto::BulkErr(String::from_str(e.message())),
        Ok(command) => {
            let res = command.execute(db);
            reply(&command, res)
        },
    }
}

/// One client: its socket, a receive buffer and how many of its bytes hold
/// data.
pub struct Connection<S> {
    pub stream: S,
    pub read_buf: Vec<u8>,
    pub bytes_read: usize,
}

impl<S> Connection<S> {
    /// The buffer is at least one step long and holds the data at its start.
    pub open spec fn wf(&self) -> bool {
        BUFFER_STEP <= self.read_buf@.len() && self.bytes_read <= self.read_buf@.len()
    }

    /// The bytes received and not yet consumed.
    pub open spec fn received(&self) -> Seq<u8> {
        self.read_buf@.subrange(0, self.bytes_read as int)
    }

    /// A connection over `stream` with an empty buffer of one step.
    pub fn new(stream: S) -> (r: Self)
        ensures
            r.wf(),
            r.stream == stream,
            r.bytes_read == 0,
            r.read_buf@.len() == BUFFER_STEP,
    {
        Connection { stream, read_buf: vec![0u8; BUFFER_STEP], bytes_read: 0 }
    }

    /// Records that `n` more bytes were read into the buffer after the data.
    /// When they fill it, the buffer grows by one step and the result is
    /// `true`: the socket should be read again before decoding.
    pub fn advance(&mut self, n: usize) -> (grown: bool)
        requires
            old(self).wf(),
            old(self).bytes_read + n <= old(self).read_buf@.len(),
            old(self).read_buf@.len() + BUFFER_STEP <= usize::MAX,
        ensures
            final(self).wf(),
            final(self).stream == old(self).stream,
            final(self).bytes_read == old(self).bytes_read + n,
            final(self).received() == old(self).read_buf@.subrange(
                0,
                old(self).bytes_read + n,
            ),
            grown == (old(self).bytes_read + n == old(self).read_buf@.len()),
            grown ==> final(self).read_buf@.len() == old(self).read_buf@.len() + BUFFER_STEP,
            !grown ==> final(self).read_buf@ == old(self).read_buf@,
    {
        self.bytes_read = self.bytes_read + n;
        if self.bytes_read == self.read_buf.len() {
            let len = self.read_buf.len() + BUFFER_STEP;
            self.read_buf.resize(len, 0u8);
            true
        } else {
            false
        }
    }

    /// Tries to decode a request from the received bytes. On a whole frame,
    /// carries it out on the store, consumes the buffer and returns the
    /// encoded reply; on a frame still incomplete, returns `None` and changes
    /// nothing; on any other decode error, returns it (the peer broke the
    /// protocol) and changes nothing.
    pub fn try_parse(&mut self, db: &mut Store) -> (r: Result<Option<String>, ProtoParseError>)
        requires
            old(self).wf(),
            old(db).wf(),
        ensures
            final(self).wf(),
            final(db).wf(),
            final(self).stream == old(self).stream,
            final(self).read_buf == old(self).read_buf,
            match decode_value(lossy_text(old(self).received())) {
                Ok(v) => {
                    &&& final(self).bytes_read == 0
                    &&& final(db)@ == store_after(v, old(db)@)
                    &&& r matches Ok(Some(out))
                    &&& r->Ok_0->Some_0@ == encode_value(reply_value(v, old(db)@))
                },
                Err(ProtoParseError::IncompleteInput) => {
                    &&& final(self).bytes_read == old(self).bytes_read
                    &&& final(db)@ == old(db)@
                    &&& r == Ok::<Option<String>, ProtoParseError>(None)
                },
                Err(e) => final(self).bytes_read == old(self).bytes_read && final(db)@ == old(
                    db,
                )@ && r == Err::<Option<String>, ProtoParseError>(e),
            },
    {
        let text = text_of_prefix(&self.read_buf, self.bytes_read);
        match RedisProto::decode(text.as_str()) {
            Ok(request) => {
                let answer = handle(request, db);
                self.bytes_read = 0;
                Ok(Some(answer.encode()))
            },
            Err(ProtoParseError::IncompleteInput) => Ok(None),
            Err(e) => Err(e),
        }
    }
}

} // verus!
