use respd::commands::{CommandError, RedisCommand};
use respd::connection::{handle, Connection, RedisError, BUFFER_STEP};
use respd::decode::ProtoParseError;
use respd::reactor::{Reactor, MAX_CONNECTIONS, SERVER_IDENT};
use respd::store::Store;
use respd::value::RedisProto;

fn bulk(s: &str) -> RedisProto {
    RedisProto::BulkString(s.to_string())
}

fn feed(conn: &mut Connection<()>, data: &[u8]) {
    let start = conn.bytes_read;
    conn.read_buf[start..start + data.len()].copy_from_slice(data);
    conn.advance(data.len());
}

#[test]
fn decode_get_array() {
    let v = RedisProto::decode("*2\r\n$3\r\nGET\r\n$3\r\nfoo\r\n").unwrap();
    assert_eq!(v, RedisProto::Array(vec![bulk("GET"), bulk("foo")]));
}

#[test]
fn decode_each_scalar() {
    assert_eq!(RedisProto::decode("+OK\r\n"), Ok(RedisProto::SimpleString("OK".to_string())));
    assert_eq!(RedisProto::decode(":-42\r\n"), Ok(RedisProto::Int(-42)));
    assert_eq!(RedisProto::decode(":+7\r\n"), Ok(RedisProto::Int(7)));
    assert_eq!(
        RedisProto::decode(":-9223372036854775808\r\n"),
        Ok(RedisProto::Int(i64::MIN))
    );
    assert_eq!(RedisProto::decode("#t\r\n"), Ok(RedisProto::Bool(true)));
    assert_eq!(RedisProto::decode("#f\r\n"), Ok(RedisProto::Bool(false)));
    assert_eq!(RedisProto::decode("_\r\n"), Ok(RedisProto::Null));
    assert_eq!(RedisProto::decode(",-1.5e3\r\n"), Ok(RedisProto::Double("-1.5e3".to_string())));
    assert_eq!(RedisProto::decode("$0\r\n\r\n"), Ok(bulk("")));
}

#[test]
fn decode_errors() {
    assert_eq!(RedisProto::decode("$3\r\nfo"), Err(ProtoParseError::IncompleteInput));
    assert_eq!(RedisProto::decode(""), Err(ProtoParseError::IncompleteInput));
    assert_eq!(RedisProto::decode("+OK"), Err(ProtoParseError::IncompleteInput));
    assert_eq!(RedisProto::decode("*2\r\n$3\r\nGET\r\n"), Err(ProtoParseError::IncompleteInput));
    assert_eq!(RedisProto::decode("$3\r\nfoobar\r\n"), Err(ProtoParseError::IncompleteInput));
    assert_eq!(RedisProto::decode("-ERR\r\n"), Err(ProtoParseError::NoImpl));
    assert_eq!(RedisProto::decode("!3\r\nerr\r\n"), Err(ProtoParseError::NoImpl));
    assert_eq!(RedisProto::decode("?\r\n"), Err(ProtoParseError::NoImpl));
    assert_eq!(RedisProto::decode(":abc\r\n"), Err(ProtoParseError::ParseIntError));
    assert_eq!(
        RedisProto::decode(":9223372036854775808\r\n"),
        Err(ProtoParseError::ParseIntError)
    );
    assert_eq!(RedisProto::decode("$-1\r\n"), Err(ProtoParseError::ParseIntError));
    assert_eq!(RedisProto::decode(",1.2.3\r\n"), Err(ProtoParseError::ParseFloatError));
    assert_eq!(RedisProto::decode("#x\r\n"), Err(ProtoParseError::MalformedInput));
    assert_eq!(RedisProto::decode("_x\r\n"), Err(ProtoParseError::MalformedInput));
}

#[test]
fn partial_bulk_is_incomplete() {
    assert_eq!(RedisProto::decode("$3\r\nfo"), Err(ProtoParseError::IncompleteInput));
}

#[test]
fn encode_each_kind() {
    assert_eq!(RedisProto::SimpleString("OK".to_string()).encode(), "+OK\r\n");
    assert_eq!(RedisProto::SimpleErr("bad".to_string()).encode(), "-bad\r\n");
    assert_eq!(RedisProto::Int(-120).encode(), ":-120\r\n");
    assert_eq!(RedisProto::Int(i64::MIN).encode(), ":-9223372036854775808\r\n");
    assert_eq!(bulk("hello").encode(), "$5\r\nhello\r\n");
    assert_eq!(
        RedisProto::Array(vec![bulk("GET"), bulk("foo")]).encode(),
        "*2\r\n$3\r\nGET\r\n\r\n$3\r\nfoo\r\n\r\n"
    );
    assert_eq!(RedisProto::Array(vec![]).encode(), "*0\r\n\r\n");
    assert_eq!(RedisProto::Bool(true).encode(), "#t\r\n");
    assert_eq!(RedisProto::Bool(false).encode(), "#f\r\n");
    assert_eq!(RedisProto::Double("2.5".to_string()).encode(), ",2.5\r\n");
    assert_eq!(RedisProto::BigInt(-170141183460469231731687303715884105728).encode(),
        "(-170141183460469231731687303715884105728\r\n");
    assert_eq!(RedisProto::BulkErr("oops".to_string()).encode(), "!4\r\noops\r\n");
    assert_eq!(RedisProto::Null.encode(), "_\r\n");
}

#[test]
fn round_trip_values() {
    let values = vec![
        RedisProto::SimpleString("hi there".to_string()),
        RedisProto::Int(0),
        RedisProto::Int(i64::MAX),
        RedisProto::Int(i64::MIN),
        bulk("with\r\nbreak"),
        bulk(""),
        RedisProto::Bool(true),
        RedisProto::Double("3.25".to_string()),
        RedisProto::Null,
        RedisProto::Array(vec![]),
        RedisProto::Array(vec![
            bulk("SET"),
            RedisProto::Array(vec![RedisProto::Int(1), RedisProto::Array(vec![])]),
            RedisProto::Null,
        ]),
    ];
    for v in values {
        let text = v.encode();
        assert_eq!(RedisProto::decode(&text), Ok(v));
    }
}

#[test]
fn parse_get_and_missing_key() {
    let cmd = RedisCommand::parse(RedisProto::Array(vec![bulk("GET"), bulk("foo")])).unwrap();
    assert_eq!(cmd, RedisCommand::Get { key: "foo".to_string() });
    let mut db = Store::new();
    assert_eq!(cmd.execute(&mut db), Err(CommandError::InvalidKey));
}

#[test]
fn set_then_get() {
    let mut db = Store::new();
    let set = RedisCommand::parse(RedisProto::Array(vec![bulk("SET"), bulk("foo"), bulk("bar")]))
        .unwrap();
    assert_eq!(set.execute(&mut db), Ok(None));
    let get = RedisCommand::Get { key: "foo".to_string() };
    assert_eq!(get.execute(&mut db), Ok(Some(bulk("bar"))));
}

#[test]
fn last_set_wins() {
    let mut db = Store::new();
    db.set("k".to_string(), RedisProto::Int(1));
    db.set("j".to_string(), RedisProto::Int(3));
    db.set("k".to_string(), RedisProto::Int(2));
    assert_eq!(db.get(&"k".to_string()), Some(RedisProto::Int(2)));
    assert_eq!(db.get(&"j".to_string()), Some(RedisProto::Int(3)));
    assert_eq!(db.get(&"x".to_string()), None);
}

#[test]
fn ping_reply() {
    let cmd = RedisCommand::parse(RedisProto::Array(vec![bulk("PING")])).unwrap();
    assert_eq!(cmd, RedisCommand::Ping);
    let mut db = Store::new();
    let reply = handle(RedisProto::Array(vec![bulk("PING")]), &mut db);
    assert_eq!(reply.encode(), "+PONG\r\n");
}

#[test]
fn command_names_ignore_case() {
    let cmd = RedisCommand::parse(RedisProto::Array(vec![bulk("pInG")])).unwrap();
    assert_eq!(cmd, RedisCommand::Ping);
    let cmd = RedisCommand::parse(RedisProto::Array(vec![bulk("get"), bulk("a")])).unwrap();
    assert_eq!(cmd, RedisCommand::Get { key: "a".to_string() });
}

#[test]
fn command_errors() {
    assert_eq!(RedisCommand::parse(bulk("GET")), Err(CommandError::ParseError));
    assert_eq!(RedisCommand::parse(RedisProto::Array(vec![])), Err(CommandError::InvalidLength));
    assert_eq!(
        RedisCommand::parse(RedisProto::Array(vec![RedisProto::Int(1)])),
        Err(CommandError::ParseError)
    );
    assert_eq!(
        RedisCommand::parse(RedisProto::Array(vec![bulk("GET")])),
        Err(CommandError::InvalidLength)
    );
    assert_eq!(
        RedisCommand::parse(RedisProto::Array(vec![bulk("GET"), RedisProto::Int(1)])),
        Err(CommandError::ParseError)
    );
    assert_eq!(
        RedisCommand::parse(RedisProto::Array(vec![bulk("SET"), bulk("k")])),
        Err(CommandError::InvalidLength)
    );
    assert_eq!(
        RedisCommand::parse(RedisProto::Array(vec![bulk("DEL"), bulk("k")])),
        Err(CommandError::InvalidCommand)
    );
    assert_eq!(CommandError::InvalidKey.message(), "invalid key");
    assert_eq!(RedisError::NoKeyFound.message(), "key does not exist");
}

#[test]
fn set_stores_any_value() {
    let mut db = Store::new();
    let reply = handle(
        RedisProto::Array(vec![bulk("SET"), bulk("n"), RedisProto::Int(5)]),
        &mut db,
    );
    assert_eq!(reply.encode(), "+OK\r\n");
    let reply = handle(RedisProto::Array(vec![bulk("GET"), bulk("n")]), &mut db);
    assert_eq!(reply.encode(), ":5\r\n");
    let reply = handle(RedisProto::Array(vec![bulk("GET"), bulk("m")]), &mut db);
    assert_eq!(reply.encode(), "!11\r\ninvalid key\r\n");
    let reply = handle(RedisProto::Null, &mut db);
    assert_eq!(reply, RedisProto::BulkErr("couldnt parse input into command".to_string()));
}

#[test]
fn two_reads_form_one_frame() {
    let mut db = Store::new();
    let mut conn = Connection::new(());
    feed(&mut conn, b"*1\r\n$4\r\nPI");
    assert_eq!(conn.try_parse(&mut db), Ok(None));
    assert_eq!(conn.bytes_read, 10);
    feed(&mut conn, b"NG\r\n");
    assert_eq!(conn.try_parse(&mut db), Ok(Some("+PONG\r\n".to_string())));
    assert_eq!(conn.bytes_read, 0);
}

#[test]
fn connection_runs_set_and_get() {
    let mut db = Store::new();
    let mut conn = Connection::new(());
    feed(&mut conn, b"*3\r\n$3\r\nSET\r\n$3\r\nfoo\r\n$3\r\nbar\r\n");
    assert_eq!(conn.try_parse(&mut db), Ok(Some("+OK\r\n".to_string())));
    feed(&mut conn, b"*2\r\n$3\r\nGET\r\n$3\r\nfoo\r\n");
    assert_eq!(conn.try_parse(&mut db), Ok(Some("$3\r\nbar\r\n".to_string())));
}

#[test]
fn connection_reports_protocol_violation() {
    let mut db = Store::new();
    let mut conn = Connection::new(());
    feed(&mut conn, b"-nope\r\n");
    assert_eq!(conn.try_parse(&mut db), Err(ProtoParseError::NoImpl));
    assert_eq!(conn.bytes_read, 7);
}

#[test]
fn connection_replaces_invalid_utf8() {
    let mut db = Store::new();
    let mut conn = Connection::new(());
    feed(&mut conn, b"*2\r\n$3\r\nGET\r\n$1\r\n\xff\r\n");
    assert_eq!(conn.try_parse(&mut db), Ok(Some("!11\r\ninvalid key\r\n".to_string())));
    let mut conn = Connection::new(());
    feed(&mut conn, b"*3\r\n$3\r\nSET\r\n$1\r\n\xff\r\n$1\r\nx\r\n");
    assert_eq!(conn.try_parse(&mut db), Ok(Some("+OK\r\n".to_string())));
    assert_eq!(db.get(&"\u{FFFD}".to_string()), Some(bulk("x")));
}

#[test]
fn buffer_grows_when_full() {
    let mut conn = Connection::new(());
    assert_eq!(conn.read_buf.len(), BUFFER_STEP);
    assert!(!conn.advance(10));
    assert!(conn.advance(BUFFER_STEP - 10));
    assert_eq!(conn.read_buf.len(), 2 * BUFFER_STEP);
    assert_eq!(conn.bytes_read, BUFFER_STEP);
}

#[test]
fn ceiling_rejects_next_accept() {
    let mut reactor = Reactor::new();
    let mut idents = Vec::new();
    for _ in 0..MAX_CONNECTIONS {
        idents.push(reactor.on_accept().unwrap());
    }
    assert!(!idents.contains(&SERVER_IDENT));
    assert_eq!(idents[0], 1);
    assert_eq!(idents[MAX_CONNECTIONS - 1], MAX_CONNECTIONS);
    assert_eq!(reactor.on_accept(), None);
    assert_eq!(reactor.live, MAX_CONNECTIONS);
    reactor.on_close();
    assert_eq!(reactor.on_accept(), Some(MAX_CONNECTIONS + 1));
}

#[test]
fn reverses_characters() {
    assert_eq!(respd::reverse::reverse_string("héllo"), "olléh");
    assert_eq!(respd::reverse::reverse_string(""), "");
}

#[test]
fn cut_frames_wait_for_more() {
    assert_eq!(RedisProto::decode("*2\r\n*0\r\n\r"), Err(ProtoParseError::IncompleteInput));
    let v = RedisProto::Array(vec![
        RedisProto::Array(vec![]),
        bulk("GET"),
        RedisProto::Int(-3),
        RedisProto::Null,
    ]);
    let text = v.encode();
    for k in 0..text.len() {
        let r = RedisProto::decode(&text[..k]);
        assert!(r == Err(ProtoParseError::IncompleteInput) || r == Ok(v.duplicate()), "{k}");
    }
}
