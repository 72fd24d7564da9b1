use rredis::connection::{parse_command, response, session_step, Command, ReadEvent, SessionAct};
use rredis::error::Error;
use rredis::response::Response;
use rredis::store::{SetMode, Store};

fn reply(s: &mut Store, line: &str, now: u64) -> Vec<u8> {
    response(s, line, now).to_bytes()
}

#[test]
fn set_get_del_scenario() {
    let mut s = Store::new();
    assert_eq!(reply(&mut s, "SET a 1", 0), b"OK\n".to_vec());
    assert_eq!(reply(&mut s, "SET a 2", 0), b"Updated\n".to_vec());
    assert_eq!(reply(&mut s, "GET a", 0), b"2\n".to_vec());
    assert_eq!(reply(&mut s, "DEL a", 0), b"1\n".to_vec());
    assert_eq!(reply(&mut s, "GET a", 0), b"(nil)\n".to_vec());
}

#[test]
fn ping_answers_pong() {
    let mut s = Store::new();
    assert_eq!(reply(&mut s, "PING", 0), b"PONG\n".to_vec());
}

#[test]
fn ping_with_arguments_is_unknown() {
    let mut s = Store::new();
    assert_eq!(
        reply(&mut s, "PING extra", 0),
        b"ERR unknown command 'PING extra'\n".to_vec()
    );
}

#[test]
fn echo_rejoins_tokens_with_single_spaces() {
    let mut s = Store::new();
    assert_eq!(reply(&mut s, "ECHO hello   wide  world", 0), b"hello wide world\n".to_vec());
}

#[test]
fn echo_without_arguments_is_unknown() {
    let mut s = Store::new();
    assert_eq!(reply(&mut s, "ECHO", 0), b"ERR unknown command 'ECHO'\n".to_vec());
}

#[test]
fn unknown_keyword_gets_an_error_line() {
    let mut s = Store::new();
    assert_eq!(reply(&mut s, "FLY me", 0), b"ERR unknown command 'FLY me'\n".to_vec());
}

#[test]
fn get_arity_is_checked() {
    let mut s = Store::new();
    assert_eq!(reply(&mut s, "GET", 0), b"ERR unknown command 'GET'\n".to_vec());
    assert_eq!(reply(&mut s, "GET a b", 0), b"ERR unknown command 'GET a b'\n".to_vec());
}

#[test]
fn set_nx_modifier_guards_overwrites() {
    let mut s = Store::new();
    assert_eq!(reply(&mut s, "SET a 1", 0), b"OK\n".to_vec());
    assert_eq!(reply(&mut s, "SET a 2 NX", 0), b"(nil)\n".to_vec());
    assert_eq!(reply(&mut s, "GET a", 0), b"1\n".to_vec());
    assert_eq!(reply(&mut s, "SET a 3 xx", 0), b"Updated\n".to_vec());
    assert_eq!(reply(&mut s, "GET a", 0), b"3\n".to_vec());
    assert_eq!(reply(&mut s, "SET b 9 XX", 0), b"(nil)\n".to_vec());
    assert_eq!(reply(&mut s, "GET b", 0), b"(nil)\n".to_vec());
}

#[test]
fn set_value_keeps_inner_tokens() {
    let mut s = Store::new();
    assert_eq!(reply(&mut s, "SET a one two three", 0), b"OK\n".to_vec());
    assert_eq!(reply(&mut s, "GET a", 0), b"one two three\n".to_vec());
}

#[test]
fn expireat_and_ttlms_round_trip() {
    let mut s = Store::new();
    assert_eq!(reply(&mut s, "SET a v", 0), b"OK\n".to_vec());
    assert_eq!(reply(&mut s, "EXPIREAT a 10", 0), b"true\n".to_vec());
    assert_eq!(reply(&mut s, "TTLMS a", 4_000), b"6000\n".to_vec());
    assert_eq!(reply(&mut s, "GET a", 10_000), b"(nil)\n".to_vec());
    assert_eq!(reply(&mut s, "TTLMS a", 10_000), b"-1\n".to_vec());
}

#[test]
fn expireat_needs_a_numeric_argument() {
    let mut s = Store::new();
    assert_eq!(
        reply(&mut s, "EXPIREAT a soon", 0),
        b"ERR unknown command 'EXPIREAT a soon'\n".to_vec()
    );
    assert_eq!(reply(&mut s, "EXPIREAT a", 0), b"ERR unknown command 'EXPIREAT a'\n".to_vec());
}

#[test]
fn expireat_misses_absent_keys() {
    let mut s = Store::new();
    assert_eq!(reply(&mut s, "EXPIREAT a 10", 0), b"false\n".to_vec());
}

#[test]
fn persist_over_the_wire() {
    let mut s = Store::new();
    assert_eq!(reply(&mut s, "SET a v", 0), b"OK\n".to_vec());
    assert_eq!(reply(&mut s, "EXPIREAT a 10", 0), b"true\n".to_vec());
    assert_eq!(reply(&mut s, "PERSIST a", 0), b"true\n".to_vec());
    assert_eq!(reply(&mut s, "TTLMS a", 60_000), b"-1\n".to_vec());
    assert_eq!(reply(&mut s, "GET a", 60_000), b"v\n".to_vec());
    assert_eq!(reply(&mut s, "PERSIST b", 0), b"false\n".to_vec());
}

#[test]
fn ttlms_on_an_absent_key_is_nil() {
    let mut s = Store::new();
    assert_eq!(reply(&mut s, "TTLMS nothing", 0), b"(nil)\n".to_vec());
}

#[test]
fn del_and_exists_over_the_wire() {
    let mut s = Store::new();
    assert_eq!(reply(&mut s, "SET k1 v", 0), b"OK\n".to_vec());
    assert_eq!(reply(&mut s, "EXISTS k1 k2", 0), b"1\n".to_vec());
    assert_eq!(reply(&mut s, "EXISTS k1 k1", 0), b"2\n".to_vec());
    assert_eq!(reply(&mut s, "DEL k1 k2", 0), b"1\n".to_vec());
    assert_eq!(reply(&mut s, "EXISTS k1 k2", 0), b"0\n".to_vec());
}

#[test]
fn blank_lines_are_unknown() {
    let mut s = Store::new();
    assert_eq!(reply(&mut s, "", 0), b"ERR unknown command ''\n".to_vec());
}

#[test]
fn parse_recognizes_commands() {
    assert_eq!(parse_command("PING", 0), Command::Ping);
    assert_eq!(parse_command("GET k", 0), Command::Get("k".to_string()));
    assert_eq!(parse_command("PERSIST k", 0), Command::Persist("k".to_string()));
    assert_eq!(parse_command("TTLMS k", 0), Command::TtlMs("k".to_string()));
    assert_eq!(
        parse_command("DEL a b", 0),
        Command::Del(vec!["a".to_string(), "b".to_string()])
    );
    assert_eq!(parse_command("EXPIREAT k 2", 5), Command::ExpireAt("k".to_string(), 2_005));
    assert_eq!(parse_command("ping", 0), Command::Unknown("ping".to_string()));
}

#[test]
fn parse_set_reads_the_trailing_modifier() {
    match parse_command("SET k v nx", 0) {
        Command::SetValue(k, v, o) => {
            assert_eq!(k, "k");
            assert_eq!(v, b"v".to_vec());
            assert_eq!(o.mode, SetMode::Nx);
            assert_eq!(o.expire, None);
            assert!(!o.keep_ttl);
        }
        other => panic!("parsed {:?}", other),
    }
    match parse_command("SET k v w DEFAULT", 0) {
        Command::SetValue(_, v, o) => {
            assert_eq!(v, b"v w".to_vec());
            assert_eq!(o.mode, SetMode::Default);
        }
        other => panic!("parsed {:?}", other),
    }
    // with only two arguments the second is the value, never a modifier
    match parse_command("SET k NX", 0) {
        Command::SetValue(_, v, o) => {
            assert_eq!(v, b"NX".to_vec());
            assert_eq!(o.mode, SetMode::Default);
        }
        other => panic!("parsed {:?}", other),
    }
}

#[test]
fn error_replies_render_with_the_err_marker() {
    assert_eq!(
        Error::Empty.to_response(),
        Response::Error("ERR empty command".to_string())
    );
    assert_eq!(
        Error::TooLong.to_response(),
        Response::Error("ERR command too long".to_string())
    );
    assert_eq!(
        Error::InvalidUtf8.to_response(),
        Response::Error("ERR invalid UTF-8".to_string())
    );
    assert_eq!(
        Error::UnknownCommand("NOPE".to_string()).to_response(),
        Response::Error("ERR unknown command 'NOPE'".to_string())
    );
    assert_eq!(
        Error::BadArgs("bad ttl".to_string()).to_response(),
        Response::Error("ERR bad ttl".to_string())
    );
}

#[test]
fn responses_serialize_to_single_lines() {
    assert_eq!(Response::Simple("OK".to_string()).to_bytes(), b"OK\n".to_vec());
    assert_eq!(Response::Bulk(Some("v".to_string())).to_bytes(), b"v\n".to_vec());
    assert_eq!(Response::Bulk(None).to_bytes(), b"(nil)\n".to_vec());
    assert_eq!(Response::Error("ERR x".to_string()).to_bytes(), b"ERR x\n".to_vec());
}

#[test]
fn session_steps_reply_and_close() {
    let mut s = Store::new();
    assert_eq!(
        session_step(&mut s, ReadEvent::Line("PING".to_string()), 0),
        SessionAct::Reply(b"PONG\n".to_vec())
    );
    assert_eq!(
        session_step(&mut s, ReadEvent::Line("SET a 1".to_string()), 0),
        SessionAct::Reply(b"OK\n".to_vec())
    );
    assert_eq!(session_step(&mut s, ReadEvent::Eof, 0), SessionAct::Close);
    assert_eq!(session_step(&mut s, ReadEvent::Failed, 0), SessionAct::Close);
    // the store survives the step calls untouched by the closing events
    assert_eq!(s.get(&"a".to_string(), 0), Some(b"1".to_vec()));
}
