//! One session's command handling: parsing a trimmed line into a command,
//! applying it to the store, and building the reply.

use vstd::prelude::*;
use vstd::string::*;
use vstd::utf8::{decode_utf8, valid_utf8};

use crate::error::Error;
use crate::response::Response;
use crate::store::{
    spec_del_count, spec_exists_count, spec_expire_post, spec_persist_post, spec_set_applies,
    spec_set_post, spec_ttl, views_of, SetMode, SetOptions, Store, MAX_EXPIRE_MS,
};
use crate::text::{
    all_digits, digits_val, fmt_i64, fmt_u64, join_tokens, parse_u64, spec_i64_digits, spec_join,
    spec_tokens, spec_u64_digits, str_eq, tokenize,
};

verus! {

/// A parsed, validated request.
#[derive(Debug, PartialEq, Eq)]
pub enum Command {
    Ping,
    Echo(String),
    Get(String),
    SetValue(String, Vec<u8>, SetOptions),
    Del(Vec<String>),
    Exists(Vec<String>),
    ExpireAt(String, u64),
    Persist(String),
    TtlMs(String),
    Unknown(String),
}

/// The mathematical reading of a parsed request.
pub ghost enum SpecCommand {
    Ping,
    Echo(Seq<char>),
    Get(Seq<char>),
    SetValue(Seq<char>, Seq<u8>, SetOptions),
    Del(Seq<Seq<char>>),
    Exists(Seq<Seq<char>>),
    ExpireAt(Seq<char>, u64),
    Persist(Seq<char>),
    TtlMs(Seq<char>),
    Unknown(Seq<char>),
}

impl View for Command {
    type V = SpecCommand;

    open spec fn view(&self) -> SpecCommand {
        match self {
            Command::Ping => SpecCommand::Ping,
            Command::Echo(t) => SpecCommand::Echo(t@),
            Command::Get(k) => SpecCommand::Get(k@),
            Command::SetValue(k, v, o) => SpecCommand::SetValue(k@, v@, *o),
            Command::Del(ks) => SpecCommand::Del(views_of(ks@)),
            Command::Exists(ks) => SpecCommand::Exists(views_of(ks@)),
            Command::ExpireAt(k, t) => SpecCommand::ExpireAt(k@, *t),
            Command::Persist(k) => SpecCommand::Persist(k@),
            Command::TtlMs(k) => SpecCommand::TtlMs(k@),
            Command::Unknown(raw) => SpecCommand::Unknown(raw@),
        }
    }
}

/// `t` reads as the upper-case ASCII word `u`, ignoring the case of `t`.
pub open spec fn matches_ci(t: Seq<char>, u: Seq<char>) -> bool {
    t.len() == u.len() && forall|i: int|
        0 <= i < t.len() ==> (#[trigger] t[i]) == u[i] || t[i] as int == u[i] as int + 32
}

/// The write mode a trailing modifier token selects, if any.
pub open spec fn spec_modifier(t: Seq<char>) -> Option<SetMode> {
    if matches_ci(t, "NX"@) {
        Some(SetMode::Nx)
    } else if matches_ci(t, "XX"@) {
        Some(SetMode::Xx)
    } else if matches_ci(t, "DEFAULT"@) {
        Some(SetMode::Default)
    } else {
        None
    }
}

/// The expiration instant `secs` seconds after `now`, in milliseconds,
/// saturated at the largest representable instant.
pub open spec fn spec_deadline(now: u64, secs: int) -> u64 {
    if secs < 0 {
        MAX_EXPIRE_MS
    } else if now + secs * 1000 <= MAX_EXPIRE_MS {
        (now + secs * 1000) as u64
    } else {
        MAX_EXPIRE_MS
    }
}

/// Which command the token sequence `ts` denotes at instant `now`; `raw`
/// is the trimmed line the tokens came from, kept for the unknown-command
/// reply.  The first token selects the command, case-sensitively; a wrong
/// arity or an unparsable argument makes the line unknown.
pub open spec fn spec_command(ts: Seq<Seq<char>>, raw: Seq<char>, now: u64) -> SpecCommand {
    if ts.len() == 0 {
        SpecCommand::Unknown(raw)
    } else if ts[0] == "PING"@ {
        if ts.len() == 1 {
            SpecCommand::Ping
        } else {
            SpecCommand::Unknown(raw)
        }
    } else if ts[0] == "ECHO"@ {
        if ts.len() >= 2 {
            SpecCommand::Echo(spec_join(ts.skip(1)))
        } else {
            SpecCommand::Unknown(raw)
        }
    } else if ts[0] == "GET"@ {
        if ts.len() == 2 {
            SpecCommand::Get(ts[1])
        } else {
            SpecCommand::Unknown(raw)
        }
    } else if ts[0] == "SET"@ {
        if ts.len() >= 3 {
            let modif = if ts.len() >= 4 {
                spec_modifier(ts.last())
            } else {
                None
            };
            match modif {
                Some(m) => SpecCommand::SetValue(
                    ts[1],
                    vstd::utf8::encode_utf8(spec_join(ts.subrange(2, ts.len() - 1))),
                    SetOptions { mode: m, expire: None, keep_ttl: false },
                ),
                None => SpecCommand::SetValue(
                    ts[1],
                    vstd::utf8::encode_utf8(spec_join(ts.skip(2))),
                    SetOptions { mode: SetMode::Default, expire: None, keep_ttl: false },
                ),
            }
        } else {
            SpecCommand::Unknown(raw)
        }
    } else if ts[0] == "DEL"@ {
        if ts.len() >= 2 {
            SpecCommand::Del(ts.skip(1))
        } else {
            SpecCommand::Unknown(raw)
        }
    } else if ts[0] == "EXISTS"@ {
        if ts.len() >= 2 {
            SpecCommand::Exists(ts.skip(1))
        } else {
            SpecCommand::Unknown(raw)
        }
    } else if ts[0] == "EXPIREAT"@ {
        if ts.len() == 3 && ts[2].len() > 0 && all_digits(ts[2]) && digits_val(ts[2])
            <= u64::MAX {
            SpecCommand::ExpireAt(ts[1], spec_deadline(now, digits_val(ts[2])))
        } else {
            SpecCommand::Unknown(raw)
        }
    } else if ts[0] == "PERSIST"@ {
        if ts.len() == 2 {
            SpecCommand::Persist(ts[1])
        } else {
            SpecCommand::Unknown(raw)
        }
    } else if ts[0] == "TTLMS"@ {
        if ts.len() == 2 {
            SpecCommand::TtlMs(ts[1])
        } else {
            SpecCommand::Unknown(raw)
        }
    } else {
        SpecCommand::Unknown(raw)
    }
}

fn token_matches_ci(t: &String, u: &str) -> (b: bool)
    ensures
        b == matches_ci(t@, u@),
{
    let n = t.as_str().unicode_len();
    let m = u.unicode_len();
    if n != m {
        return false;
    }
    let mut i: usize = 0;
    while i < n
        invariant
            i <= n,
            n == t@.len(),
            n == u@.len(),
            forall|j: int|
                0 <= j < i ==> (#[trigger] t@[j]) == u@[j] || t@[j] as int == u@[j] as int + 32,
        decreases n - i,
    {
        let a = t.as_str().get_char(i);
        let b = u.get_char(i);
        if !(a == b || a as u32 == (b as u32) + 32) {
            return false;
        }
        i = i + 1;
    }
    true
}

fn modifier_of(t: &String) -> (r: Option<SetMode>)
    ensures
        r == spec_modifier(t@),
{
    if token_matches_ci(t, "NX") {
        Some(SetMode::Nx)
    } else if token_matches_ci(t, "XX") {
        Some(SetMode::Xx)
    } else if token_matches_ci(t, "DEFAULT") {
        Some(SetMode::Default)
    } else {
        None
    }
}

fn deadline_ms(now: u64, secs: u64) -> (t: u64)
    ensures
        t == spec_deadline(now, secs as int),
        t <= MAX_EXPIRE_MS,
{
    match secs.checked_mul(1000) {
        Some(p) => match now.checked_add(p) {
            Some(v) => if v <= MAX_EXPIRE_MS {
                v
            } else {
                MAX_EXPIRE_MS
            },
            None => MAX_EXPIRE_MS,
        },
        None => MAX_EXPIRE_MS,
    }
}

fn tail_keys(toks: &Vec<String>, from: usize) -> (r: Vec<String>)
    requires
        from <= toks@.len(),
    ensures
        views_of(r@) == views_of(toks@).skip(from as int),
{
    let mut r: Vec<String> = Vec::new();
    let mut i = from;
    while i < toks.len()
        invariant
            from <= i <= toks@.len(),
            r@.len() == i - from,
            forall|j: int| 0 <= j < r@.len() ==> (#[trigger] r@[j])@ == toks@[from + j]@,
        decreases toks@.len() - i,
    {
        let ghost prev = r@;
        r.push(toks[i].clone());
        proof {
            assert forall|j: int| 0 <= j < r@.len() implies (#[trigger] r@[j])@ == toks@[from
                + j]@ by {
                if j < prev.len() {
                    assert(r@[j] == prev[j]);
                } else {
                    assert(r@[j] == r@.last());
                }
            }
        }
        i = i + 1;
    }
    proof {
        assert forall|j: int| 0 <= j < r@.len() implies views_of(r@)[j] == views_of(toks@).skip(
            from as int,
        )[j] by {
            assert(r@[j]@ == toks@[from + j]@);
        }
        assert(views_of(r@) =~= views_of(toks@).skip(from as int));
    }
    r
}

/// Parses one trimmed command line at instant `now`.
pub fn parse_command(msg: &str, now: u64) -> (c: Command)
    ensures
        c@ == spec_command(spec_tokens(msg@), msg@, now),
{
    let toks = tokenize(msg);
    let ghost ts = spec_tokens(msg@);
    let ntoks = toks.len();
    if ntoks == 0 {
        return Command::Unknown(msg.to_owned());
    }
    if str_eq(&toks[0], "PING") {
        if ntoks == 1 {
            Command::Ping
        } else {
            Command::Unknown(msg.to_owned())
        }
    } else if str_eq(&toks[0], "ECHO") {
        if ntoks >= 2 {
            let text = join_tokens(&toks, 1, ntoks);
            proof {
                assert(views_of(toks@).subrange(1, ntoks as int) =~= ts.skip(1));
            }
            Command::Echo(text)
        } else {
            Command::Unknown(msg.to_owned())
        }
    } else if str_eq(&toks[0], "GET") {
        if ntoks == 2 {
            Command::Get(toks[1].clone())
        } else {
            Command::Unknown(msg.to_owned())
        }
    } else if str_eq(&toks[0], "SET") {
        if ntoks >= 3 {
            let modif: Option<SetMode> = if ntoks >= 4 {
                proof {
                    assert(views_of(toks@)[ntoks as int - 1] == ts.last());
                }
                modifier_of(&toks[ntoks - 1])
            } else {
                None
            };
            match modif {
                Some(m) => {
                    let text = join_tokens(&toks, 2, ntoks - 1);
                    let val = text.as_str().as_bytes_vec();
                    Command::SetValue(
                        toks[1].clone(),
                        val,
                        SetOptions { mode: m, expire: None, keep_ttl: false },
                    )
                },
                None => {
                    let text = join_tokens(&toks, 2, ntoks);
                    let val = text.as_str().as_bytes_vec();
                    proof {
                        assert(views_of(toks@).subrange(2, ntoks as int) =~= ts.skip(2));
                    }
                    Command::SetValue(
                        toks[1].clone(),
                        val,
                        SetOptions { mode: SetMode::Default, expire: None, keep_ttl: false },
                    )
                },
            }
        } else {
            Command::Unknown(msg.to_owned())
        }
    } else if str_eq(&toks[0], "DEL") {
        if ntoks >= 2 {
            Command::Del(tail_keys(&toks, 1))
        } else {
            Command::Unknown(msg.to_owned())
        }
    } else if str_eq(&toks[0], "EXISTS") {
        if ntoks >= 2 {
            Command::Exists(tail_keys(&toks, 1))
        } else {
            Command::Unknown(msg.to_owned())
        }
    } else if str_eq(&toks[0], "EXPIREAT") {
        if ntoks == 3 {
            match parse_u64(toks[2].as_str()) {
                Some(secs) => Command::ExpireAt(toks[1].clone(), deadline_ms(now, secs)),
                None => Command::Unknown(msg.to_owned()),
            }
        } else {
            Command::Unknown(msg.to_owned())
        }
    } else if str_eq(&toks[0], "PERSIST") {
        if ntoks == 2 {
            Command::Persist(toks[1].clone())
        } else {
            Command::Unknown(msg.to_owned())
        }
    } else if str_eq(&toks[0], "TTLMS") {
        if ntoks == 2 {
            Command::TtlMs(toks[1].clone())
        } else {
            Command::Unknown(msg.to_owned())
        }
    } else {
        Command::Unknown(msg.to_owned())
    }
}

/// What `String::from_utf8_lossy` makes of a byte sequence; a function of
/// the bytes alone.
pub uninterp spec fn lossy_of(bytes: Seq<u8>) -> Seq<char>;

/// Relies on String::from_utf8_lossy: the result depends on the bytes
/// alone, and bytes that are valid UTF-8 decode to exactly their
/// character sequence.
#[verifier::external_body]
fn decode_lossy(v: &Vec<u8>) -> (r: String)
    ensures
        r@ == lossy_of(v@),
        valid_utf8(v@) ==> r@ == decode_utf8(v@),
{
    String::from_utf8_lossy(v.as_slice()).into_owned()
}

/// Every key maps to the same entry in both stores.
pub open spec fn store_unchanged(pre: Store, post: Store) -> bool {
    forall|k: Seq<char>| #[trigger] post.spec_get(k) == pre.spec_get(k)
}

/// What one dispatched command does to the store and what it replies: a
/// rejected conditional write and an absent value or ttl answer with the
/// nil marker; counts and ttls answer in decimal; expiration management
/// answers `true` or `false`; an unknown line answers an error reply.
pub open spec fn spec_dispatch(
    pre: Store,
    post: Store,
    c: SpecCommand,
    r: Response,
    now: u64,
) -> bool {
    match c {
        SpecCommand::Ping => store_unchanged(pre, post) && (r matches Response::Simple(s)
            && s@ == "PONG"@),
        SpecCommand::Echo(t) => store_unchanged(pre, post) && (r matches Response::Bulk(Some(s))
            && s@ == t),
        SpecCommand::Get(k) => store_unchanged(pre, post) && (if pre.spec_live(k, now) {
            r matches Response::Bulk(Some(s)) && s@ == lossy_of(pre.spec_get(k).unwrap().value)
                && (valid_utf8(pre.spec_get(k).unwrap().value) ==> s@ == decode_utf8(
                pre.spec_get(k).unwrap().value,
            ))
        } else {
            r == Response::Bulk(None::<String>)
        }),
        SpecCommand::SetValue(k, v, o) => {
            let applied = spec_set_applies(pre, k, o.mode, now);
            let prior = pre.spec_live(k, now);
            &&& spec_set_post(pre, post, k, v, o, now, applied)
            &&& (if !applied {
                r == Response::Bulk(None::<String>)
            } else if prior {
                r matches Response::Simple(s) && s@ == "Updated"@
            } else {
                r matches Response::Simple(s) && s@ == "OK"@
            })
        },
        SpecCommand::Del(ks) => {
            &&& (forall|k2: Seq<char>| ks.contains(k2) ==> (#[trigger] post.spec_get(k2)) is None)
            &&& (forall|k2: Seq<char>|
                !ks.contains(k2) ==> #[trigger] post.spec_get(k2) == pre.spec_get(k2))
            &&& (r matches Response::Simple(s) && s@ == spec_u64_digits(
                spec_del_count(pre, ks, now) as int,
            ))
        },
        SpecCommand::Exists(ks) => store_unchanged(pre, post) && (r matches Response::Simple(s)
            && s@ == spec_u64_digits(spec_exists_count(pre, ks, now) as int)),
        SpecCommand::ExpireAt(k, t) => spec_expire_post(pre, post, k, t, now, pre.spec_live(k, now))
            && (r matches Response::Simple(s) && s@ == (if pre.spec_live(k, now) {
            "true"@
        } else {
            "false"@
        })),
        SpecCommand::Persist(k) => spec_persist_post(pre, post, k, now, pre.spec_live(k, now)) && (
        r matches Response::Simple(s) && s@ == (if pre.spec_live(k, now) {
            "true"@
        } else {
            "false"@
        })),
        SpecCommand::TtlMs(k) => store_unchanged(pre, post) && (match spec_ttl(pre, k, now) {
            None => r == Response::Bulk(None::<String>),
            Some(v) => r matches Response::Simple(s) && s@ == spec_i64_digits(v as int),
        }),
        SpecCommand::Unknown(raw) => store_unchanged(pre, post) && (r matches Response::Error(m)
            && m@ == "ERR unknown command '"@ + raw + "'"@),
    }
}

/// Applies one parsed command to the store and builds the reply.
pub fn dispatch(db: &mut Store, cmd: Command, now: u64) -> (r: Response)
    requires
        old(db).wf(),
        match cmd@ {
            SpecCommand::SetValue(_, _, o) => crate::store::ts_ok(o.expire),
            SpecCommand::ExpireAt(_, t) => t <= MAX_EXPIRE_MS,
            _ => true,
        },
    ensures
        final(db).wf(),
        spec_dispatch(*old(db), *final(db), cmd@, r, now),
{
    match cmd {
        Command::Ping => Response::Simple("PONG".to_owned()),
        Command::Echo(t) => Response::Bulk(Some(t)),
        Command::Get(k) => {
            match db.get(&k, now) {
                Some(v) => Response::Bulk(Some(decode_lossy(&v))),
                None => Response::Bulk(None),
            }
        },
        Command::SetValue(k, v, o) => {
            let prior = db.is_live(&k, now);
            let applied = db.set(&k, v, o, now);
            if !applied {
                Response::Bulk(None)
            } else if prior {
                Response::Simple("Updated".to_owned())
            } else {
                Response::Simple("OK".to_owned())
            }
        },
        Command::Del(ks) => {
            let n = db.del(ks.as_slice(), now);
            Response::Simple(fmt_u64(n as u64))
        },
        Command::Exists(ks) => {
            let n = db.exists_count(ks.as_slice(), now);
            Response::Simple(fmt_u64(n as u64))
        },
        Command::ExpireAt(k, t) => {
            let ok = db.expire_at(&k, t, now);
            if ok {
                Response::Simple("true".to_owned())
            } else {
                Response::Simple("false".to_owned())
            }
        },
        Command::Persist(k) => {
            let ok = db.persist(&k, now);
            if ok {
                Response::Simple("true".to_owned())
            } else {
                Response::Simple("false".to_owned())
            }
        },
        Command::TtlMs(k) => {
            match db.ttl_ms(&k, now) {
                Some(v) => {
                    proof {
                        if db.spec_get(k@) is Some {
                            crate::store::lemma_wf_expire_bounded(*db, k@);
                        }
                        assert(v > i64::MIN);
                    }
                    Response::Simple(fmt_i64(v))
                },
                None => Response::Bulk(None),
            }
        },
        Command::Unknown(raw) => Error::UnknownCommand(raw).to_response(),
    }
}

/// Handles one trimmed command line at instant `now`: parses it, applies
/// it to the store, and builds the reply line.
pub fn response(db: &mut Store, msg: &str, now: u64) -> (r: Response)
    requires
        old(db).wf(),
    ensures
        final(db).wf(),
        spec_dispatch(*old(db), *final(db), spec_command(spec_tokens(msg@), msg@, now), r, now),
{
    let cmd = parse_command(msg, now);
    dispatch(db, cmd, now)
}

/// What the transport reported for one read: a decoded, trimmed command
/// line; the peer's end of stream; or a failed read.
#[derive(Debug, PartialEq, Eq)]
pub enum ReadEvent {
    Line(String),
    Eof,
    Failed,
}

/// What the session does next: write a reply line and read again, or
/// finish.
#[derive(Debug, PartialEq, Eq)]
pub enum SessionAct {
    Reply(Vec<u8>),
    Close,
}

/// One step of a session's state machine: a command line is dispatched
/// and answered on the same session (`Reading` to `Dispatching` to
/// `Writing`); end-of-stream and a failed read close the session and
/// leave the store untouched.
pub fn session_step(db: &mut Store, ev: ReadEvent, now: u64) -> (act: SessionAct)
    requires
        old(db).wf(),
    ensures
        final(db).wf(),
        match ev {
            ReadEvent::Line(line) => exists|r: Response|
                #[trigger] spec_dispatch(
                    *old(db),
                    *final(db),
                    spec_command(spec_tokens(line@), line@, now),
                    r,
                    now,
                ) && (act matches SessionAct::Reply(b) && b@ == crate::response::spec_to_bytes(r)),
            ReadEvent::Eof => act is Close && store_unchanged(*old(db), *final(db)),
            ReadEvent::Failed => act is Close && store_unchanged(*old(db), *final(db)),
        },
{
    match ev {
        ReadEvent::Line(line) => {
            let r = response(db, line.as_str(), now);
            SessionAct::Reply(r.to_bytes())
        },
        ReadEvent::Eof => SessionAct::Close,
        ReadEvent::Failed => SessionAct::Close,
    }
}

} // verus!
