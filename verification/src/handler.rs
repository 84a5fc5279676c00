//! The request handlers and router.
//!
//! Ingestion validates a form-encoded write request, decodes the history
//! field, and hands a record to the store; retrieval renders the recent
//! view as a plain-text digest; the router dispatches by method and path,
//! answering anything else with a client error.

use vstd::prelude::*;

use crate::codec::{decode_history, history_of, is_digit, digits_val};
use crate::command::{Command, CommandV};
use crate::render::{digest_of, render_digest};
use crate::store::{recent_of, CommandStore, StoreV, RECENT_LIMIT};

verus! {

/// The value `str::parse::<u32>` reads from a string: an optional leading
/// `+`, then one or more decimal digits whose value fits in `u32`;
/// anything else is rejected.
pub open spec fn parse_u32_of(s: Seq<char>) -> Option<u32> {
    let start: int = if s.len() > 0 && s[0] == '+' {
        1
    } else {
        0
    };
    if start < s.len() && (forall|t: int| start <= t < s.len() ==> is_digit(#[trigger] s[t]))
        && digits_val(s, start, s.len() as int) <= u32::MAX {
        Some(digits_val(s, start, s.len() as int) as u32)
    } else {
        None
    }
}

/// Parse a non-negative integer as `str::parse::<u32>` does.
pub fn parse_u32(s: &str) -> (r: Option<u32>)
    ensures
        r == parse_u32_of(s@),
{
    let n = s.unicode_len();
    let start: usize = if n > 0 && s.get_char(0) == '+' {
        1
    } else {
        0
    };
    if start >= n {
        return None;
    }
    let mut j: usize = start;
    let mut acc: u32 = 0;
    while j < n
        invariant
            n == s@.len(),
            start <= j <= n,
            start == (if s@.len() > 0 && s@[0] == '+' {
                1int
            } else {
                0int
            }),
            start < n,
            forall|t: int| start <= t < j ==> is_digit(#[trigger] s@[t]),
            acc == digits_val(s@, start as int, j as int),
        decreases n - j,
    {
        let u = s.get_char(j) as u32;
        if !(48 <= u && u <= 57) {
            return None;
        }
        let d = u - 48;
        let wide: u64 = (acc as u64) * 10 + (d as u64);
        if wide > u32::MAX as u64 {
            proof {
                if forall|t: int| start <= t < s@.len() ==> is_digit(#[trigger] s@[t]) {
                    crate::codec::lemma_digits_val_mono(s@, start as int, j + 1, s@.len() as int);
                }
            }
            return None;
        }
        acc = wide as u32;
        j = j + 1;
    }
    Some(acc)
}

/// The last value under `name` among the pairs, if any: later pairs win,
/// as collecting pairs into a map makes them.
pub open spec fn field_of(fs: Seq<(Seq<char>, Seq<char>)>, name: Seq<char>) -> Option<Seq<char>>
    decreases fs.len(),
{
    if fs.len() == 0 {
        None
    } else if fs.last().0 == name {
        Some(fs.last().1)
    } else {
        field_of(fs.drop_last(), name)
    }
}

/// The views of a sequence of key/value pairs.
pub open spec fn pair_views(s: Seq<(String, String)>) -> Seq<(Seq<char>, Seq<char>)> {
    s.map_values(|p: (String, String)| (p.0@, p.1@))
}

/// Look a field up among the decoded form pairs; the last pair under the
/// name wins.
fn get_field(fields: &Vec<(String, String)>, name: &str) -> (r: Option<String>)
    ensures
        match r {
            Some(v) => field_of(pair_views(fields@), name@) == Some(v@),
            None => field_of(pair_views(fields@), name@) is None,
        },
{
    let ghost fs = pair_views(fields@);
    let key = name.to_owned();
    let mut i: usize = fields.len();
    proof {
        assert(fs.take(i as int) =~= fs);
    }
    while i > 0
        invariant
            i <= fields.len(),
            fs == pair_views(fields@),
            key@ == name@,
            field_of(fs, name@) == field_of(fs.take(i as int), name@),
        decreases i,
    {
        i = i - 1;
        proof {
            assert(fs.take(i + 1).last() == fs[i as int]);
            assert(fs.take(i + 1).drop_last() =~= fs.take(i as int));
            assert(fs[i as int] == (fields@[i as int].0@, fields@[i as int].1@));
        }
        let pair = &fields[i];
        if pair.0 == key {
            let v = pair.1.clone();
            return Some(v);
        }
    }
    proof {
        assert(fs.take(0) =~= Seq::<(Seq<char>, Seq<char>)>::empty());
    }
    None
}

/// What `str::to_lowercase` maps text to: a function of the characters
/// alone.
pub uninterp spec fn lower_of(s: Seq<char>) -> Seq<char>;

/// Relies on `str::to_lowercase`: the lowercased text depends on the
/// characters alone.
#[verifier::external_body]
fn lowercase(s: &str) -> (r: String)
    ensures
        r@ == lower_of(s@),
{
    s.to_lowercase()
}

/// What `form_urlencoded::parse` decodes a body to: the key/value pairs,
/// in order, a function of the bytes alone.
pub uninterp spec fn form_pairs_of(b: Seq<u8>) -> Seq<(Seq<char>, Seq<char>)>;

/// Relies on `form_urlencoded::parse` (of the `url` crate): the decoded
/// key/value pairs, in order, are a function of the body bytes alone.
#[verifier::external_body]
fn parse_form(body: &[u8]) -> (r: Vec<(String, String)>)
    ensures
        r@.len() == form_pairs_of(body@).len(),
        forall|i: int|
            0 <= i < r@.len() ==> (#[trigger] r@[i].0@, r@[i].1@) == form_pairs_of(body@)[i],
{
    url::form_urlencoded::parse(body).into_owned().collect()
}

/// Relies on `chrono::Utc::now` and `DateTime::timestamp_millis`: the
/// current UTC time in milliseconds. Nothing is promised of the value.
#[verifier::external_body]
fn now_millis() -> i64 {
    chrono::Utc::now().timestamp_millis()
}

/// An HTTP response, reduced to what the service decides: the status code,
/// the body, and whether the body is declared plain text.
pub struct Reply {
    pub status: u16,
    pub body: String,
    pub text_plain: bool,
}

/// The request methods the router distinguishes. Everything that is not a
/// GET or a POST is `Other` and rejected.
#[derive(Clone, Copy, Debug, PartialEq, Eq, Structural)]
pub enum Method {
    Get,
    Post,
    Other,
}

/// What ingestion decides for a set of form fields: reject with an error
/// text, accept without recording (empty command), or record one command.
pub ghost enum PostOutcome {
    Reject(Seq<char>),
    NoOp,
    Insert(CommandV),
}

/// The ingestion decision: each required field checked in turn, then the
/// history field decoded; an empty decoded command is a no-op; otherwise
/// the record to insert, with the session id lowercased, the server time
/// as timestamp, and the id still unassigned.
pub open spec fn post_outcome(fs: Seq<(Seq<char>, Seq<char>)>, now: int) -> PostOutcome {
    match field_of(fs, "status"@) {
        Option::None => PostOutcome::Reject("status missing"@),
        Option::Some(sv) => match parse_u32_of(sv) {
            Option::None => PostOutcome::Reject("status invalid"@),
            Option::Some(status) => match field_of(fs, "pwd"@) {
                Option::None => PostOutcome::Reject("pwd missing"@),
                Option::Some(pwd) => match field_of(fs, "session_id"@) {
                    Option::None => PostOutcome::Reject("session_id missing"@),
                    Option::Some(sid) => match field_of(fs, "history"@) {
                        Option::None => PostOutcome::Reject("history missing"@),
                        Option::Some(h) => match history_of(h) {
                            Result::Err(_) => PostOutcome::Reject("history invalid"@),
                            Result::Ok(p) => if p.1.len() == 0 {
                                PostOutcome::NoOp
                            } else {
                                PostOutcome::Insert(
                                    CommandV {
                                        id: 0,
                                        session_id: lower_of(sid),
                                        index: p.0 as int,
                                        command: p.1,
                                        pwd: pwd,
                                        status: status as int,
                                        timestamp: now,
                                    },
                                )
                            },
                        },
                    },
                },
            },
        },
    }
}

/// How a reply and the store's new value relate to its old value for an
/// ingestion request over fields `fs` at time `now`: a rejection answers
/// 400 with its reason and leaves the store unchanged; an accepted request
/// answers 200 with an empty body, recording exactly the decoded command
/// (under the next fresh id) unless its text was empty.
pub open spec fn post_transition(
    pre: StoreV,
    post: StoreV,
    r: Reply,
    fs: Seq<(Seq<char>, Seq<char>)>,
    now: int,
) -> bool {
    &&& !r.text_plain
    &&& match post_outcome(fs, now) {
        PostOutcome::Reject(msg) => r.status == 400 && r.body@ == msg && post == pre,
        PostOutcome::NoOp => r.status == 200 && r.body@.len() == 0 && post == pre,
        PostOutcome::Insert(c) => r.status == 200 && r.body@.len() == 0 && post.commands
            == pre.commands.push(CommandV { id: pre.next_id, ..c }) && post.next_id == pre.next_id
            + 1,
    }
}

fn reply(status: u16, body: &str, text_plain: bool) -> (r: Reply)
    ensures
        r.status == status,
        r.body@ == body@,
        r.text_plain == text_plain,
{
    Reply { status, body: body.to_owned(), text_plain }
}

/// Ingestion: validate the form fields, decode the history field, and
/// record the command (unless its text is empty). Field errors answer 400
/// naming the field, before any store access; success answers 200 with an
/// empty body whether or not a record was written.
pub fn handle_post(store: &mut CommandStore, fields: &Vec<(String, String)>, now: i64) -> (r:
    Reply)
    requires
        old(store).wf(),
        old(store)@.next_id < i64::MAX,
    ensures
        final(store).wf(),
        post_transition(old(store)@, final(store)@, r, pair_views(fields@), now as int),
{
    let status_s = match get_field(fields, "status") {
        Option::Some(v) => v,
        Option::None => {
            return reply(400, "status missing", false);
        },
    };
    let status = match parse_u32(status_s.as_str()) {
        Option::Some(v) => v,
        Option::None => {
            return reply(400, "status invalid", false);
        },
    };
    let pwd = match get_field(fields, "pwd") {
        Option::Some(v) => v,
        Option::None => {
            return reply(400, "pwd missing", false);
        },
    };
    let session_id = match get_field(fields, "session_id") {
        Option::Some(v) => v,
        Option::None => {
            return reply(400, "session_id missing", false);
        },
    };
    let history = match get_field(fields, "history") {
        Option::Some(v) => v,
        Option::None => {
            return reply(400, "history missing", false);
        },
    };
    let decoded = match decode_history(history.as_str()) {
        Result::Ok(p) => p,
        Result::Err(_) => {
            return reply(400, "history invalid", false);
        },
    };
    let (index, command_text) = decoded;
    proof {
        reveal_strlit("");
    }
    if command_text.as_str().unicode_len() == 0 {
        return reply(200, "", false);
    }
    let mut command = Command {
        id: 0,
        session_id: lowercase(session_id.as_str()),
        index,
        command: command_text,
        pwd,
        status,
        timestamp: now,
    };
    store.insert_command(&mut command);
    reply(200, "", false)
}

/// How a reply and the store's new value relate to its old value for any
/// request: POST to the commands resource ingests; GET on it answers the
/// digest of the recent view as plain text and changes nothing; any other
/// shape answers 400 with body `error` and changes nothing.
pub open spec fn request_transition(
    pre: StoreV,
    post: StoreV,
    r: Reply,
    method: Method,
    path: Seq<char>,
    body: Seq<u8>,
    now: int,
) -> bool {
    if path == "/commands"@ && method == Method::Post {
        post_transition(pre, post, r, form_pairs_of(body), now)
    } else if path == "/commands"@ && method == Method::Get {
        &&& r.status == 200
        &&& r.body@ == digest_of(recent_of(pre.commands, RECENT_LIMIT as int))
        &&& r.text_plain
        &&& post == pre
    } else {
        &&& r.status == 400
        &&& r.body@ == "error"@
        &&& !r.text_plain
        &&& post == pre
    }
}

/// The router: dispatch one request by method and path, at server time
/// `now` (milliseconds), against the store.
pub fn handle_request(
    store: &mut CommandStore,
    method: Method,
    path: &str,
    body: &[u8],
    now: i64,
) -> (r: Reply)
    requires
        old(store).wf(),
        old(store)@.next_id < i64::MAX,
    ensures
        final(store).wf(),
        request_transition(old(store)@, final(store)@, r, method, path@, body@, now as int),
{
    let p = path.to_owned();
    let commands_path = "/commands".to_owned();
    if p == commands_path {
        match method {
            Method::Post => {
                let fields = parse_form(body);
                proof {
                    assert(pair_views(fields@) =~= form_pairs_of(body@));
                }
                handle_post(store, &fields, now)
            },
            Method::Get => {
                let recent = store.get_latest_commands();
                let body_text = render_digest(&recent);
                Reply { status: 200, body: body_text, text_plain: true }
            },
            Method::Other => reply(400, "error", false),
        }
    } else {
        reply(400, "error", false)
    }
}

/// The router, stamping the request with the current server time.
///
/// The reply and the store's new value relate to its old value as
/// [`request_transition`] says, for the moment the request was handled.
pub fn handle_request_now(store: &mut CommandStore, method: Method, path: &str, body: &[u8]) -> (r:
    Reply)
    requires
        old(store).wf(),
        old(store)@.next_id < i64::MAX,
    ensures
        final(store).wf(),
        exists|t: int|
            request_transition(old(store)@, final(store)@, r, method, path@, body@, t),
{
    let now = now_millis();
    let r = handle_request(store, method, path, body, now);
    proof {
        assert(request_transition(old(store)@, store@, r, method, path@, body@, now as int));
    }
    r
}

} // verus!
