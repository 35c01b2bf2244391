//! Loopback control channel for the desktop GUI: status + stop behind a bearer token.
//!
//! Every request needs the per-session token, because `POST /stop` can take the proxy (and with it
//! the hosts redirection lifecycle) down.

use vstd::prelude::*;
use vstd::string::*;

use crate::json::{
    compact, law_objects_are_written_member_by_member, lemma_quoted_plain, members_view, Json,
    JsonValue,
};
use crate::privilege::seen;
use crate::text::{decimal, law_joining_appends, numeral, same};

verus! {

/// What a request to the control channel is answered.
#[derive(Debug)]
pub struct ControlReply {
    pub status: u16,
    /// The body is JSON; else it is plain text.
    pub json: bool,
    pub body: String,
    /// The proxy is to be shut down.
    pub stop: bool,
}

/// The header holds the token.
pub open spec fn authorizes(authorization: Option<Seq<char>>, token: Seq<char>) -> bool {
    authorization == Some("Bearer "@ + token)
}

/// The status of a live process.
pub open spec fn status_json(pid: u32) -> Json {
    Json::Object(
        seq![("ok"@, Json::Bool(true)), ("pid"@, Json::Number(decimal(pid as nat)))],
    )
}

/// The word that the process is stopping.
pub open spec fn stopping_json() -> Json {
    Json::Object(seq![("stopping"@, Json::Bool(true))])
}

/// The status of a live process, as JSON text.
pub fn status_body(pid: u32) -> (r: String)
    ensures
        r@ == compact(status_json(pid)),
{
    let members = vec![
        ("ok".to_string(), JsonValue::Bool(true)),
        ("pid".to_string(), JsonValue::Number(numeral(pid as u64))),
    ];
    proof {
        reveal_with_fuel(members_view, 3);
        assert(members_view(members, 2) =~= seq![
            ("ok"@, Json::Bool(true)),
            ("pid"@, Json::Number(decimal(pid as nat))),
        ]);
    }
    JsonValue::Object(members).to_text()
}

/// The word that the process is stopping, as JSON text.
fn stopping_body() -> (r: String)
    ensures
        r@ == compact(stopping_json()),
{
    let members = vec![("stopping".to_string(), JsonValue::Bool(true))];
    proof {
        reveal_with_fuel(members_view, 2);
        assert(members_view(members, 1) =~= seq![("stopping"@, Json::Bool(true))]);
    }
    JsonValue::Object(members).to_text()
}

/// Answer a request to the control channel.
pub fn handle(
    token: &str,
    authorization: Option<&str>,
    method: &str,
    path: &str,
    pid: u32,
) -> (r: ControlReply)
    ensures
        if !authorizes(seen(authorization), token@) {
            r.status == 401 && !r.json && r.body@ == "unauthorized"@ && !r.stop
        } else if method@ == "GET"@ && path@ == "/status"@ {
            r.status == 200 && r.json && r.body@ == compact(status_json(pid)) && !r.stop
        } else if method@ == "POST"@ && path@ == "/stop"@ {
            r.status == 200 && r.json && r.body@ == compact(stopping_json()) && r.stop
        } else {
            r.status == 404 && !r.json && r.body@ == "not found"@ && !r.stop
        },
{
    let mut expected = "Bearer ".to_string();
    expected.push_str(token);
    let authorized = match authorization {
        Some(v) => same(v, expected.as_str()),
        None => false,
    };
    if !authorized {
        return ControlReply {
            status: 401,
            json: false,
            body: "unauthorized".to_string(),
            stop: false,
        };
    }
    if same(method, "GET") && same(path, "/status") {
        ControlReply { status: 200, json: true, body: status_body(pid), stop: false }
    } else if same(method, "POST") && same(path, "/stop") {
        ControlReply { status: 200, json: true, body: stopping_body(), stop: true }
    } else {
        ControlReply { status: 404, json: false, body: "not found".to_string(), stop: false }
    }
}

// ── Laws ─────────────────────────────────────────────────────────────────────

/// Nobody without the token learns anything or stops anything, whatever is asked for.
pub proof fn law_nothing_is_told_without_the_token(
    token: &str,
    authorization: Option<&str>,
    method: &str,
    path: &str,
    pid: u32,
    r: ControlReply,
)
    requires
        call_ensures(handle, (token, authorization, method, path, pid), r),
        authorization is None || authorization->0@ != "Bearer "@ + token@,
    ensures
        r.status == 401,
        !r.stop,
        !r.json,
        r.body@ == "unauthorized"@,
{
}

/// Whoever holds the token is obeyed: `POST /stop` stops, and nothing else does; `GET /status` tells
/// which process is alive; and anything else is not there.
pub proof fn law_the_token_is_obeyed(
    token: &str,
    authorization: &str,
    method: &str,
    path: &str,
    pid: u32,
    r: ControlReply,
)
    requires
        call_ensures(handle, (token, Some(authorization), method, path, pid), r),
        authorization@ == "Bearer "@ + token@,
    ensures
        r.stop <==> method@ == "POST"@ && path@ == "/stop"@,
        r.status == 200 <==> (method@ == "POST"@ && path@ == "/stop"@) || (method@ == "GET"@
            && path@ == "/status"@),
        r.status == 200 || r.status == 404,
        r.json <==> r.status == 200,
        r.status == 404 ==> r.body@ == "not found"@,
        r.stop ==> r.body@ == "{\"stopping\":true}"@,
        r.status == 200 && !r.stop ==> r.body@ == "{\"ok\":true,\"pid\":"@ + decimal(pid as nat)
            + "}"@,
{
    reveal_strlit("GET");
    reveal_strlit("POST");
    assert("GET"@.len() != "POST"@.len());
    lemma_status_is_written_out(pid);
}

/// The two replies, written out.
proof fn lemma_status_is_written_out(pid: u32)
    ensures
        compact(stopping_json()) == "{\"stopping\":true}"@,
        compact(status_json(pid)) == "{\"ok\":true,\"pid\":"@ + decimal(pid as nat) + "}"@,
{
    let write = |m: (Seq<char>, Json)| compact(Json::Text(m.0)) + seq![':'] + compact(m.1);
    let number = decimal(pid as nat);
    let none: Seq<Seq<char>> = seq![];
    lemma_flag("stopping"@);
    lemma_flag("ok"@);
    lemma_pid(number);

    let s = seq![("stopping"@, Json::Bool(true))];
    law_objects_are_written_member_by_member(s);
    let a = write(s[0]);
    assert(s.map_values(write) =~= none.push(a));
    law_joining_appends(none, a, seq![',']);

    let t = seq![("ok"@, Json::Bool(true)), ("pid"@, Json::Number(number))];
    law_objects_are_written_member_by_member(t);
    let b = write(t[0]);
    let c = write(t[1]);
    assert(t.map_values(write) =~= none.push(b).push(c));
    law_joining_appends(none, b, seq![',']);
    law_joining_appends(none.push(b), c, seq![',']);
    lemma_replies(number);
}

/// The name of a flag that is set, and the flag.
proof fn lemma_flag(name: Seq<char>)
    requires
        name == "stopping"@ || name == "ok"@,
    ensures
        compact(Json::Text(name)) + seq![':'] + compact(Json::Bool(true)) == seq!['"'] + name
            + "\":true"@,
{
    reveal_strlit("stopping");
    reveal_strlit("ok");
    reveal_strlit("\":true");
    lemma_quoted_plain(name);
    assert(compact(Json::Text(name)) + seq![':'] + compact(Json::Bool(true)) =~= seq!['"'] + name
        + "\":true"@);
}

/// The name of the process id, and the id.
proof fn lemma_pid(number: Seq<char>)
    ensures
        compact(Json::Text("pid"@)) + seq![':'] + compact(Json::Number(number)) == "\"pid\":"@
            + number,
{
    reveal_strlit("pid");
    reveal_strlit("\"pid\":");
    lemma_quoted_plain("pid"@);
    assert(compact(Json::Text("pid"@)) =~= seq!['"', 'p', 'i', 'd', '"']);
    assert(compact(Json::Text("pid"@)) + seq![':'] + compact(Json::Number(number)) =~= "\"pid\":"@
        + number);
}

proof fn lemma_replies(number: Seq<char>)
    ensures
        seq!['{'] + (seq!['"'] + "stopping"@ + "\":true"@) + seq!['}'] == "{\"stopping\":true}"@,
        seq!['{'] + (seq!['"'] + "ok"@ + "\":true"@ + seq![','] + ("\"pid\":"@ + number)) + seq!['}']
            == "{\"ok\":true,\"pid\":"@ + number + "}"@,
{
    reveal_strlit("stopping");
    reveal_strlit("ok");
    reveal_strlit("\":true");
    reveal_strlit("\"pid\":");
    reveal_strlit("}");
    reveal_strlit("{\"stopping\":true}");
    reveal_strlit("{\"ok\":true,\"pid\":");
    assert(seq!['{'] + (seq!['"'] + "stopping"@ + "\":true"@) + seq!['}']
        =~= "{\"stopping\":true}"@);
    assert(seq!['{'] + (seq!['"'] + "ok"@ + "\":true"@ + seq![','] + ("\"pid\":"@ + number))
        + seq!['}'] =~= "{\"ok\":true,\"pid\":"@ + number + "}"@);
}

} // verus!
