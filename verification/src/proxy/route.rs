//! Request classification: intercept, pass through, or answer the health probe.

use vstd::prelude::*;
use vstd::string::*;

use crate::config::{
    bare_host, chat_turn, hosts_of, is_chat_request, law_port_makes_no_difference, lemma_bare_host,
    Tool,
};
use crate::mapping::{
    law_exact_match_wins, law_targets_come_from_the_map, law_the_fallback_catches_the_rest, ModelMap,
};
use crate::privilege::seen;
use crate::text::{contains, same};
use crate::types::cw;

verus! {

pub const HEALTH_PATH: &'static str = "/_mitm_health";

#[derive(Debug, PartialEq, Eq)]
pub enum Decision {
    /// Local liveness probe.
    Health,
    /// Translate this chat turn to the provider and target this mapped model.
    Intercept { model: String },
    /// Forward untouched to the real upstream. Every non-chat turn, every unmapped model, and
    /// every unparseable body lands here: interception must never break normal traffic.
    Passthrough,
}

/// What is to be done with a request.
pub ghost enum Verdict {
    Health,
    Intercept(Seq<char>),
    Passthrough,
}

impl View for Decision {
    type V = Verdict;

    open spec fn view(&self) -> Verdict {
        match *self {
            Decision::Health => Verdict::Health,
            Decision::Intercept { model } => Verdict::Intercept(model@),
            Decision::Passthrough => Verdict::Passthrough,
        }
    }
}

/// The model that the body of a request asks for, where the body is a conversation.
pub open spec fn asked_in(body: Option<cw::Request>) -> Option<Seq<char>> {
    match body {
        Some(req) => req.asked_model(),
        None => None,
    }
}

/// What is to be done with a request: the health path is answered whatever the host; a chat turn
/// of a hijacked host that asks for a mapped model is taken over; the rest passes through.
pub open spec fn verdict(
    host: Seq<char>,
    path: Seq<char>,
    target: Option<Seq<char>>,
    body: Option<cw::Request>,
    map: ModelMap,
) -> Verdict {
    if path == HEALTH_PATH@ {
        Verdict::Health
    } else if hosts_of(Tool::Kiro).contains(bare_host(host)) && chat_turn(Tool::Kiro, path, target)
        && asked_in(body) is Some && map.target(asked_in(body)->0) is Some {
        Verdict::Intercept(map.target(asked_in(body)->0)->0)
    } else {
        Verdict::Passthrough
    }
}

/// Decide what to do with a request, given its host, path, the `x-amz-target` header, the body as
/// far as it is a conversation, and the configured model map.
///
/// Only a body that parses as a conversation is a candidate. A binary EventStream body (or
/// anything else) is none and passes through untouched.
pub fn classify(
    host: &str,
    path: &str,
    amz_target: Option<&str>,
    body: Option<&cw::Request>,
    map: &ModelMap,
) -> (r: Decision)
    ensures
        r@ == verdict(
            host@,
            path@,
            seen(amz_target),
            match body {
                Some(req) => Some(*req),
                None => None,
            },
            *map,
        ),
{
    if same(path, HEALTH_PATH) {
        return Decision::Health;
    }
    let tool = match Tool::from_host(host) {
        Some(tool) => tool,
        None => {
            return Decision::Passthrough;
        },
    };
    if !is_chat_request(tool, path, amz_target) {
        return Decision::Passthrough;
    }
    let model_id = match body {
        Some(req) => match req.model_id() {
            Some(id) => id,
            None => {
                return Decision::Passthrough;
            },
        },
        None => {
            return Decision::Passthrough;
        },
    };
    match map.resolve(model_id) {
        Some(model) => Decision::Intercept { model: model.to_string() },
        None => Decision::Passthrough,
    }
}

// ── Laws ─────────────────────────────────────────────────────────────────────

/// Normal traffic is never touched: what is no conversation, or asks for a model that is not
/// mapped, or goes to another host, or is no chat turn, passes through, but for the health path.
pub proof fn law_normal_traffic_passes_through(
    host: Seq<char>,
    path: Seq<char>,
    target: Option<Seq<char>>,
    body: Option<cw::Request>,
    map: ModelMap,
)
    requires
        path != HEALTH_PATH@,
        ({
            ||| body is None
            ||| asked_in(body) is Some && map.target(asked_in(body)->0) is None
            ||| !hosts_of(Tool::Kiro).contains(bare_host(host))
            ||| !chat_turn(Tool::Kiro, path, target)
        }),
    ensures
        verdict(host, path, target, body, map) is Passthrough,
{
}

/// The health path is answered here, whatever else the request holds.
pub proof fn law_health_is_answered_whatever_the_host(
    host: &str,
    path: &str,
    amz_target: Option<&str>,
    body: Option<&cw::Request>,
    map: &ModelMap,
    r: Decision,
)
    requires
        call_ensures(classify, (host, path, amz_target, body, map), r),
    ensures
        path@ == "/_mitm_health"@ <==> r is Health,
{
}

/// A chat turn is taken over whenever it asks for a model that is mapped, by an entry of its own or
/// by the fallback, and by whatever name, port or path it comes: nothing else in the request can
/// prevent that.
pub proof fn law_mapped_chat_turns_are_taken_over(
    host: &str,
    path: &str,
    amz_target: Option<&str>,
    body: &cw::Request,
    map: &ModelMap,
    r: Decision,
    name: Seq<char>,
    port: Seq<char>,
    asked: String,
)
    requires
        call_ensures(classify, (host, path, amz_target, Some(body), map), r),
        path@ != "/_mitm_health"@,
        name == "runtime.us-east-1.kiro.dev"@ || name == "q.us-east-1.amazonaws.com"@ || name
            == "codewhisperer.us-east-1.amazonaws.com"@,
        host@ == name || host@ == name + seq![':'] + port,
        contains(path@, "/generateAssistantResponse"@) || (amz_target is Some && contains(
            amz_target->0@,
            "GenerateAssistantResponse"@,
        )),
        body.conversation_state.current_message is Some,
        body.conversation_state.current_message->0.user_input_message is Some,
        body.conversation_state.current_message->0.user_input_message->0.model_id == Some(asked),
        map.wf(),
    ensures
        forall|i: int|
            0 <= i < map.models@.len() && (#[trigger] map.models@[i]).0@ == asked@ ==> r@
                == Verdict::Intercept(map.models@[i].1@),
        (forall|i: int| 0 <= i < map.models@.len() ==> (#[trigger] map.models@[i]).0@ != asked@)
            && map.default is Some ==> r@ == Verdict::Intercept(map.default->0@),
{
    reveal_strlit("runtime.us-east-1.kiro.dev");
    reveal_strlit("q.us-east-1.amazonaws.com");
    reveal_strlit("codewhisperer.us-east-1.amazonaws.com");
    let hosts = hosts_of(Tool::Kiro);
    let k: int = if name == hosts[0] {
        0
    } else if name == hosts[1] {
        1
    } else {
        2
    };
    assert(hosts[k] == name);
    law_port_makes_no_difference(name, port);
    assert(hosts.contains(bare_host(host@)));
    assert forall|i: int| 0 <= i < map.models@.len() && (#[trigger] map.models@[i]).0@
        == asked@ implies r@ == Verdict::Intercept(map.models@[i].1@) by {
        law_exact_match_wins(*map, i);
    }
    if forall|i: int| 0 <= i < map.models@.len() ==> (#[trigger] map.models@[i]).0@ != asked@ {
        law_the_fallback_catches_the_rest(*map, asked@);
    }
}

/// Nothing but such a chat turn is taken over: the host is one of those that are redirected, the
/// request names the operation, the current turn names a model, and the target is what that model
/// is mapped to.
pub proof fn law_only_mapped_chat_turns_are_taken_over(
    host: &str,
    path: &str,
    amz_target: Option<&str>,
    body: Option<&cw::Request>,
    map: &ModelMap,
    r: Decision,
)
    requires
        call_ensures(classify, (host, path, amz_target, body, map), r),
        r is Intercept,
    ensures
        exists|name: Seq<char>, port: Seq<char>|
            {
                &&& name == "runtime.us-east-1.kiro.dev"@ || name == "q.us-east-1.amazonaws.com"@
                    || name == "codewhisperer.us-east-1.amazonaws.com"@
                &&& host@ == name || host@ == #[trigger] (name + seq![':'] + port)
            },
        contains(path@, "/generateAssistantResponse"@) || (amz_target is Some && contains(
            amz_target->0@,
            "GenerateAssistantResponse"@,
        )),
        body is Some,
        body->0.conversation_state.current_message is Some,
        body->0.conversation_state.current_message->0.user_input_message is Some,
        body->0.conversation_state.current_message->0.user_input_message->0.model_id is Some,
        ({
            let asked =
                body->0.conversation_state.current_message->0.user_input_message->0.model_id->0;
            let model = r->Intercept_model@;
            ||| exists|i: int|
                0 <= i < map.models@.len() && (#[trigger] map.models@[i]).0@ == asked@
                    && map.models@[i].1@ == model
            ||| map.default is Some && map.default->0@ == model && forall|i: int|
                0 <= i < map.models@.len() ==> (#[trigger] map.models@[i]).0@ != asked@
        }),
{
    let hosts = hosts_of(Tool::Kiro);
    let bare = bare_host(host@);
    let k = choose|k: int| 0 <= k < hosts.len() && hosts[k] == bare;
    assert(k == 0 || k == 1 || k == 2);
    lemma_bare_host(host@);
    if host@ != bare {
        let port = choose|port: Seq<char>| host@ == #[trigger] (bare + seq![':'] + port);
        assert(host@ == bare + seq![':'] + port);
    } else {
        let port: Seq<char> = seq![];
        let whole = bare + seq![':'] + port;
        assert(host@ == bare || host@ == whole);
    }
    let asked = body->0.conversation_state.current_message->0.user_input_message->0.model_id->0;
    law_targets_come_from_the_map(*map, asked@);
}

} // verus!
