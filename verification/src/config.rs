//! Which hosts are taken over, and how to tell a chat turn from everything else.

use vstd::prelude::*;
use vstd::string::*;

use crate::text::{chars_of, contains, contains_str, occurs_at, same, strs, text_between};

verus! {

#[derive(Debug, Clone, Copy, PartialEq, Eq, Hash, Structural)]
pub enum Tool {
    Kiro,
}

/// Hosts written to the system hosts file as loopback when interception is on.
pub const TOOL_HOSTS: [(Tool, [&'static str; 3]); 1] = [
    (
        Tool::Kiro,
        [
            "runtime.us-east-1.kiro.dev",
            "q.us-east-1.amazonaws.com",
            "codewhisperer.us-east-1.amazonaws.com",
        ],
    ),
];

/// Model ids that the IDE's agent sends, in the form they appear in the request body, with the
/// names to display.
///
/// The agent mode sends `auto` for the main turn and `simple-task` for background sub-tasks, and
/// the others appear when the user picks a model in the IDE. Both `auto` and `simple-task` must
/// stay mappable: an unmapped id is passed through to AWS untouched, which silently defeats
/// interception.
///
/// The list is not complete: the IDE offers further models. A mapping takes any id, so theirs can be
/// mapped too, only not picked from this list.
pub const KIRO_MODEL_SLOTS: [(&'static str, &'static str); 7] = [
    ("auto", "Auto (Kiro Agent)"),
    ("deepseek-3.2", "DeepSeek 3.2"),
    ("minimax-m2.1", "MiniMax M2.1"),
    ("gpt-5.6-sol", "GPT 5.6 Sol"),
    ("gpt-5.6-terra", "GPT 5.6 Terra"),
    ("gpt-5.6-luna", "GPT 5.6 Luna"),
    ("simple-task", "Simple Task (background sub-tasks)"),
];

/// Port that is bound locally. Must be 443: the hosts-file hijack gives no way to change the port
/// that a client dials.
pub const LISTEN_PORT: u16 = 443;

/// Resolver used for passthrough. The system resolver is unusable while the hosts entries are
/// installed, since every target host points back at this machine.
pub const UPSTREAM_DNS: &'static str = "8.8.8.8:53";

// ── Model ────────────────────────────────────────────────────────────────────

/// A host without its port: what stands before the first colon.
pub open spec fn bare_host(host: Seq<char>) -> Seq<char>
    decreases host.len(),
{
    if host.len() == 0 || host[0] == ':' {
        seq![]
    } else {
        seq![host[0]] + bare_host(host.skip(1))
    }
}

/// The hosts of a tool.
pub open spec fn hosts_of(tool: Tool) -> Seq<Seq<char>> {
    match tool {
        Tool::Kiro => seq![
            "runtime.us-east-1.kiro.dev"@,
            "q.us-east-1.amazonaws.com"@,
            "codewhisperer.us-east-1.amazonaws.com"@,
        ],
    }
}

/// Is this request the chat turn of the tool?
pub open spec fn chat_turn(tool: Tool, path: Seq<char>, target: Option<Seq<char>>) -> bool {
    match tool {
        Tool::Kiro => {
            ||| contains(path, "/generateAssistantResponse"@)
            ||| target is Some && contains(target->0, "GenerateAssistantResponse"@)
        },
    }
}

// ── Functions ────────────────────────────────────────────────────────────────

/// A host without its port.
pub fn strip_port(host: &str) -> (r: String)
    ensures
        r@ == bare_host(host@),
{
    let chars = chars_of(host);
    let mut n: usize = 0;
    assert(chars@.skip(0) =~= chars@);
    assert(chars@.take(0) + bare_host(chars@) =~= bare_host(chars@));
    while n < chars.len() && chars[n] != ':'
        invariant
            n <= chars@.len(),
            bare_host(chars@) == chars@.take(n as int) + bare_host(chars@.skip(n as int)),
        decreases chars@.len() - n,
    {
        assert(chars@.skip(n as int)[0] == chars@[n as int]);
        assert(chars@.skip(n as int).skip(1) =~= chars@.skip(n + 1));
        assert(chars@.take(n + 1) =~= chars@.take(n as int) + seq![chars@[n as int]]);
        assert(chars@.take(n as int) + (seq![chars@[n as int]] + bare_host(chars@.skip(n + 1)))
            =~= chars@.take(n + 1) + bare_host(chars@.skip(n + 1)));
        n += 1;
    }
    assert(bare_host(chars@.skip(n as int)) =~= seq![]);
    assert(bare_host(chars@) =~= chars@.subrange(0, n as int));
    text_between(chars.as_slice(), 0, n)
}

impl Tool {
    /// The hosts of the tool.
    pub fn hosts(self) -> (r: Vec<&'static str>)
        ensures
            strs(r@) == hosts_of(self),
    {
        let hosts = match self {
            Tool::Kiro => TOOL_HOSTS[0].1,
        };
        let r = vec![hosts[0], hosts[1], hosts[2]];
        assert(strs(r@) =~= hosts_of(self));
        r
    }

    /// Map a `Host:` header back to the tool that owns it, whatever its port.
    pub fn from_host(host: &str) -> (r: Option<Self>)
        ensures
            match r {
                Some(tool) => hosts_of(tool).contains(bare_host(host@)),
                None => !hosts_of(Tool::Kiro).contains(bare_host(host@)),
            },
    {
        let bare = strip_port(host);
        let hosts = Tool::Kiro.hosts();
        let mut i: usize = 0;
        while i < hosts.len()
            invariant
                i <= hosts@.len(),
                strs(hosts@) == hosts_of(Tool::Kiro),
                bare@ == bare_host(host@),
                forall|j: int|
                    0 <= j < i ==> #[trigger] hosts_of(Tool::Kiro)[j] != bare_host(host@),
            decreases hosts@.len() - i,
        {
            assert(hosts_of(Tool::Kiro)[i as int] == hosts@[i as int]@);
            if same(hosts[i], bare.as_str()) {
                return Some(Tool::Kiro);
            }
            i += 1;
        }
        None
    }

    /// The name of the tool.
    pub fn name(self) -> (r: &'static str)
        ensures
            r@ == "kiro"@,
    {
        match self {
            Tool::Kiro => "kiro",
        }
    }
}

/// Is this request the chat turn to take over?
///
/// `GenerateAssistantResponse` moved off the legacy path and onto `POST /` + `x-amz-target`. Both
/// forms are still seen in the wild depending on IDE version.
pub fn is_chat_request(tool: Tool, path: &str, amz_target: Option<&str>) -> (b: bool)
    ensures
        b == chat_turn(
            tool,
            path@,
            match amz_target {
                Some(t) => Some(t@),
                None => None,
            },
        ),
{
    match tool {
        Tool::Kiro => {
            contains_str(path, "/generateAssistantResponse") || match amz_target {
                Some(t) => contains_str(t, "GenerateAssistantResponse"),
                None => false,
            }
        },
    }
}

// ── Laws ─────────────────────────────────────────────────────────────────────

/// A host is its bare form, or that, a colon and a port.
pub proof fn lemma_bare_host(host: Seq<char>)
    ensures
        !bare_host(host).contains(':'),
        host == bare_host(host) || exists|port: Seq<char>|
            host == #[trigger] (bare_host(host) + seq![':'] + port),
    decreases host.len(),
{
    let bare = bare_host(host);
    if host.len() == 0 {
        assert(bare =~= host);
    } else if host[0] == ':' {
        let port = host.skip(1);
        assert(host =~= bare + seq![':'] + port);
    } else {
        let rest = host.skip(1);
        lemma_bare_host(rest);
        assert(host =~= seq![host[0]] + rest);
        if bare.contains(':') {
            let i = choose|i: int| 0 <= i < bare.len() && bare[i] == ':';
            assert(bare_host(rest)[i - 1] == ':');
        }
        if rest != bare_host(rest) {
            let port = choose|port: Seq<char>|
                rest == #[trigger] (bare_host(rest) + seq![':'] + port);
            assert(host =~= bare + seq![':'] + port);
        }
    }
}

/// The hosts that are taken over are the three of the tool, and a request to one of them, on
/// whatever port, is known to be its own.
pub proof fn law_hosts_belong_to_the_tool(host: &str, owner: Option<Tool>)
    requires
        call_ensures(Tool::from_host, (host,), owner),
    ensures
        owner is Some <==> {
            let bare = bare_host(host@);
            ||| bare == "runtime.us-east-1.kiro.dev"@
            ||| bare == "q.us-east-1.amazonaws.com"@
            ||| bare == "codewhisperer.us-east-1.amazonaws.com"@
        },
{
    let hosts = hosts_of(Tool::Kiro);
    assert(hosts[0] == "runtime.us-east-1.kiro.dev"@);
    assert(hosts[1] == "q.us-east-1.amazonaws.com"@);
    assert(hosts[2] == "codewhisperer.us-east-1.amazonaws.com"@);
    assert(hosts.contains(hosts[0]) && hosts.contains(hosts[1]) && hosts.contains(hosts[2]));
}

/// A chat turn is told by the name of its operation, in its path or in its target.
pub proof fn law_chat_turns_name_their_operation(
    tool: Tool,
    path: &str,
    amz_target: Option<&str>,
    b: bool,
)
    requires
        call_ensures(is_chat_request, (tool, path, amz_target), b),
    ensures
        b <==> {
            ||| exists|i: int| #[trigger]
                occurs_at(path@, "/generateAssistantResponse"@, i)
            ||| amz_target is Some && exists|i: int| #[trigger]
                occurs_at(amz_target->0@, "GenerateAssistantResponse"@, i)
        },
{
}

/// A host that has no colon is its own bare form, and a port after it makes no difference.
pub proof fn law_port_makes_no_difference(host: Seq<char>, port: Seq<char>)
    requires
        !host.contains(':'),
    ensures
        bare_host(host) == host,
        bare_host(host + seq![':'] + port) == host,
    decreases host.len(),
{
    let with_port = host + seq![':'] + port;
    if host.len() == 0 {
        assert(bare_host(with_port) =~= host);
        assert(bare_host(host) =~= host);
    } else {
        let rest = host.skip(1);
        assert(!rest.contains(':')) by {
            if rest.contains(':') {
                let i = choose|i: int| 0 <= i < rest.len() && rest[i] == ':';
                assert(host[i + 1] == ':');
            }
        }
        law_port_makes_no_difference(rest, port);
        assert(host[0] != ':');
        assert(with_port.skip(1) =~= rest + seq![':'] + port);
        assert(seq![host[0]] + rest =~= host);
    }
}

/// Every host of a tool maps back to it, with or without a port.
pub proof fn law_own_hosts_map_back(tool: Tool, i: int, port: Seq<char>)
    requires
        0 <= i < hosts_of(tool).len(),
    ensures
        hosts_of(tool).contains(bare_host(hosts_of(tool)[i])),
        hosts_of(tool).contains(bare_host(hosts_of(tool)[i] + seq![':'] + port)),
{
    reveal_strlit("runtime.us-east-1.kiro.dev");
    reveal_strlit("q.us-east-1.amazonaws.com");
    reveal_strlit("codewhisperer.us-east-1.amazonaws.com");
    let host = hosts_of(tool)[i];
    assert(!host.contains(':'));
    law_port_makes_no_difference(host, port);
}

/// No two model slots have the same id, every one has a name, and the two ids that the agent
/// sends by itself are among them.
pub proof fn law_model_slots_are_unique()
    ensures
        forall|i: int, j: int|
            0 <= i < j < KIRO_MODEL_SLOTS@.len() ==> (#[trigger] KIRO_MODEL_SLOTS@[i]).0@ != (
            #[trigger] KIRO_MODEL_SLOTS@[j]).0@,
        forall|i: int|
            0 <= i < KIRO_MODEL_SLOTS@.len() ==> (#[trigger] KIRO_MODEL_SLOTS@[i]).1@.len() > 0,
        KIRO_MODEL_SLOTS@[0].0@ == "auto"@,
        KIRO_MODEL_SLOTS@[6].0@ == "simple-task"@,
{
    reveal_strlit("auto");
    reveal_strlit("deepseek-3.2");
    reveal_strlit("minimax-m2.1");
    reveal_strlit("gpt-5.6-sol");
    reveal_strlit("gpt-5.6-terra");
    reveal_strlit("gpt-5.6-luna");
    reveal_strlit("simple-task");
    reveal_strlit("Auto (Kiro Agent)");
    reveal_strlit("DeepSeek 3.2");
    reveal_strlit("MiniMax M2.1");
    reveal_strlit("GPT 5.6 Sol");
    reveal_strlit("GPT 5.6 Terra");
    reveal_strlit("GPT 5.6 Luna");
    reveal_strlit("Simple Task (background sub-tasks)");
    let slots = KIRO_MODEL_SLOTS@;
    assert(slots[0].0@.len() == 4);
    assert(slots[1].0@.len() == 12);
    assert(slots[2].0@.len() == 12);
    assert(slots[3].0@.len() == 11);
    assert(slots[4].0@.len() == 13);
    assert(slots[5].0@.len() == 12);
    assert(slots[6].0@.len() == 11);
    assert(slots[1].0@[0] != slots[2].0@[0]);
    assert(slots[1].0@[0] != slots[5].0@[0]);
    assert(slots[2].0@[0] != slots[5].0@[0]);
    assert(slots[3].0@[0] != slots[6].0@[0]);
}

/// The port and the colon before it are dropped, and nothing else.
pub proof fn law_only_the_port_is_dropped(
    name: Seq<char>,
    port: Seq<char>,
    bare: &str,
    with_port: &str,
    a: String,
    b: String,
)
    requires
        !name.contains(':'),
        bare@ == name,
        with_port@ == name + seq![':'] + port,
        call_ensures(strip_port, (bare,), a),
        call_ensures(strip_port, (with_port,), b),
    ensures
        a@ == name,
        b@ == name,
{
    lemma_up_to_colon(name, seq![]);
    assert(name + Seq::<char>::empty() =~= name);
    lemma_up_to_colon(name, seq![':'] + port);
    assert(name + (seq![':'] + port) =~= name + seq![':'] + port);
}

proof fn lemma_up_to_colon(name: Seq<char>, rest: Seq<char>)
    requires
        !name.contains(':'),
        rest.len() == 0 || rest[0] == ':',
    ensures
        bare_host(name + rest) == name,
    decreases name.len(),
{
    let host = name + rest;
    if name.len() == 0 {
        assert(host =~= rest);
        assert(bare_host(host) =~= name);
    } else {
        assert(name.contains(name[0]));
        assert(!name.skip(1).contains(':')) by {
            if name.skip(1).contains(':') {
                let i = choose|i: int| 0 <= i < name.skip(1).len() && name.skip(1)[i] == ':';
                assert(name[i + 1] == ':');
            }
        }
        lemma_up_to_colon(name.skip(1), rest);
        assert(host.skip(1) =~= name.skip(1) + rest);
        assert(seq![name[0]] + name.skip(1) =~= name);
    }
}

/// The tool is known by its name, and its traffic goes to three hosts.
pub proof fn law_the_tool_has_three_hosts(tool: Tool, hosts: Vec<&'static str>, name: &'static str)
    requires
        call_ensures(Tool::hosts, (tool,), hosts),
        call_ensures(Tool::name, (tool,), name),
    ensures
        strs(hosts@) == seq![
            "runtime.us-east-1.kiro.dev"@,
            "q.us-east-1.amazonaws.com"@,
            "codewhisperer.us-east-1.amazonaws.com"@,
        ],
        name@ == "kiro"@,
{
}

} // verus!
