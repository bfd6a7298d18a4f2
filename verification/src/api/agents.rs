//! The agents that a session can be started with.

use crate::adapter::claude::Claude;
use crate::adapter::registry::{adapters, all_of, Agent};
use crate::adapter::AgentIdentity;
use crate::config::AgentOverride;
use crate::json::{self, Json, JsonView};
use crate::text::{self, opt_text};
use vstd::prelude::*;

verus! {

/// What is configured for an agent, counted from `i`.
pub open spec fn configured(v: Seq<(String, AgentOverride)>, name: Seq<char>, i: int) -> Option<
    Seq<char>,
>
    decreases v.len() - i,
{
    if i < 0 || i >= v.len() {
        None
    } else if v[i].0@ == name {
        opt_text(v[i].1.command)
    } else {
        configured(v, name, i + 1)
    }
}

/// The command that is configured for an agent.
pub fn configured_command(agents: &[(String, AgentOverride)], name: &str) -> (r: Option<String>)
    ensures
        opt_text(r) == configured(agents@, name@, 0),
{
    let mut i: usize = 0;
    while i < agents.len()
        invariant
            i <= agents@.len(),
            configured(agents@, name@, 0) == configured(agents@, name@, i as int),
        decreases agents@.len() - i,
    {
        if text::same(agents[i].0.as_str(), name) {
            return text::copy_opt(&agents[i].1.command);
        }
        i += 1;
    }
    None
}

/// The command that starts an agent: the one that is configured for it unless that is blank, else its own.
pub open spec fn command_text(v: Seq<(String, AgentOverride)>, name: Seq<char>, own: Seq<char>) -> Seq<
    char,
> {
    match configured(v, name, 0) {
        Some(c) => if text::trimmed(c).len() > 0 {
            c
        } else {
            own
        },
        None => own,
    }
}

/// The command that starts an agent.
pub fn command_for(agents: &[(String, AgentOverride)], name: &str, fallback: &str) -> (out: String)
    ensures
        out@ == command_text(agents@, name@, fallback@),
{
    match configured_command(agents, name) {
        Some(c) => if text::is_empty(text::trim(c.as_str()).as_str()) {
            fallback.to_owned()
        } else {
            c
        },
        None => fallback.to_owned(),
    }
}

/// How an agent is listed: its name, the command that starts it, and whether it can be given a prompt with
/// it.
pub open spec fn agent_view(v: Seq<(String, AgentOverride)>, a: Agent) -> JsonView {
    JsonView::Object(
        seq![
            ("command"@, JsonView::Str(command_text(v, a.label(), a.command_text()))),
            ("name"@, JsonView::Str(a.label())),
            ("prompt"@, JsonView::Bool(a.beginning(""@) is Some)),
        ],
    )
}

/// The answer to the question what agents there are.
pub fn list(claude: Claude, agents: &[(String, AgentOverride)]) -> (r: Json)
    ensures
        r@ == JsonView::Object(
            seq![
                (
                    "agents"@,
                    JsonView::Array(all_of(claude).map_values(|a: Agent| agent_view(agents@, a))),
                ),
            ],
        ),
{
    let all: [Agent; 4] = adapters(claude);
    let ghost want = all_of(claude).map_values(|a: Agent| agent_view(agents@, a));
    let mut out: Vec<Json> = Vec::new();
    let mut i: usize = 0;
    proof {
        assert(json::views(out@) =~= want.take(0));
    }
    while i < 4
        invariant
            i <= 4,
            all@ == all_of(claude),
            want == all_of(claude).map_values(|a: Agent| agent_view(agents@, a)),
            want.len() == 4,
            json::views(out@) == want.take(i as int),
        decreases 4 - i,
    {
        let a = all[i];
        let command = command_for(agents, a.name(), a.default_command());
        let prompt = a.initial_prompt_args("").is_some();
        let row = json::with(
            json::object2("command", Json::Str(command), "name", json::string(a.name())),
            "prompt",
            Json::Bool(prompt),
        );
        proof {
            assert(row@->Object_0 =~= agent_view(agents@, a)->Object_0);
            assert(want[i as int] == agent_view(agents@, a));
        }
        let ghost was = out@;
        out.push(row);
        proof {
            assert(out@.drop_last() =~= was);
            assert(want.take(i + 1) =~= want.take(i as int).push(want[i as int]));
        }
        i += 1;
    }
    proof {
        assert(want.take(4) =~= want);
    }
    json::object1("agents", Json::Array(out))
}

/// An agent is run with the command that is configured under its name, unless that is white space alone, and
/// else with its own.
pub proof fn lemma_what_an_agent_is_run_with(
    v: Seq<(String, AgentOverride)>,
    name: Seq<char>,
    own: Seq<char>,
    k: int,
)
    requires
        0 <= k < v.len(),
        v[k].0@ == name,
        forall|j: int| 0 <= j < k ==> (#[trigger] v[j]).0@ != name,
    ensures
        command_text(v, name, own) == match opt_text(v[k].1.command) {
            Some(c) if exists|i: int| 0 <= i < c.len() && !text::white(#[trigger] c[i]) => c,
            _ => own,
        },
        command_text(v.take(k), name, own) == own,
{
    lemma_configured_at(v, name, 0, k);
    lemma_not_configured(v.take(k), name, 0);
    if let Some(c) = opt_text(v[k].1.command) {
        assert(text::trimmed(c).len() == 0 <==> forall|i: int|
            0 <= i < c.len() ==> text::white(#[trigger] c[i])) by {
            text::lemma_trimmed(c);
        }
    }
}

proof fn lemma_configured_at(v: Seq<(String, AgentOverride)>, name: Seq<char>, i: int, k: int)
    requires
        0 <= i <= k < v.len(),
        v[k].0@ == name,
        forall|j: int| i <= j < k ==> (#[trigger] v[j]).0@ != name,
    ensures
        configured(v, name, i) == opt_text(v[k].1.command),
    decreases k - i,
{
    if i < k {
        lemma_configured_at(v, name, i + 1, k);
    }
}

proof fn lemma_not_configured(v: Seq<(String, AgentOverride)>, name: Seq<char>, i: int)
    requires
        0 <= i <= v.len(),
        forall|j: int| i <= j < v.len() ==> (#[trigger] v[j]).0@ != name,
    ensures
        configured(v, name, i) is None,
    decreases v.len() - i,
{
    if i < v.len() {
        lemma_not_configured(v, name, i + 1);
    }
}

/// An agent is told by its name, with the command that it is run with, and whether it can be given a prompt.
pub proof fn lemma_what_is_told_of_an_agent(v: Seq<(String, AgentOverride)>, a: Agent)
    ensures
        json::member(agent_view(v, a), "name"@) == Some(JsonView::Str(a.label())),
        json::member(agent_view(v, a), "command"@) == Some(
            JsonView::Str(command_text(v, a.label(), a.command_text())),
        ),
        json::member(agent_view(v, a), "prompt"@) == Some(
            JsonView::Bool(a is Claude || a is Codex),
        ),
{
    reveal_strlit("command");
    reveal_strlit("name");
    reveal_strlit("prompt");
    assert("command"@.len() == 7);
    assert("name"@.len() == 4);
    assert("prompt"@.len() == 6);
    reveal_with_fuel(json::find, 4);
}

} // verus!
