//! How a node is, and what is said of it to whom.

use crate::json::{self, Json, JsonView};
use crate::text::opt_text;
use vstd::prelude::*;

verus! {

/// How the runtime is.
#[derive(Debug, PartialEq, Eq)]
pub struct RuntimeHealth {
    pub status: &'static str,
    pub reason: Option<String>,
    pub path_source: &'static str,
}

impl RuntimeHealth {
    /// How the runtime is: it is not well where there is a reason why.
    pub fn now(reason: Option<String>, path_source: &'static str) -> (r: Self)
        ensures
            r.status@ == (if reason is Some {
                "degraded"@
            } else {
                "ok"@
            }),
            r.reason == reason,
            r.path_source@ == path_source@,
    {
        RuntimeHealth {
            status: if reason.is_some() {
                "degraded"
            } else {
                "ok"
            },
            reason,
            path_source,
        }
    }

    /// How the runtime is, as it is told.
    pub open spec fn shown(self) -> JsonView {
        JsonView::Object(
            seq![
                ("path_source"@, JsonView::Str(self.path_source@)),
                (
                    "reason"@,
                    match opt_text(self.reason) {
                        Some(s) => JsonView::Str(s),
                        None => JsonView::Null,
                    },
                ),
                ("status"@, JsonView::Str(self.status@)),
            ],
        )
    }

    /// How the runtime is, as it is told.
    pub fn to_json(&self) -> (r: Json)
        ensures
            r@ == self.shown(),
    {
        let reason = match &self.reason {
            Some(s) => Json::Str(s.clone()),
            None => Json::Null,
        };
        let r = json::with(
            json::object2("path_source", json::string(self.path_source), "reason", reason),
            "status",
            json::string(self.status),
        );
        proof {
            assert(r@->Object_0 =~= self.shown()->Object_0);
        }
        r
    }
}

/// What is known of a node besides.
#[derive(Debug, PartialEq, Eq)]
pub struct Condition {
    pub runtime: RuntimeHealth,
    /// Whether the database answers.
    pub database: bool,
    /// Who keeps the certificate, where there is one.
    pub tls: Option<String>,
    /// What is known of other nodes, as it is told.
    pub peers: Json,
}

/// What is said of a node: that it is there to everyone, and all else to those who are known.
pub open spec fn told(known: bool, c: Condition) -> JsonView {
    if known {
        JsonView::Object(
            seq![
                ("database"@, JsonView::Bool(c.database)),
                ("peers"@, c.peers@),
                (
                    "push"@,
                    JsonView::Object(
                        seq![("apple"@, JsonView::Bool(false)), ("fcm"@, JsonView::Bool(false))],
                    ),
                ),
                ("runtime"@, c.runtime.shown()),
                ("status"@, JsonView::Str("ok"@)),
                (
                    "tls"@,
                    match opt_text(c.tls) {
                        Some(s) => JsonView::Str(s),
                        None => JsonView::Null,
                    },
                ),
            ],
        )
    } else {
        JsonView::Object(seq![("status"@, JsonView::Str("ok"@))])
    }
}

/// What is said of a node. `known` says whether the one who asks is.
pub fn health(known: bool, c: Condition) -> (r: Json)
    ensures
        r@ == told(known, c),
{
    if !known {
        return json::object1("status", json::string("ok"));
    }
    let tls = match &c.tls {
        Some(s) => Json::Str(s.clone()),
        None => Json::Null,
    };
    let runtime = c.runtime.to_json();
    let push = json::object2("apple", Json::Bool(false), "fcm", Json::Bool(false));
    let r = json::object2("database", Json::Bool(c.database), "peers", c.peers);
    let r = json::with(r, "push", push);
    let r = json::with(r, "runtime", runtime);
    let r = json::with(r, "status", json::string("ok"));
    let r = json::with(r, "tls", tls);
    proof {
        assert(r@->Object_0 =~= told(known, c)->Object_0);
    }
    r
}

/// Those who are not known learn the same of every node.
pub proof fn lemma_strangers_learn_nothing(a: Condition, b: Condition)
    ensures
        told(false, a) == told(false, b),
{
}

/// One who is known learns how things stand, as they do.
pub proof fn lemma_what_the_known_learn(c: Condition)
    ensures
        json::member(told(true, c), "database"@) == Some(JsonView::Bool(c.database)),
        json::member(told(true, c), "runtime"@) == Some(c.runtime.shown()),
        json::member(told(true, c), "peers"@) == Some(c.peers@),
        json::member(told(true, c), "status"@) == Some(JsonView::Str("ok"@)),
        json::member(told(false, c), "status"@) == Some(JsonView::Str("ok"@)),
        json::member(told(false, c), "database"@) is None,
        json::member(told(false, c), "peers"@) is None,
        json::member(told(false, c), "runtime"@) is None,
{
    reveal_strlit("database");
    assert("database"@.len() == 8 && "database"@[0] == 'd' && "database"@[1] == 'a');
    reveal_strlit("peers");
    assert("peers"@.len() == 5 && "peers"@[0] == 'p' && "peers"@[1] == 'e');
    reveal_strlit("push");
    assert("push"@.len() == 4 && "push"@[0] == 'p' && "push"@[1] == 'u');
    reveal_strlit("runtime");
    assert("runtime"@.len() == 7 && "runtime"@[0] == 'r' && "runtime"@[1] == 'u');
    reveal_strlit("status");
    assert("status"@.len() == 6 && "status"@[0] == 's' && "status"@[1] == 't');
    reveal_strlit("tls");
    assert("tls"@.len() == 3 && "tls"@[0] == 't' && "tls"@[1] == 'l');
    reveal_with_fuel(json::find, 7);
}

} // verus!
