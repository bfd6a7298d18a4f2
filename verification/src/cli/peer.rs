//! `agora peer token`: the tokens that other nodes show here.

use crate::auth::peer_token::{Issued, PeerToken};
use crate::order;
use crate::text::{self, strs, texts, widened};
use vstd::prelude::*;

verus! {

pub const USAGE: &'static str =
    "用法: agora peer token create <name> [--rotate] | agora peer token list | agora peer token revoke <name>";

/// What a command line asks for.
#[derive(Debug, PartialEq, Eq)]
pub enum PeerCommand {
    Create { name: String, rotate: bool },
    List,
    Revoke { name: String },
    /// It is none of these: the usage is shown.
    Usage,
}

/// The model of a [`PeerCommand`].
pub enum Asked {
    Create { name: Seq<char>, rotate: bool },
    List,
    Revoke { name: Seq<char> },
    Usage,
}

impl View for PeerCommand {
    type V = Asked;

    open spec fn view(&self) -> Asked {
        match self {
            PeerCommand::Create { name, rotate } => Asked::Create { name: name@, rotate: *rotate },
            PeerCommand::List => Asked::List,
            PeerCommand::Revoke { name } => Asked::Revoke { name: name@ },
            PeerCommand::Usage => Asked::Usage,
        }
    }
}

/// What a command line asks for.
pub open spec fn asked(args: Seq<Seq<char>>) -> Asked {
    if args.len() < 2 || args[0] != "token"@ {
        Asked::Usage
    } else if args.len() == 3 && args[1] == "create"@ {
        Asked::Create { name: args[2], rotate: false }
    } else if args.len() == 4 && args[1] == "create"@ && args[3] == "--rotate"@ {
        Asked::Create { name: args[2], rotate: true }
    } else if args.len() == 4 && args[1] == "create"@ && args[2] == "--rotate"@ {
        Asked::Create { name: args[3], rotate: true }
    } else if args.len() == 2 && args[1] == "list"@ {
        Asked::List
    } else if args.len() == 3 && args[1] == "revoke"@ {
        Asked::Revoke { name: args[2] }
    } else {
        Asked::Usage
    }
}

/// What a command line asks for.
pub fn parse(args: &[&str]) -> (r: PeerCommand)
    ensures
        r@ == asked(strs(args@)),
{
    proof {
        assert(strs(args@).len() == args@.len());
        assert forall|i: int| 0 <= i < args@.len() implies #[trigger] strs(args@)[i] == args@[i]@ by {
        }
    }
    if args.len() < 2 || !text::same(args[0], "token") {
        PeerCommand::Usage
    } else if args.len() == 3 && text::same(args[1], "create") {
        PeerCommand::Create { name: args[2].to_owned(), rotate: false }
    } else if args.len() == 4 && text::same(args[1], "create") && text::same(args[3], "--rotate") {
        PeerCommand::Create { name: args[2].to_owned(), rotate: true }
    } else if args.len() == 4 && text::same(args[1], "create") && text::same(args[2], "--rotate") {
        PeerCommand::Create { name: args[3].to_owned(), rotate: true }
    } else if args.len() == 2 && text::same(args[1], "list") {
        PeerCommand::List
    } else if args.len() == 3 && text::same(args[1], "revoke") {
        PeerCommand::Revoke { name: args[2].to_owned() }
    } else {
        PeerCommand::Usage
    }
}

/// What came of a command.
#[derive(Clone, Copy, Debug, PartialEq, Eq, Structural)]
pub enum Outcome {
    Done,
    Failed,
    /// The directory that holds everything cannot be used.
    HomeRefused,
}

/// Whether the database is opened for a command line: not for one that asks for nothing that there is.
pub fn opens_database(command: &PeerCommand) -> (r: bool)
    ensures
        r == !(command@ is Usage),
{
    match command {
        PeerCommand::Usage => false,
        _ => true,
    }
}

/// The exit code of a command.
pub open spec fn code_of(command: Asked, outcome: Outcome) -> i32 {
    if command is Usage {
        2
    } else {
        match outcome {
            Outcome::Done => 0,
            Outcome::Failed => 1,
            Outcome::HomeRefused => 2,
        }
    }
}

/// The exit code of a command: 2 where the command line asks for nothing that there is or the directory
/// cannot be used, 1 where it could not be done.
pub fn exit_code(command: &PeerCommand, outcome: Outcome) -> (r: i32)
    ensures
        r == code_of(command@, outcome),
{
    match command {
        PeerCommand::Usage => 2,
        _ => match outcome {
            Outcome::Done => 0,
            Outcome::Failed => 1,
            Outcome::HomeRefused => 2,
        },
    }
}

/// A command line that does not begin with `token`, or names none of its commands with what belongs to it,
/// ends with the exit code 2, whatever the state of the tables.
pub proof fn lemma_wrong_line_is_usage(args: Seq<Seq<char>>, outcome: Outcome)
    requires
        args.len() == 0 || args[0] != "token"@ || args.len() == 1 || !{
            ||| args[1] == "create"@ && args.len() == 3
            ||| args[1] == "create"@ && args.len() == 4 && (args[2] == "--rotate"@ || args[3]
                == "--rotate"@)
            ||| args[1] == "list"@ && args.len() == 2
            ||| args[1] == "revoke"@ && args.len() == 3
        },
    ensures
        code_of(asked(args), outcome) == 2,
{
}

/// What is said when a token was issued.
pub fn issued_hint(name: &str, rotate: bool) -> (out: String)
    ensures
        out@ == "已为 peer "@ + name@
            + " 签发机器 token（明文只显示这一次）：写到对方节点 peers[].token_file 指向的文件，chmod 600"@ + (if rotate {
            "；旧 token 已立即失效"@
        } else {
            ""@
        }),
{
    let mut out = text::cat3(
        "已为 peer ",
        name,
        " 签发机器 token（明文只显示这一次）：写到对方节点 peers[].token_file 指向的文件，chmod 600",
    );
    text::push_str(
        &mut out,
        if rotate {
            "；旧 token 已立即失效"
        } else {
            ""
        },
    );
    out
}

/// A line of the table: four columns, the first three of a fixed width.
pub open spec fn line(a: Seq<char>, b: Seq<char>, c: Seq<char>, d: Seq<char>) -> Seq<char> {
    widened(a, 16) + " "@ + widened(b, 20) + " "@ + widened(c, 20) + " "@ + d
}

fn line_of(a: &str, b: &str, c: &str, d: &str) -> (out: String)
    ensures
        out@ == line(a@, b@, c@, d@),
{
    let x = text::widen(a, 16);
    let y = text::widen(b, 20);
    let z = text::widen(c, 20);
    let mut out = text::cat3(x.as_str(), " ", y.as_str());
    text::push_str(&mut out, " ");
    text::push_str(&mut out, z.as_str());
    text::push_str(&mut out, " ");
    text::push_str(&mut out, d);
    out
}

/// The line of a token.
pub open spec fn token_line(t: Issued) -> Seq<char> {
    line(
        t.name,
        t.created_at,
        text::or_else(t.last_used_at, "-"@),
        if t.revoked_at is Some {
            "revoked"@
        } else {
            "active"@
        },
    )
}

/// The lines of the table.
pub open spec fn table(rows: Seq<Issued>) -> Seq<Seq<char>> {
    if rows.len() == 0 {
        seq!["没有签发过机器 token；`agora peer token create <name>` 为一个 peer 签发"@]
    } else {
        seq![line("NAME"@, "CREATED"@, "LAST_USED"@, "STATE"@)] + rows.map_values(
            |t: Issued| token_line(t),
        )
    }
}

/// The table of the tokens, line by line.
pub fn table_lines(rows: &[PeerToken]) -> (out: Vec<String>)
    ensures
        texts(out@) == table(order::models(rows@)),
{
    let mut out: Vec<String> = Vec::new();
    let ghost all = order::models(rows@);
    if rows.len() == 0 {
        out.push("没有签发过机器 token；`agora peer token create <name>` 为一个 peer 签发".to_owned());
        proof {
            assert(texts(out@) =~= table(all));
        }
        return out;
    }
    out.push(line_of("NAME", "CREATED", "LAST_USED", "STATE"));
    let mut i: usize = 0;
    let ghost head = seq![line("NAME"@, "CREATED"@, "LAST_USED"@, "STATE"@)];
    let ghost want = all.map_values(|t: Issued| token_line(t));
    proof {
        assert(texts(out@) =~= head + want.take(0));
    }
    while i < rows.len()
        invariant
            i <= rows@.len(),
            all == order::models(rows@),
            want == all.map_values(|t: Issued| token_line(t)),
            texts(out@) == head + want.take(i as int),
        decreases rows@.len() - i,
    {
        let t = &rows[i];
        let ghost was = texts(out@);
        let used = match &t.last_used_at {
            Some(s) => s.as_str(),
            None => "-",
        };
        let state = if t.revoked_at.is_some() {
            "revoked"
        } else {
            "active"
        };
        let l = line_of(t.name.as_str(), t.created_at.as_str(), used, state);
        out.push(l);
        proof {
            assert(all[i as int] == t@);
            assert(l@ == want[i as int]);
            assert(texts(out@) =~= was.push(l@));
            assert(want.take(i + 1) =~= want.take(i as int).push(want[i as int]));
            assert((head + want.take(i as int)).push(l@) =~= head + want.take(i + 1));
        }
        i += 1;
    }
    proof {
        assert(want.take(i as int) =~= want);
    }
    out
}

/// What is said when a token was revoked.
pub fn revoked_hint(name: &str) -> (out: String)
    ensures
        out@ == "已吊销 peer "@ + name@ + " 的机器 token"@,
{
    text::cat3("已吊销 peer ", name, " 的机器 token")
}

/// A token is asked for by its words, with the wish for another one before or behind the name; a command that
/// was understood ends with 0 exactly where it was done.
pub proof fn lemma_what_is_asked(name: Seq<char>, outcome: Outcome)
    ensures
        asked(seq!["token"@, "create"@, name]) == (Asked::Create { name, rotate: false }),
        name != "--rotate"@ ==> asked(seq!["token"@, "create"@, name, "--rotate"@]) == (Asked::Create {
            name,
            rotate: true,
        }),
        name != "--rotate"@ ==> asked(seq!["token"@, "create"@, "--rotate"@, name]) == (Asked::Create {
            name,
            rotate: true,
        }),
        asked(seq!["token"@, "list"@]) is List,
        asked(seq!["token"@, "revoke"@, name]) == (Asked::Revoke { name }),
        code_of(Asked::List, outcome) == 0 <==> outcome is Done,
        code_of(Asked::Revoke { name }, outcome) == 0 <==> outcome is Done,
        code_of(Asked::List, outcome) == 2 <==> outcome is HomeRefused,
{
    reveal_strlit("create");
    reveal_strlit("list");
    reveal_strlit("revoke");
    assert("create"@.len() == 6 && "create"@[0] == 'c');
    assert("list"@.len() == 4);
    assert("revoke"@.len() == 6 && "revoke"@[0] == 'r');
}

/// Of a token it is told whether it is still good.
pub proof fn lemma_a_token_is_told(t: Issued)
    ensures
        t.revoked_at is None ==> text::finishes(token_line(t), " active"@),
        t.revoked_at is Some ==> text::finishes(token_line(t), " revoked"@),
        text::begins(token_line(t), t.name),
{
    reveal_strlit(" ");
    reveal_strlit(" active");
    reveal_strlit("active");
    reveal_strlit(" revoked");
    reveal_strlit("revoked");
    assert(" "@ + "active"@ =~= " active"@);
    assert(" "@ + "revoked"@ =~= " revoked"@);
    let used = text::or_else(t.last_used_at, "-"@);
    let state = if t.revoked_at is Some {
        "revoked"@
    } else {
        "active"@
    };
    let p = widened(t.name, 16) + " "@ + widened(t.created_at, 20) + " "@ + widened(used, 20);
    assert(token_line(t) =~= p + (" "@ + state));
    text::lemma_begin_and_end(p, " "@ + state);
    text::lemma_widened(t.name, 16);
    let w = widened(t.name, 16);
    let l = token_line(t);
    assert(l.subrange(0, t.name.len() as int) =~= w.take(t.name.len() as int));
}

} // verus!
