//! How a session is started again: with the conversation that it reported, where the agent's version
//! is known to take one up, and as it was first started otherwise. A conversation is never guessed.

use crate::adapter::claude::Claude;
use crate::adapter::registry::{find, named, Agent};
use crate::adapter::{AgentIdentity, Probed, Version, VersionProbe};
use crate::entropy;
use crate::num;
use crate::quote::{self, alphanumeric, escaped, quote, quoted};
use crate::text::{self, joined, opt_str, texts, trimmed, words};
use vstd::prelude::*;

verus! {

/// How a session is started again.
#[derive(Debug, PartialEq, Eq)]
pub enum RestartPlan {
    /// With the conversation that it reported.
    Resume { command: String, agent_session_id: String },
    /// As it was first started, for the reason given.
    Original { command: String, reason: String },
}

/// The model of a [`RestartPlan`].
pub enum Restart {
    Resume { command: Seq<char>, agent_session_id: Seq<char> },
    Original { command: Seq<char>, reason: Seq<char> },
}

impl View for RestartPlan {
    type V = Restart;

    open spec fn view(&self) -> Restart {
        match self {
            RestartPlan::Resume { command, agent_session_id } => Restart::Resume {
                command: command@,
                agent_session_id: agent_session_id@,
            },
            RestartPlan::Original { command, reason } => Restart::Original {
                command: command@,
                reason: reason@,
            },
        }
    }
}

impl RestartPlan {
    /// The command to run.
    pub fn command(&self) -> (r: &str)
        ensures
            r@ == match self@ {
                Restart::Resume { command, .. } => command,
                Restart::Original { command, .. } => command,
            },
    {
        match self {
            RestartPlan::Resume { command, .. } => command.as_str(),
            RestartPlan::Original { command, .. } => command.as_str(),
        }
    }
}

/// The program of a command line: its first word.
pub open spec fn program_text(command: Seq<char>) -> Seq<char> {
    if words(command).len() > 0 {
        words(command)[0]
    } else {
        command
    }
}

/// The program of a command line.
pub fn program_of(command: &str) -> (r: String)
    ensures
        r@ == program_text(command@),
{
    let ws = text::split_whitespace(command);
    proof {
        assert(texts(ws@).len() == ws@.len());
    }
    if ws.len() > 0 {
        proof {
            assert(texts(ws@)[0] == ws@[0]@);
        }
        ws[0].clone()
    } else {
        command.to_owned()
    }
}

/// The marks that need no quotes in an argument.
pub open spec fn argument_marks() -> Seq<char> {
    "-_.:/"@
}

/// The keys of arguments that come as a key and a value each.
pub open spec fn keys_of(args: Seq<Seq<char>>) -> Seq<Seq<char>>
    decreases args.len(),
{
    if args.len() == 0 {
        Seq::empty()
    } else if args.len() == 1 {
        seq![args[0]]
    } else {
        seq![args[0]] + keys_of(args.skip(2))
    }
}

fn flags_of(args: &[String]) -> (out: Vec<String>)
    ensures
        texts(out@) == keys_of(texts(args@)),
{
    let ghost a = texts(args@);
    let mut out: Vec<String> = Vec::new();
    let mut i: usize = 0;
    let n: usize = args.len();
    proof {
        assert(a.skip(0) =~= a);
        assert(texts(out@) + keys_of(a) =~= keys_of(a));
    }
    while i < n
        invariant
            a == texts(args@),
            n == args@.len(),
            i <= n,
            keys_of(a) == texts(out@) + keys_of(a.skip(i as int)),
        decreases n - i,
    {
        let ghost was = texts(out@);
        let ghost rest = a.skip(i as int);
        out.push(args[i].clone());
        proof {
            assert(texts(out@) =~= was.push(a[i as int]));
            assert(rest[0] == a[i as int]);
        }
        if n - i < 2 {
            proof {
                assert(keys_of(rest) =~= seq![rest[0]]);
                assert(was + keys_of(rest) =~= texts(out@));
            }
            return out;
        }
        proof {
            assert(rest.skip(2) =~= a.skip(i + 2));
            assert(was + (seq![rest[0]] + keys_of(a.skip(i + 2))) =~= texts(out@) + keys_of(
                a.skip(i + 2),
            ));
        }
        i += 2;
    }
    proof {
        assert(a.skip(i as int) =~= Seq::<Seq<char>>::empty());
        assert(texts(out@) + keys_of(a.skip(i as int)) =~= texts(out@));
    }
    out
}

/// The words from `i` on without those in `keys` and the word behind each of them.
pub open spec fn without_keys(
    ws: Seq<Seq<char>>,
    keys: Seq<Seq<char>>,
    i: int,
) -> Seq<Seq<char>>
    decreases ws.len() + 1 - i,
{
    if i < 0 || i >= ws.len() {
        Seq::empty()
    } else if keys.contains(ws[i]) {
        without_keys(ws, keys, i + 2)
    } else {
        seq![ws[i]] + without_keys(ws, keys, i + 1)
    }
}

/// A command line with `args` at its end, and without what it says under their keys or under those of
/// `strip`.
pub open spec fn spliced(
    command: Seq<char>,
    args: Seq<Seq<char>>,
    strip: Seq<Seq<char>>,
) -> Seq<char> {
    joined(
        without_keys(words(command), keys_of(args) + strip, 0) + args.map_values(
            |a: Seq<char>| quoted(a, argument_marks()),
        ),
        seq![' '],
    )
}

/// A command line with `args` at its end, and without what it says under their keys or under those of
/// `also_strip`.
pub fn splice_args(command: &str, args: &[String], also_strip: &[String]) -> (out: String)
    ensures
        out@ == spliced(command@, texts(args@), texts(also_strip@)),
{
    let mut keys = flags_of(args);
    let ghost k = keys_of(texts(args@)) + texts(also_strip@);
    let mut i: usize = 0;
    proof {
        assert(texts(keys@) =~= keys_of(texts(args@)) + texts(also_strip@).take(0));
    }
    while i < also_strip.len()
        invariant
            i <= also_strip@.len(),
            texts(keys@) == keys_of(texts(args@)) + texts(also_strip@).take(i as int),
        decreases also_strip@.len() - i,
    {
        let ghost was = texts(keys@);
        keys.push(also_strip[i].clone());
        proof {
            assert(texts(keys@) =~= was.push(also_strip@[i as int]@));
            assert(texts(keys@) =~= keys_of(texts(args@)) + texts(also_strip@).take(i + 1));
        }
        i += 1;
    }
    proof {
        assert(texts(also_strip@).take(i as int) =~= texts(also_strip@));
    }
    let ws = text::split_whitespace(command);
    let ghost w = words(command@);
    let n: usize = ws.len();
    let mut out: Vec<String> = Vec::new();
    let mut j: usize = 0;
    proof {
        assert(texts(out@) + without_keys(w, k, 0) =~= without_keys(w, k, 0));
    }
    while j < n
        invariant
            n == ws@.len(),
            w == texts(ws@),
            k == texts(keys@),
            j <= n,
            without_keys(w, k, 0) == texts(out@) + without_keys(w, k, j as int),
        decreases n - j,
    {
        let ghost was = texts(out@);
        proof {
            assert(w[j as int] == ws@[j as int]@);
        }
        if text::holds(&keys, ws[j].as_str()) {
            if n - j < 2 {
                proof {
                    assert(without_keys(w, k, j + 2) =~= Seq::<Seq<char>>::empty());
                    assert(without_keys(w, k, n as int) =~= Seq::<Seq<char>>::empty());
                }
                j = n;
            } else {
                j += 2;
            }
        } else {
            out.push(ws[j].clone());
            proof {
                assert(texts(out@) =~= was.push(w[j as int]));
                assert(was + (seq![w[j as int]] + without_keys(w, k, j + 1)) =~= texts(out@)
                    + without_keys(w, k, j + 1));
            }
            j += 1;
        }
    }
    let ghost kept = without_keys(w, k, 0);
    let ghost all = texts(args@).map_values(|a: Seq<char>| quoted(a, argument_marks()));
    proof {
        assert(texts(out@) + without_keys(w, k, j as int) =~= texts(out@));
        assert(texts(out@) =~= kept + all.take(0));
    }
    let mut m: usize = 0;
    while m < args.len()
        invariant
            m <= args@.len(),
            all == texts(args@).map_values(|a: Seq<char>| quoted(a, argument_marks())),
            texts(out@) == kept + all.take(m as int),
        decreases args@.len() - m,
    {
        let ghost was = texts(out@);
        out.push(quote(args[m].as_str(), "-_.:/"));
        proof {
            assert(texts(out@) =~= was.push(all[m as int]));
            assert(texts(out@) =~= kept + all.take(m + 1));
        }
        m += 1;
    }
    proof {
        assert(all.take(m as int) =~= all);
        reveal_strlit(" ");
        assert(" "@ =~= seq![' ']);
    }
    text::join(&out, " ")
}

/// The arguments of an optional list.
pub open spec fn args_or_none(o: Option<Seq<Seq<char>>>) -> Seq<Seq<char>> {
    match o {
        Some(a) => a,
        None => Seq::empty(),
    }
}

/// Of a command that arguments are added to, nothing is left that names what they name: each word that is
/// kept is one of the command, and none of them is a key.
pub proof fn lemma_no_key_is_given_twice(ws: Seq<Seq<char>>, keys: Seq<Seq<char>>, i: int)
    requires
        0 <= i <= ws.len() + 1,
    ensures
        forall|k: int|
            0 <= k < without_keys(ws, keys, i).len() ==> ws.contains(
                #[trigger] without_keys(ws, keys, i)[k],
            ) && !keys.contains(without_keys(ws, keys, i)[k]),
    decreases ws.len() + 1 - i,
{
    let all = without_keys(ws, keys, i);
    if i < ws.len() {
        if keys.contains(ws[i]) {
            lemma_no_key_is_given_twice(ws, keys, i + 2);
            assert(all == without_keys(ws, keys, i + 2));
        } else {
            lemma_no_key_is_given_twice(ws, keys, i + 1);
            let rest = without_keys(ws, keys, i + 1);
            assert(all == seq![ws[i]] + rest);
            assert forall|k: int| 0 <= k < all.len() implies ws.contains(#[trigger] all[k])
                && !keys.contains(all[k]) by {
                if k > 0 {
                    assert(all[k] == rest[k - 1]);
                } else {
                    assert(all[k] == ws[i]);
                }
            }
        }
    } else {
        assert(all =~= Seq::<Seq<char>>::empty());
    }
}

/// Whether a text can be a key: it is made of letters, digits and hyphens.
pub open spec fn is_key(s: Seq<char>) -> bool {
    s.len() > 0 && forall|i: int| 0 <= i < s.len() ==> alphanumeric(#[trigger] s[i]) || s[i] == '-'
}

/// Whether arguments come as a key and a value each, the values being words and none of them one of `keys`.
pub open spec fn are_pairs(args: Seq<Seq<char>>, keys: Seq<Seq<char>>) -> bool {
    &&& args.len() % 2 == 0
    &&& forall|i: int|
        0 <= i < args.len() ==> if i % 2 == 0 {
            is_key(#[trigger] args[i])
        } else {
            text::is_word(args[i]) && !keys.contains(args[i])
        }
}

/// The arguments as they stand in a command line.
pub open spec fn all_quoted(args: Seq<Seq<char>>) -> Seq<Seq<char>> {
    args.map_values(|a: Seq<char>| quoted(a, argument_marks()))
}

proof fn lemma_key_among(args: Seq<Seq<char>>, i: int)
    requires
        0 <= i < args.len(),
        i % 2 == 0,
    ensures
        keys_of(args).contains(args[i]),
    decreases args.len(),
{
    let k = keys_of(args);
    if i == 0 {
        assert(k[0] == args[0]);
    } else {
        let rest = keys_of(args.skip(2));
        lemma_key_among(args.skip(2), i - 2);
        assert(args.skip(2)[i - 2] == args[i]);
        let j = rest.index_of(args[i]);
        assert(k[j + 1] == rest[j]);
    }
}

proof fn lemma_key_is_plain(k: Seq<char>)
    requires
        is_key(k),
    ensures
        quoted(k, argument_marks()) == k,
        text::is_word(k),
        k[0] != '\'',
{
    reveal_strlit("-_.:/");
    assert(argument_marks()[0] == '-');
    assert forall|i: int| 0 <= i < k.len() implies alphanumeric(#[trigger] k[i])
        || argument_marks().contains(k[i]) by {
    }
    assert forall|i: int| 0 <= i < k.len() implies !text::white(#[trigger] k[i]) by {
        assert(alphanumeric(k[i]) || k[i] == '-');
    }
    assert(alphanumeric(k[0]) || k[0] == '-');
}

proof fn lemma_escaped_is_dark(s: Seq<char>)
    requires
        forall|i: int| 0 <= i < s.len() ==> !text::white(#[trigger] s[i]),
    ensures
        forall|i: int|
            0 <= i < escaped(s).len() ==> !text::white(#[trigger] escaped(s)[i]),
    decreases s.len(),
{
    if s.len() > 0 {
        let t = s.drop_last();
        assert forall|i: int| 0 <= i < t.len() implies !text::white(#[trigger] t[i]) by {
            assert(t[i] == s[i]);
        }
        lemma_escaped_is_dark(t);
        assert(!text::white(s[s.len() - 1]));
        let e = escaped(t);
        assert forall|i: int| 0 <= i < escaped(s).len() implies !text::white(
            #[trigger] escaped(s)[i],
        ) by {
            if i < e.len() {
                assert(escaped(s)[i] == e[i]);
            }
        }
    }
}

proof fn lemma_quoted_is_word(s: Seq<char>)
    requires
        text::is_word(s),
    ensures
        text::is_word(quoted(s, argument_marks())),
        quoted(s, argument_marks()) == s || quoted(s, argument_marks())[0] == '\'',
{
    lemma_escaped_is_dark(s);
    let e = escaped(s);
    let q = seq!['\''] + e + seq!['\''];
    assert forall|i: int| 0 <= i < q.len() implies !text::white(#[trigger] q[i]) by {
        if 1 <= i <= e.len() {
            assert(q[i] == e[i - 1]);
        }
    }
}

proof fn lemma_pairs_in_line(args: Seq<Seq<char>>, keys: Seq<Seq<char>>, i: int)
    requires
        are_pairs(args, keys),
        forall|j: int| 0 <= j < keys.len() ==> is_key(#[trigger] keys[j]),
        0 <= i < args.len(),
    ensures
        text::is_word(all_quoted(args)[i]),
        i % 2 == 0 ==> all_quoted(args)[i] == args[i],
        i % 2 == 1 ==> !keys.contains(all_quoted(args)[i]),
{
    if i % 2 == 0 {
        assert(is_key(args[i]));
        lemma_key_is_plain(args[i]);
    } else {
        assert(text::is_word(args[i]) && !keys.contains(args[i]));
        lemma_quoted_is_word(args[i]);
        let q = all_quoted(args)[i];
        if keys.contains(q) {
            let j = keys.index_of(q);
            lemma_key_is_plain(keys[j]);
        }
    }
}

proof fn lemma_kept_stay(kept: Seq<Seq<char>>, tail: Seq<Seq<char>>, keys: Seq<Seq<char>>, i: int)
    requires
        0 <= i <= kept.len(),
        forall|k: int| 0 <= k < kept.len() ==> !keys.contains(#[trigger] kept[k]),
    ensures
        without_keys(kept + tail, keys, i) == kept.skip(i) + without_keys(
            kept + tail,
            keys,
            kept.len() as int,
        ),
    decreases kept.len() - i,
{
    let v = kept + tail;
    if i < kept.len() {
        assert(v[i] == kept[i]);
        lemma_kept_stay(kept, tail, keys, i + 1);
        assert(seq![kept[i]] + kept.skip(i + 1) =~= kept.skip(i));
        assert(seq![v[i]] + (kept.skip(i + 1) + without_keys(v, keys, kept.len() as int))
            =~= kept.skip(i) + without_keys(v, keys, kept.len() as int));
    } else {
        assert(kept.skip(i) =~= Seq::<Seq<char>>::empty());
        assert(kept.skip(i) + without_keys(v, keys, i) =~= without_keys(v, keys, i));
    }
}

proof fn lemma_pairs_go(v: Seq<Seq<char>>, keys: Seq<Seq<char>>, i: int)
    requires
        0 <= i <= v.len(),
        (v.len() - i) % 2 == 0,
        forall|k: int| i <= k < v.len() && (k - i) % 2 == 0 ==> keys.contains(#[trigger] v[k]),
    ensures
        without_keys(v, keys, i) == Seq::<Seq<char>>::empty(),
    decreases v.len() - i,
{
    if i < v.len() {
        assert(keys.contains(v[i]));
        assert forall|k: int| i + 2 <= k < v.len() && (k - (i + 2)) % 2 == 0 implies keys.contains(
            #[trigger] v[k],
        ) by {
            assert((k - i) % 2 == 0);
        }
        lemma_pairs_go(v, keys, i + 2);
    }
}

/// What splicing pairs of keys and values into a command line makes of it. Its words are those of the
/// command that are no key and stand behind none, in their order, and then the arguments. A key, of the
/// arguments or to be stripped, stands in it only where the arguments give it: each once, where they give
/// it once. And splicing the same in again changes nothing.
pub proof fn lemma_spliced(command: Seq<char>, args: Seq<Seq<char>>, strip: Seq<Seq<char>>)
    requires
        are_pairs(args, keys_of(args) + strip),
        forall|j: int|
            0 <= j < (keys_of(args) + strip).len() ==> is_key(#[trigger] (keys_of(args) + strip)[j]),
    ensures
        ({
            let keys = keys_of(args) + strip;
            let kept = without_keys(words(command), keys, 0);
            let line = spliced(command, args, strip);
            &&& words(line) == kept + all_quoted(args)
            &&& forall|m: int|
                0 <= m < words(line).len() && keys.contains(#[trigger] words(line)[m]) ==> {
                    &&& m >= kept.len()
                    &&& (m - kept.len()) % 2 == 0
                    &&& words(line)[m] == args[m - kept.len()]
                }
            &&& forall|i: int, m: int|
                0 <= i < args.len() && i % 2 == 0 && (forall|j: int|
                    0 <= j < args.len() && j % 2 == 0 && #[trigger] args[j] == args[i] ==> j == i)
                    && 0 <= m < words(line).len() ==> (#[trigger] words(line)[m]
                    == #[trigger] args[i] <==> m == kept.len() + i)
            &&& spliced(line, args, strip) == line
        }),
{
    let keys = keys_of(args) + strip;
    let kept = without_keys(words(command), keys, 0);
    let line = spliced(command, args, strip);
    let q = all_quoted(args);
    let v = kept + q;
    text::lemma_words_are_words(command);
    lemma_no_key_is_given_twice(words(command), keys, 0);
    assert forall|i: int| 0 <= i < args.len() implies text::is_word(#[trigger] q[i]) && (i % 2 == 0
        ==> q[i] == args[i] && keys.contains(q[i])) && (i % 2 == 1 ==> !keys.contains(q[i])) by {
        lemma_pairs_in_line(args, keys, i);
        if i % 2 == 0 {
            lemma_key_among(args, i);
            let j = keys_of(args).index_of(args[i]);
            assert(keys[j] == args[i]);
        }
    }
    assert forall|k: int| 0 <= k < v.len() implies text::is_word(#[trigger] v[k]) by {
        if k < kept.len() {
            assert(v[k] == kept[k]);
            let j = words(command).index_of(kept[k]);
            assert(text::is_word(words(command)[j]));
        } else {
            assert(v[k] == q[k - kept.len()]);
        }
    }
    assert(line == text::joined(v, seq![' ']));
    text::lemma_joined_words(v);
    assert forall|m: int| 0 <= m < v.len() && keys.contains(#[trigger] v[m]) implies m >= kept.len()
        && (m - kept.len()) % 2 == 0 && v[m] == args[m - kept.len()] by {
        if m < kept.len() {
            assert(v[m] == kept[m]);
        } else {
            assert(v[m] == q[m - kept.len()]);
        }
    }
    assert forall|i: int, m: int|
        0 <= i < args.len() && i % 2 == 0 && (forall|j: int|
            0 <= j < args.len() && j % 2 == 0 && #[trigger] args[j] == args[i] ==> j == i) && 0 <= m
            < v.len() implies (#[trigger] v[m] == #[trigger] args[i] <==> m == kept.len() + i) by {
        assert(q[i] == args[i] && keys.contains(q[i]));
        assert(v[kept.len() + i] == q[i]);
        if v[m] == args[i] {
            assert(keys.contains(v[m]));
            assert(args[m - kept.len()] == args[i]);
        }
    }
    lemma_kept_stay(kept, q, keys, 0);
    assert(kept.skip(0) =~= kept);
    assert forall|k: int| kept.len() <= k < v.len() && (k - kept.len()) % 2 == 0 implies keys.contains(
        #[trigger] v[k],
    ) by {
        assert(v[k] == q[k - kept.len()]);
    }
    lemma_pairs_go(v, keys, kept.len() as int);
    assert(kept + Seq::<Seq<char>>::empty() =~= kept);
}

/// The conversation that a session reported, if it is one.
pub open spec fn reported(id: Option<Seq<char>>) -> Option<Seq<char>> {
    match id {
        Some(s) => if trimmed(s).len() > 0 && trimmed(s) != "unknown"@ {
            Some(trimmed(s))
        } else {
            None
        },
        None => None,
    }
}

/// How a session is started again, `probed` being what its command says of its version.
pub open spec fn restart(
    claude: Claude,
    agent_type: Seq<char>,
    command: Seq<char>,
    id: Option<Seq<char>>,
    probed: Probed,
) -> Restart {
    match named(claude, agent_type, 0) {
        None => Restart::Original {
            command,
            reason: agent_type + " 没有 Adapter，不知道怎么 resume"@,
        },
        Some(agent) => match reported(id) {
            None => Restart::Original { command, reason: "agent 还没自报过对话 id"@ },
            Some(id) => match probed {
                Probed::Unparsable(why) => Restart::Original {
                    command,
                    reason: "版本不可解析，不猜 resume 参数："@ + why,
                },
                Probed::Missing => Restart::Original { command, reason: "命令不在 PATH 里"@ },
                Probed::Available(v) => match agent.resuming(v, id) {
                    Some(args) => Restart::Resume {
                        command: spliced(
                            command,
                            args,
                            keys_of(args_or_none(agent.pinning(v, id))),
                        ),
                        agent_session_id: id,
                    },
                    None => Restart::Original {
                        command,
                        reason: agent_type + " "@ + v.spelled() + " 不支持按对话 id resume"@,
                    },
                },
            },
        },
    }
}

fn original(command: &str, reason: String) -> (r: RestartPlan)
    ensures
        r@ == (Restart::Original { command: command@, reason: reason@ }),
{
    RestartPlan::Original { command: command.to_owned(), reason }
}

fn reported_id(id: Option<&str>) -> (r: Option<String>)
    ensures
        text::opt_text(r) == reported(opt_str(id)),
{
    match id {
        Some(s) => {
            let t = text::trim(s);
            if !text::is_empty(t.as_str()) && !text::same(t.as_str(), "unknown") {
                Some(t)
            } else {
                None
            }
        },
        None => None,
    }
}

/// How a session is started again, given what its command says of its version.
pub fn restart_with(
    claude: Claude,
    agent_type: &str,
    command: &str,
    agent_session_id: Option<&str>,
    probe: &VersionProbe,
) -> (r: RestartPlan)
    ensures
        r@ == restart(claude, agent_type@, command@, opt_str(agent_session_id), probe@),
{
    let agent = match find(claude, agent_type) {
        Some(a) => a,
        None => {
            return original(
                command,
                text::cat(agent_type, " 没有 Adapter，不知道怎么 resume"),
            );
        },
    };
    let id = match reported_id(agent_session_id) {
        Some(id) => id,
        None => {
            return original(command, "agent 还没自报过对话 id".to_owned());
        },
    };
    let version: Version = match probe {
        VersionProbe::Available(v) => *v,
        VersionProbe::Unparsable(why) => {
            return original(
                command,
                text::cat("版本不可解析，不猜 resume 参数：", why.as_str()),
            );
        },
        VersionProbe::Missing => {
            return original(command, "命令不在 PATH 里".to_owned());
        },
    };
    let pin = match agent.pin_args(version, id.as_str()) {
        Some(args) => args,
        None => Vec::new(),
    };
    proof {
        assert(texts(pin@) =~= args_or_none(agent.pinning(version, id@)));
    }
    let pin_keys = flags_of(&pin);
    match agent.resume_args(version, id.as_str()) {
        Some(args) => RestartPlan::Resume {
            command: splice_args(command, &args, &pin_keys),
            agent_session_id: id,
        },
        None => {
            let mut why = text::cat(agent_type, " ");
            text::push_str(&mut why, version.to_text().as_str());
            text::push_str(&mut why, " 不支持按对话 id resume");
            original(command, why)
        },
    }
}

/// How a session is started again. The command is asked for its version only where the answer counts.
pub fn plan_restart<F: FnOnce(Agent, &str) -> VersionProbe>(
    claude: Claude,
    agent_type: &str,
    command: &str,
    agent_session_id: Option<&str>,
    probe: F,
) -> (r: RestartPlan)
    requires
        forall|a: Agent, s: &str| call_requires(probe, (a, s)),
    ensures
        exists|p: VersionProbe|
            {
                &&& #[trigger] restart(claude, agent_type@, command@, opt_str(agent_session_id), p@) == r@
                &&& named(claude, agent_type@, 0) is Some && reported(opt_str(agent_session_id)) is Some
                    ==> exists|s: &str|
                    s@ == program_text(command@) && #[trigger] call_ensures(
                        probe,
                        (named(claude, agent_type@, 0)->0, s),
                        p,
                    )
            },
{
    let agent = match find(claude, agent_type) {
        Some(a) => a,
        None => {
            let p = VersionProbe::Missing;
            return restart_with(claude, agent_type, command, agent_session_id, &p);
        },
    };
    match reported_id(agent_session_id) {
        Some(_) => {},
        None => {
            let p = VersionProbe::Missing;
            return restart_with(claude, agent_type, command, agent_session_id, &p);
        },
    }
    let program = program_of(command);
    let p = probe(agent, program.as_str());
    restart_with(claude, agent_type, command, agent_session_id, &p)
}

/// The bytes with the marks of a random UUID in them: version 4 and its variant.
pub open spec fn marked(b: Seq<u8>) -> Seq<u8> {
    b.update(6, (b[6] & 0x0f) | 0x40).update(8, (b[8] & 0x3f) | 0x80)
}

/// The text of the random UUID made of 16 bytes.
pub open spec fn uuid_text(b: Seq<u8>) -> Seq<char> {
    let h = num::hex(marked(b));
    h.subrange(0, 8) + seq!['-'] + h.subrange(8, 12) + seq!['-'] + h.subrange(12, 16) + seq!['-']
        + h.subrange(16, 20) + seq!['-'] + h.subrange(20, 32)
}

/// Whether `c` is a hexadecimal digit in lower case.
pub open spec fn hex_char(c: char) -> bool {
    '0' <= c <= '9' || 'a' <= c <= 'f'
}

/// Whether `s` has the form of a random UUID.
pub open spec fn is_uuid(s: Seq<char>) -> bool {
    &&& s.len() == 36
    &&& s[8] == '-' && s[13] == '-' && s[18] == '-' && s[23] == '-'
    &&& s[14] == '4'
    &&& s[19] == '8' || s[19] == '9' || s[19] == 'a' || s[19] == 'b'
    &&& forall|i: int|
        0 <= i < 36 && i != 8 && i != 13 && i != 18 && i != 23 ==> hex_char(#[trigger] s[i])
}

proof fn lemma_hex_at(b: Seq<u8>, i: int)
    requires
        0 <= i < b.len(),
    ensures
        num::hex(b).len() == 2 * b.len(),
        num::hex(b)[2 * i] == num::hex_digit(b[i] as int / 16),
        num::hex(b)[2 * i + 1] == num::hex_digit(b[i] as int % 16),
    decreases b.len(),
{
    num::lemma_hex_len(b);
    num::lemma_hex_len(b.drop_last());
    if i < b.len() - 1 {
        lemma_hex_at(b.drop_last(), i);
    }
}

/// Every 16 bytes make a UUID of the right form.
pub proof fn lemma_uuid_form(b: Seq<u8>)
    requires
        b.len() == 16,
    ensures
        is_uuid(uuid_text(b)),
{
    let m = marked(b);
    let h = num::hex(m);
    lemma_hex_at(m, 0);
    assert forall|i: int| 0 <= i < 32 implies hex_char(#[trigger] h[i]) by {
        lemma_hex_at(m, i / 2);
    }
    let s = uuid_text(b);
    assert(h.len() == 32);
    lemma_hex_at(m, 6);
    lemma_hex_at(m, 8);
    let x = b[6];
    let y = b[8];
    assert(((x & 0x0f) | 0x40) / 16 == 4) by (bit_vector);
    assert(8 <= ((y & 0x3f) | 0x80) / 16 <= 11) by (bit_vector);
    assert(s[14] == h[12]);
    assert(s[19] == h[16]);
    assert forall|i: int|
        0 <= i < 36 && i != 8 && i != 13 && i != 18 && i != 23 implies hex_char(#[trigger] s[i]) by {
        let k = if i < 8 {
            i
        } else if i < 13 {
            i - 1
        } else if i < 18 {
            i - 2
        } else if i < 23 {
            i - 3
        } else {
            i - 4
        };
        assert(s[i] == h[k]);
    }
}

/// The text of the random UUID made of 16 bytes.
pub fn conversation_id_of(bytes: &[u8]) -> (out: String)
    requires
        bytes@.len() == 16,
    ensures
        out@ == uuid_text(bytes@),
        is_uuid(out@),
{
    let mut b: Vec<u8> = Vec::new();
    b.extend_from_slice(bytes);
    let x: u8 = (b[6] & 0x0f) | 0x40;
    b.set(6, x);
    let y: u8 = (b[8] & 0x3f) | 0x80;
    b.set(8, y);
    proof {
        assert(b@ =~= marked(bytes@));
        num::lemma_hex_len(b@);
        lemma_uuid_form(bytes@);
    }
    let hex = text::chars_of(num::to_hex(&b).as_str());
    let mut out = text::string_of_range(&hex, 0, 8);
    out.push('-');
    text::push_str(&mut out, text::string_of_range(&hex, 8, 12).as_str());
    out.push('-');
    text::push_str(&mut out, text::string_of_range(&hex, 12, 16).as_str());
    out.push('-');
    text::push_str(&mut out, text::string_of_range(&hex, 16, 20).as_str());
    out.push('-');
    text::push_str(&mut out, text::string_of_range(&hex, 20, 32).as_str());
    proof {
        assert(out@ =~= uuid_text(bytes@));
    }
    out
}

/// A new id for a conversation: a random UUID; nothing where there is no randomness to be had.
pub fn new_conversation_id() -> (r: Option<String>)
    ensures
        r matches Some(s) ==> is_uuid(s@),
{
    match entropy::random_bytes(16) {
        Some(b) => Some(conversation_id_of(&b)),
        None => None,
    }
}

/// The command that starts a session with the conversation `id`: nothing where the agent or its version
/// cannot be told one, or where the command names one itself.
pub open spec fn pinned(
    claude: Claude,
    agent_type: Seq<char>,
    command: Seq<char>,
    id: Seq<char>,
    probed: Probed,
) -> Option<Seq<char>> {
    match (named(claude, agent_type, 0), probed) {
        (Some(agent), Probed::Available(v)) => match agent.pinning(v, id) {
            Some(pin) => {
                let keys = keys_of(pin) + keys_of(args_or_none(agent.resuming(v, id)));
                if exists|i: int|
                    0 <= i < words(command).len() && keys.contains(#[trigger] words(command)[i]) {
                    None
                } else {
                    Some(spliced(command, pin, Seq::empty()))
                }
            },
            None => None,
        },
        _ => None,
    }
}

/// The command that starts a session with the conversation `id`, given what the command says of its
/// version.
pub fn pin_with(
    claude: Claude,
    agent_type: &str,
    command: &str,
    id: &str,
    probe: &VersionProbe,
) -> (r: Option<String>)
    ensures
        text::opt_text(r) == pinned(claude, agent_type@, command@, id@, probe@),
{
    let agent = match find(claude, agent_type) {
        Some(a) => a,
        None => {
            return None;
        },
    };
    let version: Version = match probe {
        VersionProbe::Available(v) => *v,
        _ => {
            return None;
        },
    };
    let pin = match agent.pin_args(version, id) {
        Some(args) => args,
        None => {
            return None;
        },
    };
    let resume = match agent.resume_args(version, id) {
        Some(args) => args,
        None => Vec::new(),
    };
    proof {
        assert(texts(resume@) =~= args_or_none(agent.resuming(version, id@)));
    }
    let a = flags_of(&pin);
    let b = flags_of(&resume);
    let ghost keys = texts(a@) + texts(b@);
    let ws = text::split_whitespace(command);
    let ghost w = words(command@);
    let mut i: usize = 0;
    while i < ws.len()
        invariant
            w == texts(ws@),
            keys == texts(a@) + texts(b@),
            i <= ws@.len(),
            forall|k: int| 0 <= k < i ==> !keys.contains(#[trigger] w[k]),
            named(claude, agent_type@, 0) == Some(agent),
            probe@ == Probed::Available(version),
            agent.pinning(version, id@) is Some,
            w == words(command@),
            keys == keys_of(agent.pinning(version, id@)->0) + keys_of(
                args_or_none(agent.resuming(version, id@)),
            ),
        decreases ws@.len() - i,
    {
        proof {
            assert(w[i as int] == ws@[i as int]@);
        }
        if text::holds(&a, ws[i].as_str()) || text::holds(&b, ws[i].as_str()) {
            proof {
                if texts(a@).contains(w[i as int]) {
                    let j = texts(a@).index_of(w[i as int]);
                    assert(keys[j] == w[i as int]);
                } else {
                    let j = texts(b@).index_of(w[i as int]);
                    assert(keys[texts(a@).len() + j] == w[i as int]);
                }
                assert(keys.contains(w[i as int]));
            }
            return None;
        }
        proof {
            if keys.contains(w[i as int]) {
                let j = keys.index_of(w[i as int]);
                if j < texts(a@).len() {
                    assert(texts(a@)[j] == w[i as int]);
                } else {
                    assert(texts(b@)[j - texts(a@).len()] == w[i as int]);
                }
            }
        }
        i += 1;
    }
    let none: Vec<String> = Vec::new();
    proof {
        assert(texts(none@) =~= Seq::<Seq<char>>::empty());
    }
    Some(splice_args(command, &pin, &none))
}

/// The command that starts a session with the conversation `fresh`, and that conversation: nothing where
/// there is none to be had or the session cannot be started with it.
pub open spec fn planned(
    claude: Claude,
    agent_type: Seq<char>,
    command: Seq<char>,
    probed: Probed,
    fresh: Option<Seq<char>>,
) -> Option<(Seq<char>, Seq<char>)> {
    match fresh {
        Some(id) => match pinned(claude, agent_type, command, id, probed) {
            Some(line) => Some((line, id)),
            None => None,
        },
        None => None,
    }
}

/// The command that starts a session with a new conversation, and that conversation's id: nothing where
/// the agent or its version cannot be told one, where the command names one itself, or where there is no
/// randomness to be had. The command is asked for its version wherever the agent is known. The id is a
/// UUID, and the line is the one that [`pin_with`] gives for it and for the answer.
pub fn plan_pin<F: FnOnce(Agent, &str) -> VersionProbe>(
    claude: Claude,
    agent_type: &str,
    command: &str,
    probe: F,
) -> (r: Option<(String, String)>)
    requires
        forall|a: Agent, s: &str| call_requires(probe, (a, s)),
    ensures
        match named(claude, agent_type@, 0) {
            None => r is None,
            Some(agent) => exists|p: VersionProbe, s: &str, fresh: Option<Seq<char>>|
                {
                    &&& s@ == program_text(command@)
                    &&& #[trigger] call_ensures(probe, (agent, s), p)
                    &&& (fresh matches Some(id) ==> is_uuid(id))
                    &&& #[trigger] planned(claude, agent_type@, command@, p@, fresh) == (match r {
                        Some((line, id)) => Some((line@, id@)),
                        None => None,
                    })
                },
        },
{
    let agent = match find(claude, agent_type) {
        Some(a) => a,
        None => {
            return None;
        },
    };
    let program = program_of(command);
    let p = probe(agent, program.as_str());
    let fresh = new_conversation_id();
    let ghost plan = planned(claude, agent_type@, command@, p@, text::opt_text(fresh));
    match fresh {
        Some(id) => match pin_with(claude, agent_type, command, id.as_str(), &p) {
            Some(line) => Some((line, id)),
            None => None,
        },
        None => None,
    }
}

proof fn lemma_key_words()
    ensures
        is_key("--resume"@),
        is_key("--session-id"@),
        is_key("resume"@),
        "--resume"@ != "--session-id"@,
        "--resume"@ != "resume"@,
        "--session-id"@ != "resume"@,
        !argument_marks().contains('\''),
        !argument_marks().contains('\\'),
{
    reveal_strlit("--resume");
    reveal_strlit("--session-id");
    reveal_strlit("resume");
    reveal_strlit("-_.:/");
    assert("--resume"@.len() == 8);
    assert("--session-id"@.len() == 12);
    assert("resume"@.len() == 6);
    assert forall|i: int| 0 <= i < 8 implies alphanumeric(#[trigger] "--resume"@[i]) || "--resume"@[i]
        == '-' by {
    }
    assert forall|i: int| 0 <= i < 12 implies alphanumeric(#[trigger] "--session-id"@[i])
        || "--session-id"@[i] == '-' by {
    }
    assert forall|i: int| 0 <= i < 6 implies alphanumeric(#[trigger] "resume"@[i]) || "resume"@[i]
        == '-' by {
    }
    assert forall|i: int| 0 <= i < argument_marks().len() implies argument_marks()[i] != '\''
        && argument_marks()[i] != '\\' by {
    }
}

/// Whether a text can stand for a conversation in a command line: it is one word and none of the keys that
/// a conversation is given under.
pub open spec fn is_id(id: Seq<char>) -> bool {
    text::is_word(id) && id != "--resume"@ && id != "--session-id"@ && id != "resume"@
}

proof fn lemma_two(key: Seq<char>, id: Seq<char>)
    ensures
        keys_of(seq![key, id]) == seq![key],
        all_quoted(seq![key, id]) == seq![
            quoted(key, argument_marks()),
            quoted(id, argument_marks()),
        ],
{
    let a = seq![key, id];
    assert(a.skip(2) =~= Seq::<Seq<char>>::empty());
    assert(keys_of(a.skip(2)) =~= Seq::<Seq<char>>::empty());
    assert(keys_of(a) =~= seq![key]);
    assert(all_quoted(a) =~= seq![quoted(key, argument_marks()), quoted(id, argument_marks())]);
}

proof fn lemma_splice_pair(
    command: Seq<char>,
    key: Seq<char>,
    id: Seq<char>,
    strip: Seq<Seq<char>>,
)
    requires
        is_id(id),
        is_key(key),
        !strip.contains(id) && id != key,
        forall|j: int| 0 <= j < strip.len() ==> is_key(#[trigger] strip[j]),
    ensures
        ({
            let w = words(spliced(command, seq![key, id], strip));
            let kept = without_keys(words(command), seq![key] + strip, 0);
            &&& w == kept + seq![key, quoted(id, argument_marks())]
            &&& forall|m: int|
                0 <= m < kept.len() ==> words(command).contains(#[trigger] kept[m]) && kept[m] != key
                    && !strip.contains(kept[m])
        }),
{
    let args = seq![key, id];
    let keys = seq![key] + strip;
    lemma_two(key, id);
    lemma_key_is_plain(key);
    assert forall|j: int| 0 <= j < keys.len() implies is_key(#[trigger] keys[j]) by {
        if j > 0 {
            assert(keys[j] == strip[j - 1]);
        }
    }
    assert(!keys.contains(id)) by {
        if keys.contains(id) {
            let j = keys.index_of(id);
            if j > 0 {
                assert(strip[j - 1] == id);
            }
        }
    }
    assert(are_pairs(args, keys)) by {
        assert(args[0] == key && args[1] == id);
    }
    lemma_spliced(command, args, strip);
    lemma_no_key_is_given_twice(words(command), keys, 0);
    let kept = without_keys(words(command), keys, 0);
    assert forall|m: int| 0 <= m < kept.len() implies words(command).contains(#[trigger] kept[m])
        && kept[m] != key && !strip.contains(kept[m]) by {
        assert(keys[0] == key);
        if strip.contains(kept[m]) {
            let j = strip.index_of(kept[m]);
            assert(keys[j + 1] == kept[m]);
        }
    }
}

/// A session that is started again into its conversation: the conversation is the one that was reported,
/// without the white space round it. The last two words of the command are the key and what a shell reads
/// back as the conversation; the key stands nowhere else in it, and neither does the key that the
/// conversation may have been given under when the session was first started. All other words are words of
/// the command. Where it is not taken up the command is as it was.
pub proof fn lemma_restarted_into_its_conversation(
    claude: Claude,
    agent_type: Seq<char>,
    command: Seq<char>,
    id: Option<Seq<char>>,
    probed: Probed,
)
    ensures
        match restart(claude, agent_type, command, id, probed) {
            Restart::Resume { command: line, agent_session_id: x } => {
                &&& id is Some && x == trimmed(id->0) && x.len() > 0 && x != "unknown"@
                &&& is_id(x) ==> {
                    let w = words(line);
                    let n = w.len() - 2;
                    &&& n >= 0
                    &&& quote::word_value(w[n + 1], false) == Some(x)
                    &&& forall|m: int| 0 <= m < n ==> words(command).contains(#[trigger] w[m])
                    &&& match named(claude, agent_type, 0) {
                        Some(Agent::Claude(_)) => w[n] == "--resume"@ && forall|m: int|
                            0 <= m < w.len() && m != n ==> (#[trigger] w[m]) != "--resume"@ && w[m]
                                != "--session-id"@,
                        Some(Agent::Codex) => w[n] == "resume"@ && forall|m: int|
                            0 <= m < w.len() && m != n ==> (#[trigger] w[m]) != "resume"@,
                        _ => false,
                    }
                }
            },
            Restart::Original { command: line, .. } => line == command,
        },
{
    lemma_key_words();
    match restart(claude, agent_type, command, id, probed) {
        Restart::Resume { command: line, agent_session_id: x } => {
            let agent = named(claude, agent_type, 0)->0;
            let v = probed->Available_0;
            if is_id(x) {
                quote::lemma_quoted_reads_back(x, argument_marks());
                lemma_quoted_is_word(x);
                match agent {
                    Agent::Claude(c) => {
                        lemma_two("--session-id"@, x);
                        let strip = seq!["--session-id"@];
                        assert(!strip.contains(x));
                        lemma_splice_pair(command, "--resume"@, x, strip);
                        let kept = without_keys(words(command), seq!["--resume"@] + strip, 0);
                        assert(strip[0] == "--session-id"@);
                        let w = words(line);
                        assert forall|m: int|
                            0 <= m < w.len() && m != w.len() - 2 implies (#[trigger] w[m]) != "--resume"@
                            && w[m] != "--session-id"@ by {
                            if m < kept.len() {
                                assert(w[m] == kept[m]);
                                assert(strip.contains("--session-id"@));
                            } else {
                                lemma_not_a_key(x);
                            }
                        }
                        assert forall|m: int| 0 <= m < w.len() - 2 implies words(command).contains(
                            #[trigger] w[m],
                        ) by {
                            assert(w[m] == kept[m]);
                        }
                    },
                    Agent::Codex => {
                        let strip = Seq::<Seq<char>>::empty();
                        assert(keys_of(Seq::<Seq<char>>::empty()) =~= strip);
                        lemma_splice_pair(command, "resume"@, x, strip);
                        let kept = without_keys(words(command), seq!["resume"@] + strip, 0);
                        let w = words(line);
                        assert forall|m: int|
                            0 <= m < w.len() && m != w.len() - 2 implies (#[trigger] w[m]) != "resume"@ by {
                            if m < kept.len() {
                                assert(w[m] == kept[m]);
                            } else {
                                lemma_not_a_key(x);
                            }
                        }
                        assert forall|m: int| 0 <= m < w.len() - 2 implies words(command).contains(
                            #[trigger] w[m],
                        ) by {
                            assert(w[m] == kept[m]);
                        }
                    },
                    _ => {},
                }
            }
        },
        _ => {},
    }
}

proof fn lemma_not_a_key(id: Seq<char>)
    requires
        is_id(id),
    ensures
        quoted(id, argument_marks()) != "--resume"@,
        quoted(id, argument_marks()) != "--session-id"@,
        quoted(id, argument_marks()) != "resume"@,
{
    lemma_key_words();
    lemma_quoted_is_word(id);
    lemma_key_is_plain("--resume"@);
    lemma_key_is_plain("--session-id"@);
    lemma_key_is_plain("resume"@);
}

/// A session is started again into its conversation exactly where the agent is known, a conversation was
/// reported, and the version is known to take one up.
pub proof fn lemma_when_a_conversation_is_taken_up(
    claude: Claude,
    agent_type: Seq<char>,
    command: Seq<char>,
    id: Option<Seq<char>>,
    probed: Probed,
)
    ensures
        restart(claude, agent_type, command, id, probed) is Resume <==> {
            &&& id is Some && trimmed(id->0).len() > 0 && trimmed(id->0) != "unknown"@
            &&& probed matches Probed::Available(v) && match named(claude, agent_type, 0) {
                Some(Agent::Claude(_)) => v.0 > 2 || (v.0 == 2 && (v.1 > 1 || (v.1 == 1 && v.2 >= 258))),
                Some(Agent::Codex) => v.0 > 0 || v.1 > 152 || (v.1 == 152 && v.2 >= 1),
                _ => false,
            }
        },
{
}

proof fn lemma_nothing_to_strip(ws: Seq<Seq<char>>, keys: Seq<Seq<char>>)
    requires
        forall|m: int| 0 <= m < ws.len() ==> !keys.contains(#[trigger] ws[m]),
    ensures
        without_keys(ws, keys, 0) == ws,
{
    let none = Seq::<Seq<char>>::empty();
    lemma_kept_stay(ws, none, keys, 0);
    assert(ws + none =~= ws);
    assert(ws.skip(0) =~= ws);
    assert(without_keys(ws, keys, ws.len() as int) =~= none);
    assert(ws + none =~= ws);
}

/// A session is started with a conversation of its own only where its command names none: then the command
/// gets the key and the id at its end, and its own words stay as they are.
pub proof fn lemma_started_with_its_conversation(
    claude: Claude,
    agent_type: Seq<char>,
    command: Seq<char>,
    x: Seq<char>,
    probed: Probed,
)
    requires
        is_id(x),
    ensures
        match pinned(claude, agent_type, command, x, probed) {
            Some(line) => {
                &&& named(claude, agent_type, 0) matches Some(Agent::Claude(_))
                &&& forall|m: int|
                    0 <= m < words(command).len() ==> (#[trigger] words(command)[m]) != "--resume"@
                        && words(command)[m] != "--session-id"@
                &&& words(line) == words(command) + seq![
                    "--session-id"@,
                    quoted(x, argument_marks()),
                ]
            },
            None => !(named(claude, agent_type, 0) matches Some(Agent::Claude(_))) || !(
            probed is Available) || !probed->Available_0.reaches(Version(2, 1, 258)) || exists|m: int|
                0 <= m < words(command).len() && ((#[trigger] words(command)[m]) == "--resume"@
                    || words(command)[m] == "--session-id"@),
        },
{
    lemma_key_words();
    lemma_two("--session-id"@, x);
    lemma_two("--resume"@, x);
    match (named(claude, agent_type, 0), probed) {
        (Some(Agent::Claude(c)), Probed::Available(v)) => {
            if v.reaches(Version(2, 1, 258)) {
                let keys = keys_of(seq!["--session-id"@, x]) + keys_of(seq!["--resume"@, x]);
                assert(keys =~= seq!["--session-id"@, "--resume"@]);
                assert(keys[0] == "--session-id"@ && keys[1] == "--resume"@);
                if pinned(claude, agent_type, command, x, probed) is Some {
                    assert forall|m: int| 0 <= m < words(command).len() implies (
                    #[trigger] words(command)[m]) != "--resume"@ && words(command)[m]
                        != "--session-id"@ by {
                        assert(!keys.contains(words(command)[m]));
                    }
                    let none = Seq::<Seq<char>>::empty();
                    lemma_splice_pair(command, "--session-id"@, x, none);
                    assert forall|m: int| 0 <= m < words(command).len() implies !(seq![
                        "--session-id"@,
                    ] + none).contains(#[trigger] words(command)[m]) by {
                    }
                    lemma_nothing_to_strip(words(command), seq!["--session-id"@] + none);
                } else {
                    let m = choose|i: int|
                        0 <= i < words(command).len() && keys.contains(#[trigger] words(command)[i]);
                    assert(words(command)[m] == "--resume"@ || words(command)[m] == "--session-id"@);
                }
            }
        },
        _ => {},
    }
}

proof fn lemma_resume_of_claude(
    claude: Claude,
    agent_type: Seq<char>,
    command: Seq<char>,
    x: Seq<char>,
    v: Version,
)
    requires
        named(claude, agent_type, 0) matches Some(Agent::Claude(_)),
        text::is_word(x),
        x != "unknown"@,
        v.reaches(Version(2, 1, 258)),
    ensures
        restart(claude, agent_type, command, Some(x), Probed::Available(v)) == (Restart::Resume {
            command: spliced(command, seq!["--resume"@, x], seq!["--session-id"@]),
            agent_session_id: x,
        }),
{
    assert(trimmed(x) == x) by {
        text::lemma_trimmed(x);
    }
    lemma_two("--session-id"@, x);
    let agent = named(claude, agent_type, 0)->0;
    assert(reported(Some(x)) == Some(x));
    assert(agent.resuming(v, x) == Some(seq!["--resume"@, x]));
    assert(agent.pinning(v, x) == Some(seq!["--session-id"@, x]));
    assert(keys_of(args_or_none(agent.pinning(v, x))) == seq!["--session-id"@]);
}

proof fn lemma_pair_goes(
    ws: Seq<Seq<char>>,
    keys: Seq<Seq<char>>,
    key: Seq<char>,
    value: Seq<char>,
)
    requires
        keys.contains(key),
        forall|m: int| 0 <= m < ws.len() ==> !keys.contains(#[trigger] ws[m]),
    ensures
        without_keys(ws + seq![key, value], keys, 0) == ws,
{
    let tail = seq![key, value];
    let none = Seq::<Seq<char>>::empty();
    let v = ws + tail;
    lemma_kept_stay(ws, tail, keys, 0);
    assert(ws.skip(0) =~= ws);
    assert forall|k: int| ws.len() <= k < v.len() && (k - ws.len()) % 2 == 0 implies keys.contains(
        #[trigger] v[k],
    ) by {
        assert(v[k] == tail[k - ws.len()]);
    }
    lemma_pairs_go(v, keys, ws.len() as int);
    assert(ws + none =~= ws);
}

proof fn lemma_resumed_words(ws: Seq<Seq<char>>, first: Seq<char>, x: Seq<char>)
    requires
        is_id(x),
        forall|m: int|
            0 <= m < ws.len() ==> (#[trigger] ws[m]) != "--resume"@ && ws[m] != "--session-id"@,
        words(first) == ws + seq!["--session-id"@, quoted(x, argument_marks())],
    ensures
        words(spliced(first, seq!["--resume"@, x], seq!["--session-id"@])) == ws + seq![
            "--resume"@,
            quoted(x, argument_marks()),
        ],
{
    lemma_key_words();
    let strip = seq!["--session-id"@];
    let keys = seq!["--resume"@] + strip;
    assert(keys[0] == "--resume"@ && keys[1] == "--session-id"@);
    assert(!strip.contains(x));
    lemma_splice_pair(first, "--resume"@, x, strip);
    assert forall|m: int| 0 <= m < ws.len() implies !keys.contains(#[trigger] ws[m]) by {
    }
    lemma_pair_goes(ws, keys, "--session-id"@, quoted(x, argument_marks()));
}

/// A session that was started with a conversation and reported it is started again into it: with its first
/// command and the resume arguments, and without those that it was first given.
pub proof fn lemma_started_and_taken_up_again(
    claude: Claude,
    agent_type: Seq<char>,
    command: Seq<char>,
    x: Seq<char>,
    probed: Probed,
)
    requires
        is_id(x),
        x != "unknown"@,
        pinned(claude, agent_type, command, x, probed) is Some,
    ensures
        restart(
            claude,
            agent_type,
            pinned(claude, agent_type, command, x, probed)->0,
            Some(x),
            probed,
        ) matches Restart::Resume { command: line, agent_session_id } && agent_session_id == x && words(
            line,
        ) == words(command) + seq!["--resume"@, quoted(x, argument_marks())],
{
    let first = pinned(claude, agent_type, command, x, probed)->0;
    lemma_started_with_its_conversation(claude, agent_type, command, x, probed);
    lemma_resume_of_claude(claude, agent_type, first, x, probed->Available_0);
    lemma_resumed_words(words(command), first, x);
}

/// The program of a command is its first word.
pub proof fn lemma_the_program_of_a_command(program: Seq<char>, rest: Seq<char>)
    requires
        text::is_word(program),
    ensures
        program_text(program + seq![' '] + rest) == program,
        program_text(program) == program,
        program_text(Seq::empty()) == Seq::<char>::empty(),
{
    text::lemma_words_joined(program, rest);
    text::lemma_word(program);
    assert((seq![program] + words(rest))[0] == program);
    assert(seq![program][0] == program);
    let none = Seq::<char>::empty();
    assert(words(none).len() == 0);
}

} // verus!
