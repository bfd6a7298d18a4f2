//! `agora hooks install` and `agora hooks uninstall`: entering hooks in an agent's own configuration and
//! taking them out again.
//!
//! What is entered is marked by the command it runs, so that it can be told from what others entered:
//! installing first takes out its own entries, then adds them, and so may be repeated; uninstalling takes
//! out its own entries and nothing else.

use crate::hook::holds::lemma_push_has;
use crate::adapter::claude::Claude;
use crate::adapter::registry::{for_host, hosts, host_named, host_names, Host};
use crate::adapter::{entries, AgentHooks, Entry, HookInstall};
use crate::codec::{self, normal, pretty_text, read_text, refusal};
use crate::hook::diff::{diff, steps, steps_text};
use crate::json::{
    self, equal, find, find_member, is_equal, member, member_str, member_views, set_member, views,
    with_member, Json, JsonView, Numeral,
};
use crate::hook::inbox::is_absolute;
use crate::paths::{is_same_path, join_path, joined_path, same_path};
use crate::quote::{quote, quoted};
use crate::text::{self, joined, lines, occurs, opt_str, opt_text, same, strs, trimmed};
use vstd::prelude::*;
use vstd::utf8::encode_utf8;

verus! {

/// Why hooks could not be installed.
#[derive(Debug, PartialEq, Eq)]
pub enum InstallError {
    Usage(String),
    NoSpec { agent: String },
    Io { path: String, source: String },
    NotAnObject { path: String, reason: String },
}

/// The model of an [`InstallError`].
pub enum Failure {
    Usage(Seq<char>),
    NoSpec { agent: Seq<char> },
    Io { path: Seq<char>, source: Seq<char> },
    NotAnObject { path: Seq<char>, reason: Seq<char> },
}

impl View for InstallError {
    type V = Failure;

    open spec fn view(&self) -> Failure {
        match self {
            InstallError::Usage(s) => Failure::Usage(s@),
            InstallError::NoSpec { agent } => Failure::NoSpec { agent: agent@ },
            InstallError::Io { path, source } => Failure::Io { path: path@, source: source@ },
            InstallError::NotAnObject { path, reason } => Failure::NotAnObject {
                path: path@,
                reason: reason@,
            },
        }
    }
}

impl InstallError {
    /// What to tell the user.
    pub fn message(&self) -> (out: String)
        ensures
            out@ == match self@ {
                Failure::Usage(s) => s,
                Failure::NoSpec { agent } => agent + " 没有 hook 安装规格"@,
                Failure::Io { path, source } => path + ": "@ + source,
                Failure::NotAnObject { path, reason } => path + " 不是 JSON 对象: "@ + reason,
            },
    {
        match self {
            InstallError::Usage(s) => s.clone(),
            InstallError::NoSpec { agent } => text::cat(agent.as_str(), " 没有 hook 安装规格"),
            InstallError::Io { path, source } => text::cat3(path.as_str(), ": ", source.as_str()),
            InstallError::NotAnObject { path, reason } => text::cat3(
                path.as_str(),
                " 不是 JSON 对象: ",
                reason.as_str(),
            ),
        }
    }

    /// The exit status that the failure asks for.
    pub fn exit_code(&self) -> (r: i32)
        ensures
            r == (if self@ is Usage {
                2
            } else {
                1int
            }),
    {
        match self {
            InstallError::Usage(_) => 2,
            _ => 1,
        }
    }
}

/// The path that hooks run: it does not change when the program does.
pub open spec fn bin_text(home: Seq<char>) -> Seq<char> {
    joined_path(joined_path(home, "bin"@), "agora"@)
}

/// The path that hooks run.
pub fn bin_path(agora_home: &str) -> (out: String)
    ensures
        out@ == bin_text(agora_home@),
{
    join_path(join_path(agora_home, "bin").as_str(), "agora")
}

/// Where the target of the link at [`bin_path`] leads, seen from the link's directory.
pub open spec fn resolved_target(home: Seq<char>, target: Seq<char>) -> Seq<char> {
    joined_path(joined_path(home, "bin"@), target)
}

/// Where the target of the link at [`bin_path`] leads, seen from the link's directory.
pub fn resolve_link_target(agora_home: &str, target: &str) -> (out: String)
    ensures
        out@ == resolved_target(agora_home@, target@),
{
    join_path(join_path(agora_home, "bin").as_str(), target)
}

/// A link that leads nowhere: the link and its target. A link that is not there, or that leads to
/// another program, is none of these.
pub fn dangling_bin_link(agora_home: &str, target: Option<&str>, resolved_exists: bool) -> (r: Option<
    (String, String),
>)
    ensures
        match r {
            Some((link, t)) => target is Some && !resolved_exists && link@ == bin_text(agora_home@)
                && t@ == target->0@,
            None => target is None || resolved_exists,
        },
{
    match target {
        Some(t) => if resolved_exists {
            None
        } else {
            Some((bin_path(agora_home), t.to_owned()))
        },
        None => None,
    }
}

/// A path, and its canonical form where it has one.
#[derive(Debug, PartialEq, Eq)]
pub struct Located {
    pub path: String,
    pub canonical: Option<String>,
}

/// Whether two paths lead to the same program: by their canonical forms where both have one, and as
/// they are written otherwise.
pub open spec fn same_program(a: Located, b: Located) -> bool {
    match (a.canonical, b.canonical) {
        (Some(x), Some(y)) => same_path(x@, y@),
        _ => same_path(a.path@, b.path@),
    }
}

/// Whether two paths lead to the same program.
pub fn same_binary(a: &Located, b: &Located) -> (r: bool)
    ensures
        r == same_program(*a, *b),
{
    match (&a.canonical, &b.canonical) {
        (Some(x), Some(y)) => is_same_path(x.as_str(), y.as_str()),
        _ => is_same_path(a.path.as_str(), b.path.as_str()),
    }
}

/// What stands at [`bin_path`].
#[derive(Debug, PartialEq, Eq)]
pub enum Found {
    /// A link with this target, which leads there.
    Link { target: String, resolved: Located },
    /// Something else.
    Other,
    Nothing,
}

/// What is to be done with [`bin_path`].
#[derive(Debug, PartialEq, Eq)]
pub enum LinkPlan {
    /// It is a link to the running program.
    Current(String),
    /// There is nothing.
    Create(String),
    /// There is something else: a link that leads to `from`, or no link at all.
    Repoint { link: String, from: Option<String> },
}

/// The model of a [`LinkPlan`].
pub enum LinkView {
    Current(Seq<char>),
    Create(Seq<char>),
    Repoint { link: Seq<char>, from: Option<Seq<char>> },
}

impl View for LinkPlan {
    type V = LinkView;

    open spec fn view(&self) -> LinkView {
        match self {
            LinkPlan::Current(l) => LinkView::Current(l@),
            LinkPlan::Create(l) => LinkView::Create(l@),
            LinkPlan::Repoint { link, from } => LinkView::Repoint {
                link: link@,
                from: opt_text(*from),
            },
        }
    }
}

impl LinkPlan {
    /// The path of the link.
    pub fn link(&self) -> (r: &str)
        ensures
            r@ == match self@ {
                LinkView::Current(l) => l,
                LinkView::Create(l) => l,
                LinkView::Repoint { link, .. } => link,
            },
    {
        match self {
            LinkPlan::Current(l) => l.as_str(),
            LinkPlan::Create(l) => l.as_str(),
            LinkPlan::Repoint { link, .. } => link.as_str(),
        }
    }

    /// Whether nothing is to be done.
    pub fn is_ok(&self) -> (r: bool)
        ensures
            r == (self@ is Current),
    {
        match self {
            LinkPlan::Current(_) => true,
            _ => false,
        }
    }

    /// One line for the user: what the link leads to now, or would if `applied` is not set. Whether what
    /// it led to before is still there is given by `from_exists`.
    pub fn describe(&self, exe: &str, applied: bool, from_exists: bool) -> (out: String)
        ensures
            out@ == link_line(self@, exe@, applied, from_exists),
    {
        match self {
            LinkPlan::Current(l) => {
                let mut s = text::cat3(l.as_str(), " -> ", exe);
                text::push_str(&mut s, "（已指向）");
                s
            },
            LinkPlan::Create(l) => if applied {
                let mut s = text::cat3(l.as_str(), " -> ", exe);
                text::push_str(&mut s, "（已建立）");
                s
            } else {
                let mut s = text::cat3("将建立 ", l.as_str(), " -> ");
                text::push_str(&mut s, exe);
                text::push_str(&mut s, "（--dry-run，未建）");
                s
            },
            LinkPlan::Repoint { link, from } => {
                let why = match from {
                    Some(t) => if from_exists {
                        text::cat("原指向 ", t.as_str())
                    } else {
                        text::cat3("原指向 ", t.as_str(), "，已不存在")
                    },
                    None => "原是普通文件，不是符号链接".to_owned(),
                };
                if applied {
                    let mut s = text::cat3(link.as_str(), " -> ", exe);
                    text::push_str(&mut s, "（已重指；");
                    text::push_str(&mut s, why.as_str());
                    text::push_str(&mut s, "）");
                    s
                } else {
                    let mut s = text::cat3("将重指 ", link.as_str(), " -> ");
                    text::push_str(&mut s, exe);
                    text::push_str(&mut s, "（");
                    text::push_str(&mut s, why.as_str());
                    text::push_str(&mut s, "；--dry-run，未改）");
                    s
                }
            },
        }
    }
}

/// One line for the user about the link.
pub open spec fn link_line(
    p: LinkView,
    exe: Seq<char>,
    applied: bool,
    from_exists: bool,
) -> Seq<char> {
    match p {
        LinkView::Current(l) => l + " -> "@ + exe + "（已指向）"@,
        LinkView::Create(l) => if applied {
            l + " -> "@ + exe + "（已建立）"@
        } else {
            "将建立 "@ + l + " -> "@ + exe + "（--dry-run，未建）"@
        },
        LinkView::Repoint { link, from } => {
            let why = match from {
                Some(t) => if from_exists {
                    "原指向 "@ + t
                } else {
                    "原指向 "@ + t + "，已不存在"@
                },
                None => "原是普通文件，不是符号链接"@,
            };
            if applied {
                link + " -> "@ + exe + "（已重指；"@ + why + "）"@
            } else {
                "将重指 "@ + link + " -> "@ + exe + "（"@ + why + "；--dry-run，未改）"@
            }
        },
    }
}

/// What is to be done with the link of `home`: nothing where it leads to the running program, or where
/// the running program was started through it.
pub open spec fn link_plan(
    home: Seq<char>,
    link: Located,
    exe: Located,
    found: Found,
) -> LinkView {
    match found {
        Found::Link { target, resolved } => if same_program(resolved, exe) || same_program(
            link,
            exe,
        ) {
            LinkView::Current(bin_text(home))
        } else {
            LinkView::Repoint { link: bin_text(home), from: Some(target@) }
        },
        Found::Other => LinkView::Repoint { link: bin_text(home), from: None },
        Found::Nothing => LinkView::Create(bin_text(home)),
    }
}

/// What is to be done on disk so that the link leads to the running program.
#[derive(Clone, Copy, Debug, PartialEq, Eq, Structural)]
pub enum LinkAction {
    Keep,
    Create,
    /// What is there is removed first.
    Replace,
}

/// What is to be done on disk so that the link leads to the running program. Where the program was
/// started through the link nothing is done: a link must never lead to itself.
pub open spec fn link_action(link: Located, exe: Located, found: Found) -> LinkAction {
    if same_program(link, exe) {
        LinkAction::Keep
    } else {
        match found {
            Found::Link { target, resolved } => if same_program(resolved, exe) {
                LinkAction::Keep
            } else {
                LinkAction::Replace
            },
            Found::Other => LinkAction::Replace,
            Found::Nothing => LinkAction::Create,
        }
    }
}

/// What is to be done on disk so that the link leads to the running program.
pub fn ensure_bin_link(link: &Located, exe: &Located, found: &Found) -> (r: LinkAction)
    ensures
        r == link_action(*link, *exe, *found),
{
    if same_binary(link, exe) {
        return LinkAction::Keep;
    }
    match found {
        Found::Link { target: _, resolved } => if same_binary(resolved, exe) {
            LinkAction::Keep
        } else {
            LinkAction::Replace
        },
        Found::Other => LinkAction::Replace,
        Found::Nothing => LinkAction::Create,
    }
}

/// A link is never made to lead to its own path, and what is planned as current is not touched.
pub proof fn lemma_link_never_leads_to_itself(
    home: Seq<char>,
    link: Located,
    exe: Located,
    found: Found,
)
    ensures
        link_action(link, exe, found) != LinkAction::Keep ==> !same_program(link, exe),
        link_plan(home, link, exe, found) is Current ==> link_action(link, exe, found)
            == LinkAction::Keep,
{
}

/// What stands at the path of the link once an action was carried out for a program with an absolute path.
pub open spec fn found_after(action: LinkAction, exe: Located, found: Found) -> Found {
    match action {
        LinkAction::Keep => found,
        _ => Found::Link { target: exe.path, resolved: exe },
    }
}

/// Where the path of the link leads once an action was carried out.
pub open spec fn link_after(action: LinkAction, link: Located, exe: Located) -> Located {
    match action {
        LinkAction::Keep => link,
        _ => Located { path: link.path, canonical: exe.canonical },
    }
}

/// Once the link was seen to, it leads to the program: it is planned as current and kept from then on, both
/// when the program is told of by its own path and when it is told of by the link. A link that was made has
/// the program's path for its target and leads there.
pub proof fn lemma_link_once_made_is_kept(
    home: Seq<char>,
    link: Located,
    exe: Located,
    found: Found,
)
    requires
        exe.canonical is Some,
        is_absolute(exe.path@),
        found is Link || !same_program(link, exe),
    ensures
        ({
            let action = link_action(link, exe, found);
            let now = found_after(action, exe, found);
            let at = link_after(action, link, exe);
            &&& now is Link
            &&& action != LinkAction::Keep ==> now->target@ == exe.path@ && resolved_target(
                home,
                now->target@,
            ) == exe.path@
            &&& link_plan(home, at, exe, now) == LinkView::Current(bin_text(home))
            &&& link_action(at, exe, now) == LinkAction::Keep
            &&& link_plan(home, at, at, now) == LinkView::Current(bin_text(home))
            &&& link_action(at, at, now) == LinkAction::Keep
        }),
{
}

/// The marks that need no quotes in a path.
pub open spec fn path_marks() -> Seq<char> {
    "/._-+:@%"@
}

/// The command that is entered in an agent's configuration: it runs the hook if the program is there, in
/// place of the shell, so that the hook's parent is the agent.
pub open spec fn command_text(home: Seq<char>, host: Seq<char>) -> Seq<char> {
    let bin = quoted(bin_text(home), path_marks());
    "if [ -x "@ + bin + " ]; then exec "@ + bin + " hook --host "@ + host + " --home "@ + quoted(
        home,
        path_marks(),
    ) + "; fi"@
}

/// The command that is entered in an agent's configuration.
pub fn command(agora_home: &str, host: &str) -> (out: String)
    ensures
        out@ == command_text(agora_home@, host@),
{
    let bin = quote(bin_path(agora_home).as_str(), "/._-+:@%");
    let home = quote(agora_home, "/._-+:@%");
    let mut s = text::cat3("if [ -x ", bin.as_str(), " ]; then exec ");
    text::push_str(&mut s, bin.as_str());
    text::push_str(&mut s, " hook --host ");
    text::push_str(&mut s, host);
    text::push_str(&mut s, " --home ");
    text::push_str(&mut s, home.as_str());
    text::push_str(&mut s, "; fi");
    s
}

/// What marks a command as one that was entered here.
pub open spec fn own_mark(home: Seq<char>) -> Seq<char> {
    quoted(bin_text(home), path_marks()) + " hook "@
}

/// Whether a command was entered here.
pub fn is_ours(agora_home: &str, command: &str) -> (r: bool)
    ensures
        r == occurs(command@, own_mark(agora_home@)),
{
    let bin = quote(bin_path(agora_home).as_str(), "/._-+:@%");
    let mark = text::cat(bin.as_str(), " hook ");
    text::contains(command, mark.as_str())
}

/// The command that is entered is known as one that was entered here.
pub proof fn lemma_command_is_ours(home: Seq<char>, host: Seq<char>)
    ensures
        occurs(command_text(home, host), own_mark(home)),
{
    let bin = quoted(bin_text(home), path_marks());
    let c = command_text(home, host);
    reveal_strlit("if [ -x ");
    reveal_strlit(" ]; then exec ");
    reveal_strlit(" hook --host ");
    reveal_strlit(" hook ");
    let i = ("if [ -x "@ + bin + " ]; then exec "@).len() as int;
    let m = own_mark(home);
    assert(c.subrange(i, i + m.len()) =~= m);
    assert(text::occurs_at(c, m, i));
}

/// Whether one hook of a group was entered here.
pub open spec fn own_hook(e: JsonView, home: Seq<char>) -> bool {
    match member_str(e, "command"@) {
        Some(c) => occurs(c, own_mark(home)),
        None => false,
    }
}

/// The hooks of a group without those entered here.
pub open spec fn others_hooks(s: Seq<JsonView>, home: Seq<char>) -> Seq<JsonView>
    decreases s.len(),
{
    if s.len() == 0 {
        s
    } else {
        let r = others_hooks(s.drop_last(), home);
        if own_hook(s.last(), home) {
            r
        } else {
            r.push(s.last())
        }
    }
}

/// A group without the hooks entered here.
pub open spec fn others_group(g: JsonView, home: Seq<char>) -> JsonView {
    match g {
        JsonView::Object(m) => match find(m, "hooks"@, 0) {
            Some(i) => match m[i].1 {
                JsonView::Array(s) => JsonView::Object(
                    m.update(i, (m[i].0, JsonView::Array(others_hooks(s, home)))),
                ),
                _ => g,
            },
            None => g,
        },
        _ => g,
    }
}

/// Whether a group has hooks, as far as one can tell: it is not one whose list of hooks is empty.
pub open spec fn has_some(g: JsonView) -> bool {
    match member(g, "hooks"@) {
        Some(JsonView::Array(s)) => s.len() > 0,
        _ => true,
    }
}

/// The groups of an event without the hooks entered here, and without those that are left empty.
pub open spec fn others_groups(s: Seq<JsonView>, home: Seq<char>) -> Seq<JsonView>
    decreases s.len(),
{
    if s.len() == 0 {
        s
    } else {
        let r = others_groups(s.drop_last(), home);
        let g = others_group(s.last(), home);
        if has_some(g) {
            r.push(g)
        } else {
            r
        }
    }
}

/// The events without the hooks entered here, and without those that are left without groups.
pub open spec fn others_table(t: Seq<(Seq<char>, JsonView)>, home: Seq<char>) -> Seq<
    (Seq<char>, JsonView),
>
    decreases t.len(),
{
    if t.len() == 0 {
        t
    } else {
        let r = others_table(t.drop_last(), home);
        match t.last().1 {
            JsonView::Array(s) => {
                let g = others_groups(s, home);
                if g.len() == 0 {
                    r
                } else {
                    r.push((t.last().0, JsonView::Array(g)))
                }
            },
            _ => r.push(t.last()),
        }
    }
}

/// A configuration without the hooks entered here.
pub open spec fn without_ours(v: JsonView, home: Seq<char>) -> JsonView {
    match v {
        JsonView::Object(m) => match find(m, "hooks"@, 0) {
            Some(i) => match m[i].1 {
                JsonView::Object(t) => JsonView::Object(
                    m.update(i, (m[i].0, JsonView::Object(others_table(t, home)))),
                ),
                _ => v,
            },
            None => v,
        },
        _ => v,
    }
}

fn hook_is_ours(e: &Json, home: &str) -> (r: bool)
    ensures
        r == own_hook(e@, home@),
{
    match e.get_str("command") {
        Some(c) => is_ours(home, c),
        None => false,
    }
}

fn keep_others_hooks(s: &[Json], home: &str) -> (out: Vec<Json>)
    ensures
        views(out@) == others_hooks(views(s@), home@),
{
    let ghost all = views(s@);
    let mut out: Vec<Json> = Vec::new();
    let mut i: usize = 0;
    proof {
        json::lemma_views(s@);
        assert(all.take(0) =~= Seq::<JsonView>::empty());
        assert(views(out@) =~= others_hooks(all.take(0), home@));
    }
    while i < s.len()
        invariant
            all == views(s@),
            all.len() == s@.len(),
            forall|k: int| 0 <= k < s@.len() ==> #[trigger] all[k] == json::view_of(s@[k]),
            i <= s@.len(),
            views(out@) == others_hooks(all.take(i as int), home@),
        decreases s@.len() - i,
    {
        proof {
            assert(all.take(i + 1).drop_last() =~= all.take(i as int));
            assert(all.take(i + 1).last() == all[i as int]);
        }
        if !hook_is_ours(&s[i], home) {
            let ghost was = out@;
            out.push(json::copy(&s[i]));
            proof {
                assert(out@.drop_last() =~= was);
            }
        }
        i += 1;
    }
    proof {
        assert(all.take(i as int) =~= all);
    }
    out
}

fn replace_member(m: &Vec<(String, Json)>, i: usize, v: Json) -> (r: Json)
    requires
        i < m@.len(),
    ensures
        r@ == JsonView::Object(
            member_views(m@).update(i as int, (member_views(m@)[i as int].0, v@)),
        ),
{
    let mut out: Vec<(String, Json)> = Vec::new();
    let ghost all = member_views(m@);
    let mut k: usize = 0;
    proof {
        json::lemma_member_views(m@);
    }
    let mut new: Option<Json> = Some(v);
    while k < m.len()
        invariant
            all == member_views(m@),
            all.len() == m@.len(),
            forall|k: int|
                0 <= k < m@.len() ==> #[trigger] all[k] == (m@[k].0@, json::view_of(m@[k].1)),
            k <= m@.len(),
            i < m@.len(),
            k <= i ==> new == Some(v),
            member_views(out@) == all.update(i as int, (all[i as int].0, v@)).take(k as int),
        decreases m@.len() - k,
    {
        let ghost was = out@;
        let ghost goal = all.update(i as int, (all[i as int].0, v@));
        if k == i {
            match new {
                Some(j) => {
                    out.push((m[k].0.clone(), j));
                },
                None => {
                    proof {
                        assert(false);
                    }
                },
            }
            new = None;
        } else {
            out.push((m[k].0.clone(), json::copy(&m[k].1)));
        }
        proof {
            assert(out@.drop_last() =~= was);
            assert(goal.take(k + 1) =~= goal.take(k as int).push(goal[k as int]));
        }
        k += 1;
    }
    proof {
        let goal = all.update(i as int, (all[i as int].0, v@));
        assert(goal.take(k as int) =~= goal);
    }
    Json::Object(out)
}

fn keep_others_group(g: &Json, home: &str) -> (r: Json)
    ensures
        r@ == others_group(g@, home@),
{
    match g {
        Json::Object(m) => {
            proof {
                json::lemma_member_views(m@);
            }
            match find_member(m, "hooks") {
                Some(i) => match &m[i].1 {
                    Json::Array(s) => {
                        let kept = keep_others_hooks(s, home);
                        replace_member(m, i, Json::Array(kept))
                    },
                    _ => json::copy(g),
                },
                None => json::copy(g),
            }
        },
        _ => json::copy(g),
    }
}

fn keeps_some(g: &Json) -> (r: bool)
    ensures
        r == has_some(g@),
{
    match g.get("hooks") {
        Some(Json::Array(s)) => {
            proof {
                json::lemma_views(s@);
            }
            s.len() > 0
        },
        _ => true,
    }
}

fn keep_others_groups(s: &[Json], home: &str) -> (out: Vec<Json>)
    ensures
        views(out@) == others_groups(views(s@), home@),
{
    let ghost all = views(s@);
    let mut out: Vec<Json> = Vec::new();
    let mut i: usize = 0;
    proof {
        json::lemma_views(s@);
        assert(all.take(0) =~= Seq::<JsonView>::empty());
        assert(views(out@) =~= others_groups(all.take(0), home@));
    }
    while i < s.len()
        invariant
            all == views(s@),
            all.len() == s@.len(),
            forall|k: int| 0 <= k < s@.len() ==> #[trigger] all[k] == json::view_of(s@[k]),
            i <= s@.len(),
            views(out@) == others_groups(all.take(i as int), home@),
        decreases s@.len() - i,
    {
        proof {
            assert(all.take(i + 1).drop_last() =~= all.take(i as int));
            assert(all.take(i + 1).last() == all[i as int]);
        }
        let g = keep_others_group(&s[i], home);
        if keeps_some(&g) {
            let ghost was = out@;
            out.push(g);
            proof {
                assert(out@.drop_last() =~= was);
            }
        }
        i += 1;
    }
    proof {
        assert(all.take(i as int) =~= all);
    }
    out
}

fn keep_others_table(t: &[(String, Json)], home: &str) -> (out: Vec<(String, Json)>)
    ensures
        member_views(out@) == others_table(member_views(t@), home@),
{
    let ghost all = member_views(t@);
    let mut out: Vec<(String, Json)> = Vec::new();
    let mut i: usize = 0;
    proof {
        json::lemma_member_views(t@);
        assert(all.take(0) =~= Seq::<(Seq<char>, JsonView)>::empty());
        assert(member_views(out@) =~= others_table(all.take(0), home@));
    }
    while i < t.len()
        invariant
            all == member_views(t@),
            all.len() == t@.len(),
            forall|k: int|
                0 <= k < t@.len() ==> #[trigger] all[k] == (t@[k].0@, json::view_of(t@[k].1)),
            i <= t@.len(),
            member_views(out@) == others_table(all.take(i as int), home@),
        decreases t@.len() - i,
    {
        proof {
            assert(all.take(i + 1).drop_last() =~= all.take(i as int));
            assert(all.take(i + 1).last() == all[i as int]);
            json::lemma_kinds(t@[i as int].1);
        }
        match &t[i].1 {
            Json::Array(s) => {
                let g = keep_others_groups(s, home);
                proof {
                    json::lemma_views(g@);
                }
                let ghost gs = views(g@);
                proof {
                    assert(all[i as int].1 == JsonView::Array(views(s@)));
                }
                if g.len() > 0 {
                    let ghost was = out@;
                    out.push((t[i].0.clone(), Json::Array(g)));
                    proof {
                        assert(out@.drop_last() =~= was);
                        assert(json::view_of(out@.last().1) == JsonView::Array(gs));
                    }
                }
            },
            _ => {
                let ghost was = out@;
                out.push((t[i].0.clone(), json::copy(&t[i].1)));
                proof {
                    assert(out@.drop_last() =~= was);
                    assert(!(all[i as int].1 is Array));
                    assert(member_views(out@) =~= member_views(was).push(all[i as int]));
                }
            },
        }
        i += 1;
    }
    proof {
        assert(all.take(i as int) =~= all);
    }
    out
}

/// A configuration without the hooks entered here.
pub fn remove_ours(root: &Json, agora_home: &str) -> (r: Json)
    ensures
        r@ == without_ours(root@, agora_home@),
{
    match root {
        Json::Object(m) => {
            proof {
                json::lemma_member_views(m@);
            }
            match find_member(m, "hooks") {
                Some(i) => match &m[i].1 {
                    Json::Object(t) => {
                        let kept = keep_others_table(t, agora_home);
                        replace_member(m, i, Json::Object(kept))
                    },
                    _ => json::copy(root),
                },
                None => json::copy(root),
            }
        },
        _ => json::copy(root),
    }
}

/// The group that is entered for one hook.
pub open spec fn own_group(e: Entry, cmd: Seq<char>) -> JsonView {
    let hooks = (
        "hooks"@,
        JsonView::Array(
            seq![
                JsonView::Object(
                    seq![
                        ("command"@, JsonView::Str(cmd)),
                        ("timeout"@, JsonView::Int(e.timeout)),
                        ("type"@, JsonView::Str("command"@)),
                    ],
                ),
            ],
        ),
    );
    match e.matcher {
        Some(m) => JsonView::Object(seq![hooks, ("matcher"@, JsonView::Str(m))]),
        None => JsonView::Object(seq![hooks]),
    }
}

fn new_group(h: &HookInstall, cmd: &str) -> (r: Json)
    ensures
        r@ == own_group(h@, cmd@),
{
    let one = json::with(
        json::with(
            json::with(Json::Object(Vec::new()), "command", json::string(cmd)),
            "timeout",
            Json::Number(Numeral::Unsigned(h.timeout)),
        ),
        "type",
        json::string("command"),
    );
    let ghost onev = one@;
    proof {
        assert(onev->Object_0 =~= seq![
            ("command"@, JsonView::Str(cmd@)),
            ("timeout"@, JsonView::Int(h.timeout as int)),
            ("type"@, JsonView::Str("command"@)),
        ]);
    }
    let mut list: Vec<Json> = Vec::new();
    list.push(one);
    proof {
        json::lemma_views(list@);
        assert(views(list@) =~= seq![onev]);
    }
    match &h.matcher {
        Some(m) => json::object2("hooks", Json::Array(list), "matcher", json::string(m.as_str())),
        None => json::object1("hooks", Json::Array(list)),
    }
}

/// The events with one hook added: to the groups of its event, or as a new event.
pub open spec fn with_hook(t: Seq<(Seq<char>, JsonView)>, e: Entry, cmd: Seq<char>) -> Seq<
    (Seq<char>, JsonView),
> {
    match find(t, e.event, 0) {
        Some(i) => match t[i].1 {
            JsonView::Array(s) => t.update(
                i,
                (t[i].0, JsonView::Array(s.push(own_group(e, cmd)))),
            ),
            _ => t,
        },
        None => with_member(t, e.event, JsonView::Array(seq![own_group(e, cmd)])),
    }
}

/// The events with hooks added one after another.
pub open spec fn with_hooks(
    t: Seq<(Seq<char>, JsonView)>,
    es: Seq<Entry>,
    cmd: Seq<char>,
) -> Seq<(Seq<char>, JsonView)>
    decreases es.len(),
{
    if es.len() == 0 {
        t
    } else {
        with_hook(with_hooks(t, es.drop_last(), cmd), es.last(), cmd)
    }
}

/// The table of hooks in a configuration; an empty one where there is none.
pub open spec fn table_of(v: JsonView) -> Seq<(Seq<char>, JsonView)> {
    match member(v, "hooks"@) {
        Some(JsonView::Object(t)) => t,
        _ => Seq::empty(),
    }
}

/// A configuration with another table of hooks.
pub open spec fn with_table(v: JsonView, t: Seq<(Seq<char>, JsonView)>) -> JsonView {
    match v {
        JsonView::Object(m) => JsonView::Object(with_member(m, "hooks"@, JsonView::Object(t))),
        _ => v,
    }
}

/// A configuration in which hooks are installed.
pub open spec fn installed(
    v: JsonView,
    es: Seq<Entry>,
    home: Seq<char>,
    host: Seq<char>,
) -> JsonView {
    let rest = without_ours(v, home);
    with_table(rest, with_hooks(table_of(rest), es, command_text(home, host)))
}

fn add_hook(t: &mut Vec<(String, Json)>, h: &HookInstall, cmd: &str)
    ensures
        member_views(final(t)@) == with_hook(member_views(old(t)@), h@, cmd@),
{
    let g = new_group(h, cmd);
    proof {
        json::lemma_member_views(t@);
    }
    match find_member(t, h.event.as_str()) {
        Some(i) => {
            let ghost name = t@[i as int].0;
            match &t[i].1 {
                Json::Array(s) => {
                    let ghost olds = s@;
                    let mut groups: Vec<Json> = Vec::new();
                    let mut k: usize = 0;
                    while k < s.len()
                        invariant
                            olds == s@,
                            k <= s@.len(),
                            views(groups@) == views(olds.take(k as int)),
                        decreases s@.len() - k,
                    {
                        let ghost was = groups@;
                        groups.push(json::copy(&s[k]));
                        proof {
                            assert(groups@.drop_last() =~= was);
                            assert(olds.take(k + 1).drop_last() =~= olds.take(k as int));
                        }
                        k += 1;
                    }
                    proof {
                        assert(olds.take(k as int) =~= olds);
                    }
                    let ghost was = groups@;
                    let ghost gv = g@;
                    groups.push(g);
                    proof {
                        assert(groups@.drop_last() =~= was);
                    }
                    let key = t[i].0.clone();
                    let ghost gs = groups@;
                    t.set(i, (key, Json::Array(groups)));
                    proof {
                        json::lemma_member_views(t@);
                        assert(member_views(t@) =~= member_views(old(t)@).update(
                            i as int,
                            (name@, JsonView::Array(views(olds).push(gv))),
                        ));
                    }
                },
                _ => {},
            }
        },
        None => {
            let ghost gv = g@;
            let mut list: Vec<Json> = Vec::new();
            list.push(g);
            proof {
                json::lemma_views(list@);
                assert(views(list@) =~= seq![gv]);
            }
            set_member(t, h.event.clone(), Json::Array(list));
        },
    }
}

fn copy_members(m: &[(String, Json)]) -> (out: Vec<(String, Json)>)
    ensures
        member_views(out@) == member_views(m@),
{
    let mut out: Vec<(String, Json)> = Vec::new();
    let mut i: usize = 0;
    proof {
        assert(m@.take(0) =~= Seq::<(String, Json)>::empty());
    }
    while i < m.len()
        invariant
            i <= m@.len(),
            member_views(out@) == member_views(m@.take(i as int)),
        decreases m@.len() - i,
    {
        let ghost was = out@;
        out.push((m[i].0.clone(), json::copy(&m[i].1)));
        proof {
            assert(out@.drop_last() =~= was);
            assert(m@.take(i + 1).drop_last() =~= m@.take(i as int));
        }
        i += 1;
    }
    proof {
        assert(m@.take(i as int) =~= m@);
    }
    out
}

/// A configuration in which hooks are installed.
pub fn add_ours(before: &Json, spec: &[HookInstall], agora_home: &str, host: &str) -> (r: Json)
    ensures
        r@ == installed(before@, entries(spec@), agora_home@, host@),
{
    let rest = remove_ours(before, agora_home);
    let cmd = command(agora_home, host);
    let mut t: Vec<(String, Json)> = match rest.get("hooks") {
        Some(Json::Object(t)) => copy_members(t),
        _ => Vec::new(),
    };
    let ghost start = table_of(rest@);
    let ghost es = entries(spec@);
    proof {
        assert(member_views(t@) =~= start);
        assert(es.take(0) =~= Seq::<Entry>::empty());
    }
    let mut i: usize = 0;
    while i < spec.len()
        invariant
            es == entries(spec@),
            i <= spec@.len(),
            member_views(t@) == with_hooks(start, es.take(i as int), cmd@),
        decreases spec@.len() - i,
    {
        proof {
            assert(es.take(i + 1).drop_last() =~= es.take(i as int));
            assert(es.take(i + 1).last() == spec@[i as int]@);
        }
        add_hook(&mut t, &spec[i], cmd.as_str());
        i += 1;
    }
    proof {
        assert(es.take(i as int) =~= es);
    }
    match rest {
        Json::Object(mut m) => {
            set_member(&mut m, "hooks".to_owned(), Json::Object(t));
            Json::Object(m)
        },
        other => other,
    }
}

proof fn lemma_own_group_goes(e: Entry, home: Seq<char>, host: Seq<char>)
    ensures
        !has_some(others_group(own_group(e, command_text(home, host)), home)),
{
    let cmd = command_text(home, host);
    lemma_command_is_ours(home, host);
    let h = JsonView::Object(
        seq![
            ("command"@, JsonView::Str(cmd)),
            ("timeout"@, JsonView::Int(e.timeout)),
            ("type"@, JsonView::Str("command"@)),
        ],
    );
    assert(find(h->Object_0, "command"@, 0) == Some(0int));
    assert(own_hook(h, home));
    let one = seq![h];
    assert(others_hooks(one, home) =~= Seq::<JsonView>::empty()) by {
        reveal_with_fuel(others_hooks, 2);
        assert(one.drop_last() =~= Seq::<JsonView>::empty());
        assert(one.last() == h);
    }
    let g = own_group(e, cmd);
    let m = g->Object_0;
    assert(m[0].0 == "hooks"@);
    assert(find(m, "hooks"@, 0) == Some(0int));
    let m2 = m.update(0, (m[0].0, JsonView::Array(others_hooks(one, home))));
    assert(others_group(g, home) == JsonView::Object(m2));
    assert(find(m2, "hooks"@, 0) == Some(0int));
}

proof fn lemma_others_hooks_again(s: Seq<JsonView>, home: Seq<char>)
    ensures
        others_hooks(others_hooks(s, home), home) == others_hooks(s, home),
    decreases s.len(),
{
    if s.len() > 0 {
        lemma_others_hooks_again(s.drop_last(), home);
        if !own_hook(s.last(), home) {
            let r = others_hooks(s.drop_last(), home);
            assert(r.push(s.last()).drop_last() =~= r);
        }
    }
}

proof fn lemma_others_group_again(g: JsonView, home: Seq<char>)
    ensures
        others_group(others_group(g, home), home) == others_group(g, home),
{
    match g {
        JsonView::Object(m) => {
            json::lemma_find(m, "hooks"@, 0);
            match find(m, "hooks"@, 0) {
                Some(i) => match m[i].1 {
                    JsonView::Array(s) => {
                        lemma_others_hooks_again(s, home);
                        let m2 = m.update(i, (m[i].0, JsonView::Array(others_hooks(s, home))));
                        json::lemma_find(m2, "hooks"@, 0);
                        assert(m2[i].0 == "hooks"@);
                        assert forall|j: int| 0 <= j < i implies (#[trigger] m2[j]).0
                            != "hooks"@ by {
                            assert(m2[j] == m[j]);
                        }
                        assert(find(m2, "hooks"@, 0) == Some(i));
                        assert(m2.update(i, (m2[i].0, m2[i].1)) =~= m2);
                    },
                    _ => {},
                },
                None => {},
            }
        },
        _ => {},
    }
}

proof fn lemma_others_groups_again(s: Seq<JsonView>, home: Seq<char>)
    ensures
        others_groups(others_groups(s, home), home) == others_groups(s, home),
    decreases s.len(),
{
    if s.len() > 0 {
        lemma_others_groups_again(s.drop_last(), home);
        let g = others_group(s.last(), home);
        lemma_others_group_again(s.last(), home);
        if has_some(g) {
            let r = others_groups(s.drop_last(), home);
            assert(r.push(g).drop_last() =~= r);
        }
    }
}

proof fn lemma_others_table_again(t: Seq<(Seq<char>, JsonView)>, home: Seq<char>)
    ensures
        others_table(others_table(t, home), home) == others_table(t, home),
    decreases t.len(),
{
    if t.len() > 0 {
        lemma_others_table_again(t.drop_last(), home);
        let r = others_table(t.drop_last(), home);
        match t.last().1 {
            JsonView::Array(s) => {
                lemma_others_groups_again(s, home);
                let g = others_groups(s, home);
                if g.len() > 0 {
                    assert(r.push((t.last().0, JsonView::Array(g))).drop_last() =~= r);
                }
            },
            _ => {
                assert(r.push(t.last()).drop_last() =~= r);
            },
        }
    }
}

/// What is left of a table after an entry at `p`: that of what stands before it, then its own.
proof fn lemma_others_table_tail(
    t: Seq<(Seq<char>, JsonView)>,
    u: Seq<(Seq<char>, JsonView)>,
    p: int,
    q: int,
    home: Seq<char>,
)
    requires
        0 <= p <= t.len(),
        0 <= q <= u.len(),
        t.len() - p == u.len() - q,
        t.skip(p) == u.skip(q),
        others_table(t.take(p), home) == others_table(u.take(q), home),
    ensures
        others_table(t, home) == others_table(u, home),
    decreases t.len() - p,
{
    if p == t.len() {
        assert(t.take(p) =~= t);
        assert(u.take(q) =~= u);
    } else {
        assert(t[p] == t.skip(p)[0]);
        assert(u[q] == u.skip(q)[0]);
        assert(t.take(p + 1).drop_last() =~= t.take(p));
        assert(u.take(q + 1).drop_last() =~= u.take(q));
        assert(t.take(p + 1).last() == u.take(q + 1).last());
        assert(t.skip(p + 1) =~= t.skip(p).skip(1));
        assert(u.skip(q + 1) =~= u.skip(q).skip(1));
        lemma_others_table_tail(t, u, p + 1, q + 1, home);
    }
}

proof fn lemma_with_hook_goes(
    t: Seq<(Seq<char>, JsonView)>,
    e: Entry,
    home: Seq<char>,
    host: Seq<char>,
)
    ensures
        others_table(with_hook(t, e, command_text(home, host)), home) == others_table(t, home),
{
    let cmd = command_text(home, host);
    let g = own_group(e, cmd);
    let u = with_hook(t, e, cmd);
    lemma_own_group_goes(e, home, host);
    json::lemma_find(t, e.event, 0);
    match find(t, e.event, 0) {
        Some(i) => match t[i].1 {
            JsonView::Array(s) => {
                assert(s.push(g).drop_last() =~= s);
                assert(u.take(i + 1).drop_last() =~= t.take(i));
                assert(t.take(i + 1).drop_last() =~= t.take(i));
                assert(u.skip(i + 1) =~= t.skip(i + 1));
                lemma_others_table_tail(u, t, i + 1, i + 1, home);
            },
            _ => {},
        },
        None => {
            let p = json::member_place(t, e.event);
            json::lemma_member_place(t, e.event);
            let one = seq![g];
            assert(others_groups(one, home) =~= Seq::<JsonView>::empty()) by {
                reveal_with_fuel(others_groups, 2);
                assert(one.drop_last() =~= Seq::<JsonView>::empty());
            }
            assert(u == t.insert(p, (e.event, JsonView::Array(one))));
            assert(u.take(p + 1).drop_last() =~= t.take(p));
            assert(u.take(p + 1).last() == (e.event, JsonView::Array(one)));
            assert(u.skip(p + 1) =~= t.skip(p));
            lemma_others_table_tail(u, t, p + 1, p, home);
        },
    }
}

proof fn lemma_with_hooks_go(
    t: Seq<(Seq<char>, JsonView)>,
    es: Seq<Entry>,
    home: Seq<char>,
    host: Seq<char>,
)
    ensures
        others_table(with_hooks(t, es, command_text(home, host)), home) == others_table(t, home),
    decreases es.len(),
{
    if es.len() > 0 {
        lemma_with_hooks_go(t, es.drop_last(), home, host);
        lemma_with_hook_goes(
            with_hooks(t, es.drop_last(), command_text(home, host)),
            es.last(),
            home,
            host,
        );
    }
}

proof fn lemma_without_ours(v: JsonView, home: Seq<char>)
    requires
        v is Object,
    ensures
        without_ours(v, home) is Object,
        table_of(without_ours(v, home)) == others_table(table_of(v), home),
        forall|k: Seq<char>|
            k != "hooks"@ ==> #[trigger] member(without_ours(v, home), k) == member(v, k),
{
    let m = v->Object_0;
    json::lemma_find(m, "hooks"@, 0);
    match find(m, "hooks"@, 0) {
        Some(i) => match m[i].1 {
            JsonView::Object(t) => {
                json::lemma_with_member(m, "hooks"@, JsonView::Object(others_table(t, home)));
                assert(m[i].0 == "hooks"@);
                assert(without_ours(v, home) == JsonView::Object(
                    with_member(m, "hooks"@, JsonView::Object(others_table(t, home))),
                ));
            },
            _ => {
                assert(others_table(table_of(v), home) =~= Seq::<(Seq<char>, JsonView)>::empty());
            },
        },
        None => {
            assert(others_table(table_of(v), home) =~= Seq::<(Seq<char>, JsonView)>::empty());
        },
    }
}

proof fn lemma_installed_table(
    v: JsonView,
    es: Seq<Entry>,
    home: Seq<char>,
    host: Seq<char>,
)
    requires
        v is Object,
    ensures
        installed(v, es, home, host) is Object,
        table_of(installed(v, es, home, host)) == with_hooks(
            others_table(table_of(v), home),
            es,
            command_text(home, host),
        ),
        forall|k: Seq<char>|
            k != "hooks"@ ==> #[trigger] member(installed(v, es, home, host), k) == member(v, k),
{
    let rest = without_ours(v, home);
    lemma_without_ours(v, home);
    let t = with_hooks(table_of(rest), es, command_text(home, host));
    json::lemma_with_member(rest->Object_0, "hooks"@, JsonView::Object(t));
    assert forall|k: Seq<char>| k != "hooks"@ implies #[trigger] member(
        installed(v, es, home, host),
        k,
    ) == member(v, k) by {
        assert(member(rest, k) == member(v, k));
    }
}

/// Taking hooks out again leaves the others' hooks as if none had been installed, and touches nothing
/// else in the configuration; nor does installing them.
pub proof fn lemma_uninstall_undoes_install(
    v: JsonView,
    es: Seq<Entry>,
    home: Seq<char>,
    host: Seq<char>,
)
    requires
        v is Object,
    ensures
        table_of(without_ours(installed(v, es, home, host), home)) == table_of(
            without_ours(v, home),
        ),
        forall|k: Seq<char>|
            k != "hooks"@ ==> #[trigger] member(
                without_ours(installed(v, es, home, host), home),
                k,
            ) == member(v, k),
        forall|k: Seq<char>|
            k != "hooks"@ ==> #[trigger] member(installed(v, es, home, host), k) == member(v, k),
{
    let w = installed(v, es, home, host);
    lemma_installed_table(v, es, home, host);
    lemma_without_ours(w, home);
    lemma_without_ours(v, home);
    let t = others_table(table_of(v), home);
    lemma_with_hooks_go(t, es, home, host);
    lemma_others_table_again(table_of(v), home);
    assert forall|k: Seq<char>| k != "hooks"@ implies #[trigger] member(
        without_ours(w, home),
        k,
    ) == member(v, k) by {
        assert(member(w, k) == member(v, k));
    }
}

/// Installing hooks a second time changes nothing.
pub proof fn lemma_install_twice(
    v: JsonView,
    es: Seq<Entry>,
    home: Seq<char>,
    host: Seq<char>,
)
    requires
        v is Object,
    ensures
        installed(installed(v, es, home, host), es, home, host) == installed(v, es, home, host),
{
    let w = installed(v, es, home, host);
    let cmd = command_text(home, host);
    lemma_installed_table(v, es, home, host);
    lemma_uninstall_undoes_install(v, es, home, host);
    lemma_without_ours(v, home);
    lemma_without_ours(w, home);
    let t = with_hooks(others_table(table_of(v), home), es, cmd);
    let rest = without_ours(v, home);
    json::lemma_with_member(rest->Object_0, "hooks"@, JsonView::Object(t));
    let m = w->Object_0;
    json::lemma_find(m, "hooks"@, 0);
    let i = find(m, "hooks"@, 0)->0;
    assert(m[i] == ("hooks"@, JsonView::Object(t)));
    let w2 = without_ours(w, home);
    let m2 = w2->Object_0;
    assert(m2 == m.update(i, ("hooks"@, JsonView::Object(others_table(t, home)))));
    json::lemma_with_member(m, "hooks"@, JsonView::Object(others_table(t, home)));
    assert(find(m2, "hooks"@, 0) == Some(i));
    assert(table_of(w2) == others_table(table_of(v), home));
    assert(m2.update(i, ("hooks"@, JsonView::Object(t))) =~= m);
}

proof fn lemma_with_hook_keeps(
    t: Seq<(Seq<char>, JsonView)>,
    e: Entry,
    cmd: Seq<char>,
    event: Seq<char>,
    g: JsonView,
)
    requires
        match member(JsonView::Object(t), event) {
            Some(JsonView::Array(s)) => s.contains(g),
            Some(_) => true,
            None => false,
        },
    ensures
        match member(JsonView::Object(with_hook(t, e, cmd)), event) {
            Some(JsonView::Array(s)) => s.contains(g),
            Some(_) => true,
            None => false,
        },
{
    json::lemma_find(t, e.event, 0);
    match find(t, e.event, 0) {
        Some(i) => match t[i].1 {
            JsonView::Array(s) => {
                let v = JsonView::Array(s.push(own_group(e, cmd)));
                json::lemma_with_member(t, e.event, v);
                assert(with_hook(t, e, cmd) == with_member(t, e.event, v));
                if event == e.event && s.contains(g) {
                    let k = s.index_of(g);
                    assert(s.push(own_group(e, cmd))[k] == g);
                }
            },
            _ => {},
        },
        None => {
            json::lemma_with_member(t, e.event, JsonView::Array(seq![own_group(e, cmd)]));
        },
    }
}

/// After an installation every event of the agent has the group that was to be entered, except one that
/// the configuration uses for something other than a list.
pub proof fn lemma_installed_hooks_are_there(
    t: Seq<(Seq<char>, JsonView)>,
    es: Seq<Entry>,
    cmd: Seq<char>,
    i: int,
)
    requires
        0 <= i < es.len(),
    ensures
        match member(JsonView::Object(with_hooks(t, es, cmd)), es[i].event) {
            Some(JsonView::Array(s)) => s.contains(own_group(es[i], cmd)),
            Some(_) => true,
            None => false,
        },
    decreases es.len(),
{
    let before = with_hooks(t, es.drop_last(), cmd);
    let g = own_group(es[i], cmd);
    if i < es.len() - 1 {
        lemma_installed_hooks_are_there(t, es.drop_last(), cmd, i);
        lemma_with_hook_keeps(before, es.last(), cmd, es[i].event, g);
    } else {
        let e = es.last();
        json::lemma_find(before, e.event, 0);
        match find(before, e.event, 0) {
            Some(k) => match before[k].1 {
                JsonView::Array(s) => {
                    let v = JsonView::Array(s.push(g));
                    json::lemma_with_member(before, e.event, v);
                    assert(with_hook(before, e, cmd) == with_member(before, e.event, v));
                    assert(s.push(g)[s.len() as int] == g);
                },
                _ => {},
            },
            None => {
                let one = seq![g];
                json::lemma_with_member(before, e.event, JsonView::Array(one));
                assert(one[0] == g);
            },
        }
    }
}

/// What an installation is about to do: the file, and what it holds before and after.
#[derive(Debug, PartialEq, Eq)]
pub struct Plan {
    pub file: String,
    pub before: Json,
    pub after: Json,
}

impl Plan {
    /// Whether the file stays as it is.
    pub fn is_noop(&self) -> (r: bool)
        ensures
            r == equal(self.before@, self.after@),
            self.before@ == self.after@ ==> r,
    {
        is_equal(&self.before, &self.after)
    }

    /// The lines that change.
    pub fn diff(&self) -> (out: String)
        ensures
            out@ == plan_diff(self.before@, self.after@),
    {
        let a = codec::pretty(&self.before);
        let b = codec::pretty(&self.after);
        diff(a.as_str(), b.as_str())
    }

    /// What the file is to hold.
    pub fn contents(&self) -> (out: String)
        ensures
            out@ == pretty_text(normal(self.after@)).push('\n'),
    {
        let mut s = codec::pretty(&self.after);
        s.push('\n');
        s
    }
}

/// The lines that change from one configuration to another.
pub open spec fn plan_diff(before: JsonView, after: JsonView) -> Seq<char> {
    steps_text(
        steps(lines(pretty_text(normal(before))), lines(pretty_text(normal(after))), 0, 0),
    )
}

/// The configuration that a file holds: an empty one where there is no file or nothing in it.
pub open spec fn config_of(path: Seq<char>, content: Option<Seq<char>>) -> Result<
    JsonView,
    Failure,
> {
    match content {
        None => Ok(JsonView::Object(Seq::empty())),
        Some(s) => if trimmed(s).len() == 0 {
            Ok(JsonView::Object(Seq::empty()))
        } else {
            match read_text(encode_utf8(s)) {
                None => Err(Failure::NotAnObject { path, reason: refusal(encode_utf8(s)) }),
                Some(v) => if v is Object {
                    Ok(v)
                } else {
                    Err(Failure::NotAnObject { path, reason: "顶层不是对象"@ })
                },
            }
        },
    }
}

/// The configuration that a file holds: an empty one where there is no file or nothing in it.
pub fn read_config(path: &str, content: Option<&str>) -> (r: Result<Json, InstallError>)
    ensures
        match r {
            Ok(j) => config_of(path@, opt_str(content)) == Ok::<JsonView, Failure>(j@) && j is Object,
            Err(e) => config_of(path@, opt_str(content)) == Err::<JsonView, Failure>(e@),
        },
{
    let s: &str = match content {
        Some(s) => s,
        None => {
            return Ok(Json::Object(Vec::new()));
        },
    };
    let t = text::trim(s);
    if text::is_empty(t.as_str()) {
        return Ok(Json::Object(Vec::new()));
    }
    match codec::parse_or_reason(s.as_bytes()) {
        Ok(j) => {
            proof {
                json::lemma_kinds(j);
            }
            if j.as_object().is_some() {
                Ok(j)
            } else {
                Err(
                    InstallError::NotAnObject {
                        path: path.to_owned(),
                        reason: "顶层不是对象".to_owned(),
                    },
                )
            }
        },
        Err(reason) => Err(InstallError::NotAnObject { path: path.to_owned(), reason }),
    }
}

/// Where hooks are installed from, and for whom.
#[derive(Debug, PartialEq, Eq)]
pub struct Installer {
    pub agora_home: String,
    pub user_home: String,
}

impl Installer {
    /// The file that the hooks of a host go into.
    pub open spec fn file_text(&self, es: Seq<Entry>) -> Option<Seq<char>> {
        if es.len() == 0 {
            None
        } else {
            Some(joined_path(self.user_home@, es[0].file))
        }
    }

    /// The file that the hooks of a host go into.
    pub fn file_of(&self, spec: &[HookInstall], agent: &str) -> (r: Result<String, InstallError>)
        ensures
            match r {
                Ok(f) => self.file_text(entries(spec@)) == Some(f@),
                Err(e) => self.file_text(entries(spec@)) is None && e@ == (Failure::NoSpec {
                    agent: agent@,
                }),
            },
    {
        if spec.len() == 0 {
            return Err(InstallError::NoSpec { agent: agent.to_owned() });
        }
        proof {
            assert(entries(spec@)[0] == spec@[0]@);
        }
        Ok(join_path(self.user_home.as_str(), spec[0].file.as_str()))
    }

    /// What installing the hooks of a host is about to do, `content` being what the file holds.
    pub fn plan_install(&self, hooks: Host, content: Option<&str>) -> (r: Result<Plan, InstallError>)
        ensures
            match self.file_text(hooks.installs()) {
                None => r matches Err(e) && e@ == (Failure::NoSpec { agent: hooks.host_text() }),
                Some(file) => match config_of(file, opt_str(content)) {
                    Err(f) => r matches Err(e) && e@ == f,
                    Ok(v) => r matches Ok(p) && p.file@ == file && p.before@ == v && p.after@
                        == installed(v, hooks.installs(), self.agora_home@, hooks.host_text()),
                },
            },
    {
        let spec = hooks.install_spec();
        let file = match self.file_of(&spec, hooks.host()) {
            Ok(f) => f,
            Err(e) => {
                return Err(e);
            },
        };
        let before = match read_config(file.as_str(), content) {
            Ok(j) => j,
            Err(e) => {
                return Err(e);
            },
        };
        let after = add_ours(&before, &spec, self.agora_home.as_str(), hooks.host());
        Ok(Plan { file, before, after })
    }

    /// What uninstalling the hooks of a host is about to do, `content` being what the file holds.
    pub fn plan_uninstall(&self, hooks: Host, content: Option<&str>) -> (r: Result<
        Plan,
        InstallError,
    >)
        ensures
            match self.file_text(hooks.installs()) {
                None => r matches Err(e) && e@ == (Failure::NoSpec { agent: hooks.host_text() }),
                Some(file) => match config_of(file, opt_str(content)) {
                    Err(f) => r matches Err(e) && e@ == f,
                    Ok(v) => r matches Ok(p) && p.file@ == file && p.before@ == v && p.after@
                        == without_ours(v, self.agora_home@),
                },
            },
    {
        let spec = hooks.install_spec();
        let file = match self.file_of(&spec, hooks.host()) {
            Ok(f) => f,
            Err(e) => {
                return Err(e);
            },
        };
        let before = match read_config(file.as_str(), content) {
            Ok(j) => j,
            Err(e) => {
                return Err(e);
            },
        };
        let after = remove_ours(&before, self.agora_home.as_str());
        Ok(Plan { file, before, after })
    }

    /// What is to be done with the link that hooks run, `link` being its path.
    pub fn bin_link_plan(&self, link: &Located, exe: &Located, found: &Found) -> (r: LinkPlan)
        ensures
            r@ == link_plan(self.agora_home@, *link, *exe, *found),
    {
        let path = bin_path(self.agora_home.as_str());
        match found {
            Found::Link { target, resolved } => if same_binary(resolved, exe) || same_binary(
                link,
                exe,
            ) {
                LinkPlan::Current(path)
            } else {
                LinkPlan::Repoint { link: path, from: Some(target.clone()) }
            },
            Found::Other => LinkPlan::Repoint { link: path, from: None },
            Found::Nothing => LinkPlan::Create(path),
        }
    }
}

/// How the command is used.
pub open spec fn usage_text(claude: Claude) -> Seq<char> {
    "用法: agora hooks install|uninstall <"@ + joined(host_names(claude), "|"@)
        + "> [--dry-run] [--home <AGORA_HOME>] [--user-home <HOME>]"@
}

fn usage(claude: Claude) -> (out: String)
    ensures
        out@ == usage_text(claude),
{
    let names = crate::adapter::owned(&hosts(claude));
    text::cat3(
        "用法: agora hooks install|uninstall <",
        text::join(&names, "|").as_str(),
        "> [--dry-run] [--home <AGORA_HOME>] [--user-home <HOME>]",
    )
}

/// What the command was asked to do.
#[derive(Debug, PartialEq, Eq)]
pub struct Args {
    pub action: String,
    pub agent: String,
    pub dry_run: bool,
    pub agora_home: String,
    pub user_home: String,
}

/// What the options from `i` on say: whether to look only, and the two directories; or the first option
/// that is not known. Of an option given twice the later counts, and one without its value counts as
/// not given.
pub open spec fn options_of(
    argv: Seq<Seq<char>>,
    i: int,
    dry: bool,
    home: Option<Seq<char>>,
    user: Option<Seq<char>>,
) -> Result<(bool, Option<Seq<char>>, Option<Seq<char>>), Seq<char>>
    decreases argv.len() + 1 - i,
{
    let next = if i + 1 < argv.len() {
        Some(argv[i + 1])
    } else {
        None
    };
    if i < 0 || i >= argv.len() {
        Ok((dry, home, user))
    } else if argv[i] == "--dry-run"@ {
        options_of(argv, i + 1, true, home, user)
    } else if argv[i] == "--home"@ {
        options_of(argv, i + 2, dry, next, user)
    } else if argv[i] == "--user-home"@ {
        options_of(argv, i + 2, dry, home, next)
    } else {
        Err(argv[i])
    }
}

/// What the command was asked to do, `home` and `user` being the directories to take where none are given.
pub fn parse_args(
    claude: Claude,
    argv: &[&str],
    default_home: &str,
    env_home: Option<&str>,
) -> (r: Result<Args, InstallError>)
    ensures
        ({
            let a = strs(argv@);
            if a.len() < 2 || (a[0] != "install"@ && a[0] != "uninstall"@) {
                r matches Err(e) && e@ == Failure::Usage(usage_text(claude))
            } else {
                match options_of(a, 2, false, None, None) {
                    Err(other) => r matches Err(e) && e@ == Failure::Usage(
                        "未知参数 "@ + other + "\n"@ + usage_text(claude),
                    ),
                    Ok((dry, home, user)) => {
                        &&& r matches Ok(p)
                        &&& p.action@ == a[0]
                        &&& p.agent@ == a[1]
                        &&& p.dry_run == dry
                        &&& p.agora_home@ == text::or_else(home, default_home@)
                        &&& p.user_home@ == text::or_else(
                            text::either(user, opt_str(env_home)),
                            "."@,
                        )
                    },
                }
            }
        }),
{
    let ghost a = strs(argv@);
    if argv.len() < 2 {
        return Err(InstallError::Usage(usage(claude)));
    }
    proof {
        assert(a[0] == argv@[0]@ && a[1] == argv@[1]@);
    }
    if !same(argv[0], "install") && !same(argv[0], "uninstall") {
        return Err(InstallError::Usage(usage(claude)));
    }
    let n: usize = argv.len();
    let mut dry_run: bool = false;
    let mut home: Option<String> = None;
    let mut user: Option<String> = None;
    let mut i: usize = 2;
    while i < n
        invariant
            a == strs(argv@),
            n == argv@.len(),
            2 <= i <= n,
            a[0] == "install"@ || a[0] == "uninstall"@,
            options_of(a, 2, false, None, None) == options_of(
                a,
                i as int,
                dry_run,
                opt_text(home),
                opt_text(user),
            ),
        decreases n - i,
    {
        proof {
            assert(a[i as int] == argv@[i as int]@);
            if i + 1 < n {
                assert(a[i + 1] == argv@[i + 1]@);
            }
        }
        if same(argv[i], "--dry-run") {
            dry_run = true;
            i += 1;
        } else if same(argv[i], "--home") {
            if n - i > 1 {
                home = Some(argv[i + 1].to_owned());
                i += 2;
            } else {
                home = None;
                proof {
                    assert(options_of(a, i + 2, dry_run, opt_text(home), opt_text(user))
                        == options_of(a, n as int, dry_run, opt_text(home), opt_text(user)));
                }
                i = n;
            }
        } else if same(argv[i], "--user-home") {
            if n - i > 1 {
                user = Some(argv[i + 1].to_owned());
                i += 2;
            } else {
                user = None;
                proof {
                    assert(options_of(a, i + 2, dry_run, opt_text(home), opt_text(user))
                        == options_of(a, n as int, dry_run, opt_text(home), opt_text(user)));
                }
                i = n;
            }
        } else {
            let mut why = text::cat3("未知参数 ", argv[i], "\n");
            text::push_str(&mut why, usage(claude).as_str());
            return Err(InstallError::Usage(why));
        }
    }
    let agora_home = match home {
        Some(h) => h,
        None => default_home.to_owned(),
    };
    let user_home = match user {
        Some(u) => u,
        None => match env_home {
            Some(h) => h.to_owned(),
            None => ".".to_owned(),
        },
    };
    Ok(
        Args {
            action: argv[0].to_owned(),
            agent: argv[1].to_owned(),
            dry_run,
            agora_home,
            user_home,
        },
    )
}

/// One thing to be done for an installation.
#[derive(Debug, PartialEq, Eq)]
pub enum Step {
    /// Make the link lead to the running program.
    EnsureLink,
    /// Tell the user a line.
    Say(String),
    /// Show the user a text as it is.
    Show(String),
    /// Write the file.
    WriteFile,
}

/// The model of a [`Step`].
pub enum Doing {
    EnsureLink,
    Say(Seq<char>),
    Show(Seq<char>),
    WriteFile,
}

impl View for Step {
    type V = Doing;

    open spec fn view(&self) -> Doing {
        match self {
            Step::EnsureLink => Doing::EnsureLink,
            Step::Say(s) => Doing::Say(s@),
            Step::Show(s) => Doing::Show(s@),
            Step::WriteFile => Doing::WriteFile,
        }
    }
}

/// The models of a list of steps.
pub open spec fn doings(v: Seq<Step>) -> Seq<Doing> {
    v.map_values(|s: Step| s@)
}

/// What is done for an installation or its removal, in order. The link comes before the file: when the
/// entries take effect the program must be there. Looking only changes nothing; removing leaves the link,
/// which other agents may use.
pub open spec fn run_steps(
    install: bool,
    dry_run: bool,
    host: Host,
    file: Seq<char>,
    noop: bool,
    changes: Seq<char>,
    link_ok: bool,
    link_text: Seq<char>,
) -> Seq<Doing> {
    let a = if !install {
        Seq::empty()
    } else if !dry_run && !link_ok {
        seq![Doing::EnsureLink, Doing::Say(link_text)]
    } else {
        seq![Doing::Say(link_text)]
    };
    let hint = match host.hint() {
        Some(h) => if install {
            seq![Doing::Say(h)]
        } else {
            Seq::empty()
        },
        None => Seq::empty(),
    };
    if noop {
        a.push(Doing::Say(file + " 无需改动"@)) + hint
    } else if dry_run {
        a.push(Doing::Say("--- "@ + file)).push(Doing::Show(changes)).push(
            Doing::Say("(--dry-run，未写入)"@),
        )
    } else {
        a.push(Doing::Say("--- "@ + file)).push(Doing::Show(changes)).push(Doing::WriteFile).push(
            Doing::Say("已写入 "@ + file),
        ) + hint
    }
}

/// What is done for an installation or its removal, in order.
pub fn run_with(
    install: bool,
    dry_run: bool,
    host: Host,
    plan: &Plan,
    link_ok: bool,
    link_text: &str,
) -> (out: Vec<Step>)
    ensures
        doings(out@) == run_steps(
            install,
            dry_run,
            host,
            plan.file@,
            equal(plan.before@, plan.after@),
            plan_diff(plan.before@, plan.after@),
            link_ok,
            link_text@,
        ),
{
    let mut out: Vec<Step> = Vec::new();
    if install {
        if !dry_run && !link_ok {
            out.push(Step::EnsureLink);
        }
        out.push(Step::Say(link_text.to_owned()));
    }
    if plan.is_noop() {
        out.push(Step::Say(text::cat(plan.file.as_str(), " 无需改动")));
    } else {
        out.push(Step::Say(text::cat("--- ", plan.file.as_str())));
        out.push(Step::Show(plan.diff()));
        if dry_run {
            out.push(Step::Say("(--dry-run，未写入)".to_owned()));
            proof {
                assert(doings(out@) =~= run_steps(
                    install,
                    dry_run,
                    host,
                    plan.file@,
                    false,
                    plan_diff(plan.before@, plan.after@),
                    link_ok,
                    link_text@,
                ));
            }
            return out;
        }
        out.push(Step::WriteFile);
        out.push(Step::Say(text::cat("已写入 ", plan.file.as_str())));
    }
    if install {
        match host.install_hint() {
            Some(h) => {
                out.push(Step::Say(h));
            },
            None => {},
        }
    }
    proof {
        assert(doings(out@) =~= run_steps(
            install,
            dry_run,
            host,
            plan.file@,
            equal(plan.before@, plan.after@),
            plan_diff(plan.before@, plan.after@),
            link_ok,
            link_text@,
        ));
    }
    out
}

/// The host whose hooks the command is about.
pub fn host_for(claude: Claude, agent: &str) -> (r: Result<Host, InstallError>)
    ensures
        match r {
            Ok(h) => host_named(claude, agent@) == Some(h),
            Err(e) => host_named(claude, agent@) is None && e@ == Failure::Usage(
                agent@ + " 没有 hook 可装\n"@ + usage_text(claude),
            ),
        },
{
    match for_host(claude, agent) {
        Some(h) => Ok(h),
        None => Err(
            InstallError::Usage(text::cat3(agent, " 没有 hook 可装\n", usage(claude).as_str())),
        ),
    }
}

/// Looking only neither makes the link nor writes the file.
pub proof fn lemma_dry_run_changes_nothing(
    install: bool,
    host: Host,
    file: Seq<char>,
    noop: bool,
    changes: Seq<char>,
    link_ok: bool,
    link_text: Seq<char>,
)
    ensures
        ({
            let s = run_steps(install, true, host, file, noop, changes, link_ok, link_text);
            forall|i: int|
                0 <= i < s.len() ==> (#[trigger] s[i]) != Doing::EnsureLink && s[i]
                    != Doing::WriteFile
        }),
{
}

/// The hooks of others stay, all of them and in their order, and none of ours does.
pub proof fn lemma_hooks_of_others_stay(s: Seq<JsonView>, home: Seq<char>, e: JsonView)
    ensures
        others_hooks(s, home).contains(e) <==> s.contains(e) && !own_hook(e, home),
        (forall|i: int| 0 <= i < s.len() ==> !own_hook(#[trigger] s[i], home)) ==> others_hooks(s, home)
            == s,
    decreases s.len(),
{
    if s.len() > 0 {
        let w = s.drop_last();
        lemma_hooks_of_others_stay(w, home, e);
        assert(w.push(s.last()) =~= s);
        lemma_push_has(w, s.last(), e);
        lemma_push_has(others_hooks(w, home), s.last(), e);
        if forall|i: int| 0 <= i < s.len() ==> !own_hook(#[trigger] s[i], home) {
            assert forall|i: int| 0 <= i < w.len() implies !own_hook(#[trigger] w[i], home) by {
                assert(w[i] == s[i]);
            }
            assert(!own_hook(s[s.len() - 1], home));
        }
    }
}

/// What is entered for an event is one hook: a command, the one that is given, with the time that it may
/// take, for the tools that are to be matched.
pub proof fn lemma_what_is_entered(e: Entry, cmd: Seq<char>)
    ensures
        member(own_group(e, cmd), "hooks"@) matches Some(JsonView::Array(s)) && s.len() == 1 && {
            &&& member_str(s[0], "command"@) == Some(cmd)
            &&& member_str(s[0], "type"@) == Some("command"@)
            &&& member(s[0], "timeout"@) == Some(JsonView::Int(e.timeout))
        },
        member_str(own_group(e, cmd), "matcher"@) == e.matcher,
{
    reveal_strlit("hooks");
    reveal_strlit("matcher");
    reveal_strlit("command");
    reveal_strlit("timeout");
    reveal_strlit("type");
    assert("hooks"@.len() == 5);
    assert("matcher"@.len() == 7 && "matcher"@[0] == 'm');
    assert("command"@.len() == 7 && "command"@[0] == 'c');
    assert("timeout"@.len() == 7 && "timeout"@[0] == 't');
    assert("type"@.len() == 4);
    reveal_with_fuel(find, 4);
}

/// The file is written exactly where something changes and no dry run is made, and the changes are shown
/// first; the link is seen to only by an installation, where it does not lead to the program yet.
pub proof fn lemma_what_a_run_does(
    install: bool,
    dry_run: bool,
    host: Host,
    file: Seq<char>,
    noop: bool,
    changes: Seq<char>,
    link_ok: bool,
    link_text: Seq<char>,
)
    ensures
        ({
            let s = run_steps(install, dry_run, host, file, noop, changes, link_ok, link_text);
            &&& s.contains(Doing::WriteFile) <==> !noop && !dry_run
            &&& s.contains(Doing::EnsureLink) <==> install && !dry_run && !link_ok
            &&& s.contains(Doing::Show(changes)) <==> !noop
            &&& install ==> s.contains(Doing::Say(link_text))
        }),
{
    let s = run_steps(install, dry_run, host, file, noop, changes, link_ok, link_text);
    let n: int = if !install {
        0
    } else if !dry_run && !link_ok {
        2
    } else {
        1
    };
    if install {
        assert(s[n - 1] == Doing::Say(link_text));
        if n == 2 {
            assert(s[0] == Doing::EnsureLink);
        }
    }
    if !noop {
        assert(s[n + 1] == Doing::Show(changes));
        if !dry_run {
            assert(s[n + 2] == Doing::WriteFile);
        }
    }
}

/// A file that is not there, or has nothing on it, is an empty configuration; one that cannot be read is
/// never taken for one.
pub proof fn lemma_what_a_file_holds(path: Seq<char>, s: Seq<char>)
    ensures
        config_of(path, None) == Ok::<JsonView, Failure>(JsonView::Object(Seq::empty())),
        trimmed(s).len() == 0 ==> config_of(path, Some(s)) == Ok::<JsonView, Failure>(
            JsonView::Object(Seq::empty()),
        ),
        trimmed(s).len() > 0 ==> (config_of(path, Some(s)) is Ok <==> (read_text(
            encode_utf8(s),
        ) matches Some(JsonView::Object(_)))),
        trimmed(s).len() > 0 && config_of(path, Some(s)) is Ok ==> read_text(encode_utf8(s)) == Some(
            config_of(path, Some(s))->Ok_0,
        ),
{
}

/// A dry run, a home and a home of the user may be asked for in any order; any other word is refused.
pub proof fn lemma_install_options(home: Seq<char>, user: Seq<char>, word: Seq<char>)
    requires
        word != "--dry-run"@ && word != "--home"@ && word != "--user-home"@,
    ensures
        options_of(Seq::empty(), 0, false, None, None) == Ok::<
            (bool, Option<Seq<char>>, Option<Seq<char>>),
            Seq<char>,
        >((false, None, None)),
        options_of(seq!["--dry-run"@, "--home"@, home], 0, false, None, None) == Ok::<
            (bool, Option<Seq<char>>, Option<Seq<char>>),
            Seq<char>,
        >((true, Some(home), None)),
        options_of(seq!["--user-home"@, user, "--home"@, home], 0, false, None, None) == Ok::<
            (bool, Option<Seq<char>>, Option<Seq<char>>),
            Seq<char>,
        >((false, Some(home), Some(user))),
        options_of(seq![word], 0, false, None, None) == Err::<
            (bool, Option<Seq<char>>, Option<Seq<char>>),
            Seq<char>,
        >(word),
{
    reveal_strlit("--dry-run");
    reveal_strlit("--home");
    reveal_strlit("--user-home");
    assert("--dry-run"@.len() == 9);
    assert("--home"@.len() == 6);
    assert("--user-home"@.len() == 11);
    reveal_with_fuel(options_of, 5);
}

/// A link that leads to the running program is left alone; where there is nothing one is made, and whatever
/// else is there is replaced. The plan says the same.
pub proof fn lemma_what_becomes_of_the_link(home: Seq<char>, link: Located, exe: Located, found: Found)
    requires
        !same_program(link, exe),
    ensures
        link_action(link, exe, found) is Create <==> found is Nothing,
        link_action(link, exe, found) is Keep <==> (found matches Found::Link { resolved, .. } && same_program(
            resolved,
            exe,
        )),
        link_plan(home, link, exe, found) is Create <==> link_action(link, exe, found) is Create,
        link_plan(home, link, exe, found) is Current <==> link_action(link, exe, found) is Keep,
        link_plan(home, link, exe, found) is Repoint <==> link_action(link, exe, found) is Replace,
{
}

} // verus!
