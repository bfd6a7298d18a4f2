//! The inbox: one file for each event, with an envelope around what the agent reported.
//!
//! A file's name begins with the time in a fixed width, so that the order of names is the order of
//! events; it is written under another name first, so that what is read is always whole.

use crate::hook::holds::lemma_push_has;
use crate::adapter::{base_of, basename, path_parts};
use crate::clock;
use crate::json::{self, Json, JsonView};
use crate::num;
use crate::order::{self, before, comes_before};
use crate::paths::{join_path, joined_path};
use crate::quote::{alphanumeric, is_alphanumeric};
use crate::text::{self, finishes, joined, opt_text, split, texts};
use vstd::prelude::*;

verus! {

/// Where events wait, below the home directory.
pub const INBOX_DIR: &'static str = "hooks/inbox";

/// Where events go when they have been applied.
pub const DONE_DIR: &'static str = "hooks/done";

/// How long they are kept there, in seconds.
pub const DONE_RETENTION: u64 = 86_400;

/// What went wrong with the inbox.
#[derive(Debug, PartialEq, Eq)]
pub enum HookError {
    Io { path: String, source: String },
    /// Others can write or read what is in it.
    TooOpen { path: String, mode: u32 },
    WrongOwner { path: String, owner: u32, me: u32 },
    /// A file that is no JSON text.
    Malformed { path: String, source: String },
    /// A path that does not lead into it.
    Outside(String),
}

/// The model of a [`HookError`].
pub enum HookFailure {
    Io { path: Seq<char>, source: Seq<char> },
    TooOpen { path: Seq<char>, mode: u32 },
    WrongOwner { path: Seq<char>, owner: u32, me: u32 },
    Malformed { path: Seq<char>, source: Seq<char> },
    Outside(Seq<char>),
}

impl View for HookError {
    type V = HookFailure;

    open spec fn view(&self) -> HookFailure {
        match self {
            HookError::Io { path, source } => HookFailure::Io { path: path@, source: source@ },
            HookError::TooOpen { path, mode } => HookFailure::TooOpen { path: path@, mode: *mode },
            HookError::WrongOwner { path, owner, me } => HookFailure::WrongOwner {
                path: path@,
                owner: *owner,
                me: *me,
            },
            HookError::Malformed { path, source } => HookFailure::Malformed {
                path: path@,
                source: source@,
            },
            HookError::Outside(s) => HookFailure::Outside(s@),
        }
    }
}

/// `n` in octal.
pub open spec fn octal(n: nat) -> Seq<char>
    decreases n,
{
    if n < 8 {
        seq![num::digit_char(n)]
    } else {
        octal(n / 8).push(num::digit_char(n % 8))
    }
}

/// `n` in octal.
pub fn to_octal(n: u32) -> (out: String)
    ensures
        out@ == octal(n as nat),
    decreases n,
{
    if n < 8 {
        let mut out = String::new();
        out.push(num::digit_of(n as u64));
        proof {
            assert(out@ =~= seq![num::digit_char(n as nat)]);
        }
        out
    } else {
        let mut out = to_octal(n / 8);
        out.push(num::digit_of((n % 8) as u64));
        out
    }
}

impl HookError {
    /// What to tell the user.
    pub fn message(&self) -> (out: String)
        ensures
            out@ == match self@ {
                HookFailure::Io { path, source } => "投递箱 "@ + path + ": "@ + source,
                HookFailure::TooOpen { path, mode } => "投递箱 "@ + path + " 权限过宽（"@ + octal(
                    mode as nat,
                ) + "）：其他用户能伪造事件或读到 prompt；请执行 chmod -R go-rwx "@ + path,
                HookFailure::WrongOwner { path, owner, me } => "投递箱 "@ + path
                    + " 不属于当前用户（uid "@ + num::decimal(owner as nat) + " ≠ "@ + num::decimal(
                    me as nat,
                ) + "）"@,
                HookFailure::Malformed { path, source } => "投递文件 "@ + path
                    + " 不是合法 JSON: "@ + source,
                HookFailure::Outside(p) => "路径 "@ + p + " 不在投递箱里"@,
            },
    {
        match self {
            HookError::Io { path, source } => {
                let mut s = text::cat3("投递箱 ", path.as_str(), ": ");
                text::push_str(&mut s, source.as_str());
                s
            },
            HookError::TooOpen { path, mode } => {
                let mut s = text::cat3("投递箱 ", path.as_str(), " 权限过宽（");
                text::push_str(&mut s, to_octal(*mode).as_str());
                text::push_str(
                    &mut s,
                    "）：其他用户能伪造事件或读到 prompt；请执行 chmod -R go-rwx ",
                );
                text::push_str(&mut s, path.as_str());
                s
            },
            HookError::WrongOwner { path, owner, me } => {
                let mut s = text::cat3("投递箱 ", path.as_str(), " 不属于当前用户（uid ");
                text::push_str(&mut s, num::to_decimal(*owner as u64).as_str());
                text::push_str(&mut s, " ≠ ");
                text::push_str(&mut s, num::to_decimal(*me as u64).as_str());
                text::push_str(&mut s, "）");
                s
            },
            HookError::Malformed { path, source } => {
                let mut s = text::cat3("投递文件 ", path.as_str(), " 不是合法 JSON: ");
                text::push_str(&mut s, source.as_str());
                s
            },
            HookError::Outside(p) => text::cat3("路径 ", p.as_str(), " 不在投递箱里"),
        }
    }
}

/// What a hook process knows of itself and of where it runs.
#[derive(Debug, PartialEq, Eq)]
pub struct Envelope {
    pub host: String,
    /// The session that started the agent, where one of ours did.
    pub agora_session_id: Option<String>,
    pub agora_epoch: Option<i64>,
    /// The conversation that the agent named, or `unknown`.
    pub agent_session_id: String,
    /// The agent's own variables.
    pub agent_env: Vec<(String, String)>,
    /// The variables that tell in which pane it runs.
    pub runtime_env: Vec<(String, String)>,
    pub ppid: u32,
    /// The local time, for people to read.
    pub received_at: String,
    pub received_unix_ms: u64,
}

/// The model of an [`Envelope`].
pub struct Cover {
    pub host: Seq<char>,
    pub agora_session_id: Option<Seq<char>>,
    pub agora_epoch: Option<i64>,
    pub agent_session_id: Seq<char>,
    pub agent_env: Seq<(Seq<char>, Seq<char>)>,
    pub runtime_env: Seq<(Seq<char>, Seq<char>)>,
    pub ppid: u32,
    pub received_at: Seq<char>,
    pub received_unix_ms: u64,
}

/// The texts of a list of pairs.
pub open spec fn pairs(v: Seq<(String, String)>) -> Seq<(Seq<char>, Seq<char>)> {
    v.map_values(|p: (String, String)| (p.0@, p.1@))
}

impl View for Envelope {
    type V = Cover;

    open spec fn view(&self) -> Cover {
        Cover {
            host: self.host@,
            agora_session_id: opt_text(self.agora_session_id),
            agora_epoch: self.agora_epoch,
            agent_session_id: self.agent_session_id@,
            agent_env: pairs(self.agent_env@),
            runtime_env: pairs(self.runtime_env@),
            ppid: self.ppid,
            received_at: self.received_at@,
            received_unix_ms: self.received_unix_ms,
        }
    }
}

/// An event with its envelope.
#[derive(Debug, PartialEq, Eq)]
pub struct Delivery {
    pub envelope: Envelope,
    pub payload: Json,
}

/// The model of a [`Delivery`].
pub struct Parcel {
    pub envelope: Cover,
    pub payload: JsonView,
}

impl View for Delivery {
    type V = Parcel;

    open spec fn view(&self) -> Parcel {
        Parcel { envelope: self.envelope@, payload: self.payload@ }
    }
}

/// A copy of a list of pairs.
pub fn copy_pairs(v: &[(String, String)]) -> (out: Vec<(String, String)>)
    ensures
        pairs(out@) == pairs(v@),
{
    let mut out: Vec<(String, String)> = Vec::new();
    let mut i: usize = 0;
    while i < v.len()
        invariant
            i <= v@.len(),
            pairs(out@) == pairs(v@).take(i as int),
        decreases v@.len() - i,
    {
        let ghost was = pairs(out@);
        out.push((v[i].0.clone(), v[i].1.clone()));
        proof {
            assert(pairs(out@) =~= was.push((v@[i as int].0@, v@[i as int].1@)));
            assert(pairs(v@).take(i + 1) =~= was.push(pairs(v@)[i as int]));
        }
        i += 1;
    }
    proof {
        assert(pairs(v@).take(i as int) =~= pairs(v@));
    }
    out
}

/// A copy of a delivery.
pub fn copy_delivery(d: &Delivery) -> (r: Delivery)
    ensures
        r@ == d@,
{
    let e = &d.envelope;
    Delivery {
        envelope: Envelope {
            host: e.host.clone(),
            agora_session_id: text::copy_opt(&e.agora_session_id),
            agora_epoch: e.agora_epoch,
            agent_session_id: e.agent_session_id.clone(),
            agent_env: copy_pairs(&e.agent_env),
            runtime_env: copy_pairs(&e.runtime_env),
            ppid: e.ppid,
            received_at: e.received_at.clone(),
            received_unix_ms: e.received_unix_ms,
        },
        payload: json::copy(&d.payload),
    }
}

/// The character that stands for `c` in a directory's name.
pub open spec fn safe_char(c: char) -> char {
    if alphanumeric(c) || c == '.' || c == '_' || c == '-' {
        c
    } else {
        '_'
    }
}

/// A text as the name of a directory: letters, digits, points, underscores and hyphens; never a name that
/// leads elsewhere.
pub open spec fn safe_name(s: Seq<char>) -> Seq<char> {
    let t = s.map_values(|c: char| safe_char(c));
    if forall|i: int| 0 <= i < t.len() ==> (#[trigger] t[i]) == '.' {
        "unknown"@
    } else {
        t
    }
}

/// A text as the name of a directory.
pub fn safe_component(s: &str) -> (out: String)
    ensures
        out@ == safe_name(s@),
{
    let v = text::chars_of(s);
    let ghost t = s@.map_values(|c: char| safe_char(c));
    let mut out = String::new();
    let mut dots: bool = true;
    let mut i: usize = 0;
    while i < v.len()
        invariant
            v@ == s@,
            t == s@.map_values(|c: char| safe_char(c)),
            i <= v@.len(),
            out@ == t.take(i as int),
            dots == (forall|k: int| 0 <= k < i ==> (#[trigger] t[k]) == '.'),
        decreases v@.len() - i,
    {
        let c: char = v[i];
        let d: char = if is_alphanumeric(c) || c == '.' || c == '_' || c == '-' {
            c
        } else {
            '_'
        };
        out.push(d);
        proof {
            assert(t[i as int] == d);
            assert(t.take(i + 1) =~= t.take(i as int).push(d));
        }
        dots = dots && d == '.';
        i += 1;
    }
    proof {
        assert(t.take(i as int) =~= t);
    }
    if dots {
        "unknown".to_owned()
    } else {
        out
    }
}

/// A directory's name made here is one name: it is not empty, has no slash in it and is neither `.` nor
/// `..`.
pub proof fn lemma_safe_name_is_one_name(s: Seq<char>)
    ensures
        safe_name(s).len() > 0,
        !safe_name(s).contains('/'),
        safe_name(s) != seq!['.'],
        safe_name(s) != seq!['.', '.'],
{
    reveal_strlit("unknown");
    let t = s.map_values(|c: char| safe_char(c));
    let n = safe_name(s);
    if forall|i: int| 0 <= i < t.len() ==> (#[trigger] t[i]) == '.' {
        assert(n == "unknown"@);
        assert forall|i: int| 0 <= i < n.len() implies n[i] != '/' by {}
        assert(n[0] == 'u');
        assert(seq!['.'][0] == '.');
        assert(seq!['.', '.'][0] == '.');
    } else {
        let k = choose|i: int| 0 <= i < t.len() && (#[trigger] t[i]) != '.';
        assert(t[k] != '.');
        assert forall|i: int| 0 <= i < n.len() implies n[i] != '/' by {
            assert(t[i] == safe_char(s[i]));
        }
    }
}

/// The name of the file of an event: its time in milliseconds, in 13 digits, and the process that wrote
/// it.
pub open spec fn file_text(ms: nat, pid: nat) -> Seq<char> {
    num::padded(ms, 13) + seq!['-'] + num::decimal(pid) + ".json"@
}

/// The name of the file of an event.
pub fn delivery_file_name(ms: u64, pid: u32) -> (out: String)
    ensures
        out@ == file_text(ms as nat, pid as nat),
{
    let mut out = num::to_padded(ms, 13);
    out.push('-');
    text::push_str(&mut out, num::to_decimal(pid as u64).as_str());
    text::push_str(&mut out, ".json");
    proof {
        assert(out@ =~= file_text(ms as nat, pid as nat));
    }
    out
}

/// Where the digits of two numbers written in `w` places first differ, the smaller has the smaller.
proof fn lemma_digits_differ(n: nat, m: nat, w: nat) -> (k: int)
    requires
        n < m < num::ten_to(w),
    ensures
        0 <= k < w,
        num::last_digits(n, w).len() == w,
        num::last_digits(m, w).len() == w,
        num::last_digits(n, w)[k] < num::last_digits(m, w)[k],
        forall|j: int|
            0 <= j < k ==> num::last_digits(n, w)[j] == num::last_digits(m, w)[j],
    decreases w,
{
    num::lemma_last_digits_value(n, w);
    num::lemma_last_digits_value(m, w);
    let a = num::last_digits(n, w);
    let b = num::last_digits(m, w);
    let w1 = (w - 1) as nat;
    if n / 10 < m / 10 {
        assert(m / 10 < num::ten_to(w1));
        lemma_digits_differ(n / 10, m / 10, w1)
    } else {
        assert(n / 10 == m / 10);
        assert(n % 10 < m % 10);
        assert(a.drop_last() =~= b.drop_last());
        assert forall|j: int| 0 <= j < w - 1 implies a[j] == b[j] by {
            assert(a.drop_last()[j] == b.drop_last()[j]);
        }
        w - 1
    }
}

/// The order of names is the order of events: of two events at different times, the file of the earlier
/// comes first, whichever processes wrote them. It holds for as long as a time has 13 digits.
pub proof fn lemma_names_follow_time(ms1: nat, pid1: nat, ms2: nat, pid2: nat)
    requires
        ms1 < ms2 < 10_000_000_000_000,
    ensures
        before(file_text(ms1, pid1), file_text(ms2, pid2)),
{
    assert(num::ten_to(13) == 10_000_000_000_000) by {
        reveal_with_fuel(num::ten_to, 14);
    }
    num::lemma_padded(ms1, 13);
    num::lemma_padded(ms2, 13);
    let k = lemma_digits_differ(ms1, ms2, 13);
    let a = file_text(ms1, pid1);
    let b = file_text(ms2, pid2);
    assert(a[k] == num::last_digits(ms1, 13)[k]);
    assert(b[k] == num::last_digits(ms2, 13)[k]);
    assert forall|j: int| 0 <= j < k implies a[j] == b[j] by {
        assert(a[j] == num::last_digits(ms1, 13)[j]);
        assert(b[j] == num::last_digits(ms2, 13)[j]);
    }
    order::lemma_before_at(a, b, k);
}

/// The time in a file's name, in seconds.
pub open spec fn name_seconds(name: Seq<char>) -> Option<nat> {
    match text::parted(name, '-') {
        Some((a, _)) => if a.len() > 0 && num::all_digits(a) && num::value(a) <= u64::MAX {
            Some(num::value(a) / 1000)
        } else {
            None
        },
        None => None,
    }
}

/// The time in a file's name, in seconds.
pub fn delivery_time_secs(name: &str) -> (r: Option<u64>)
    ensures
        match r {
            Some(n) => name_seconds(name@) == Some(n as nat),
            None => name_seconds(name@) is None,
        },
{
    match text::split_once(name, '-') {
        Some((a, _)) => {
            let v = text::chars_of(a.as_str());
            if v.len() > 0 && v[0] == '+' {
                proof {
                    assert(!num::digit(a@[0]));
                }
                return None;
            }
            proof {
                assert(num::without_plus(a@) == a@);
            }
            match num::parse_unsigned_chars(&v, u64::MAX) {
                Some(n) => Some(n / 1000),
                None => None,
            }
        },
        None => None,
    }
}

/// An inbox below a home directory.
#[derive(Debug, PartialEq, Eq)]
pub struct Inbox {
    pub home: String,
}

/// Whether a path names a file with the extension `json`.
pub open spec fn is_json_file(path: Seq<char>) -> bool {
    base_of(path).len() > 5 && finishes(base_of(path), ".json"@)
}

/// The paths that name JSON files.
pub open spec fn json_files(paths: Seq<Seq<char>>) -> Seq<Seq<char>>
    decreases paths.len(),
{
    if paths.len() == 0 {
        paths
    } else {
        let r = json_files(paths.drop_last());
        if is_json_file(paths.last()) {
            r.push(paths.last())
        } else {
            r
        }
    }
}

/// Where a path goes among those in the order of their files' names.
pub open spec fn place_by_name(v: Seq<Seq<char>>, s: Seq<char>) -> int
    decreases v.len(),
{
    if v.len() > 0 && before(base_of(s), base_of(v.last())) {
        place_by_name(v.drop_last(), s)
    } else {
        v.len() as int
    }
}

/// The paths in the order of their files' names.
pub open spec fn by_name(v: Seq<Seq<char>>) -> Seq<Seq<char>>
    decreases v.len(),
{
    if v.len() == 0 {
        v
    } else {
        let w = by_name(v.drop_last());
        w.insert(place_by_name(w, v.last()), v.last())
    }
}

/// Whether the names of the files stand in order.
pub open spec fn name_sorted(v: Seq<Seq<char>>) -> bool {
    forall|i: int, j: int|
        0 <= i < j < v.len() ==> !before(base_of(#[trigger] v[j]), base_of(#[trigger] v[i]))
}

proof fn lemma_place_by_name(v: Seq<Seq<char>>, s: Seq<char>)
    requires
        name_sorted(v),
    ensures
        0 <= place_by_name(v, s) <= v.len(),
        name_sorted(v.insert(place_by_name(v, s), s)),
        forall|i: int|
            place_by_name(v, s) <= i < v.len() ==> before(base_of(s), base_of(#[trigger] v[i])),
        forall|i: int|
            0 <= i < place_by_name(v, s) ==> !before(base_of(s), base_of(#[trigger] v[i])),
    decreases v.len(),
{
    let k = place_by_name(v, s);
    if v.len() > 0 && before(base_of(s), base_of(v.last())) {
        let w = v.drop_last();
        assert(name_sorted(w));
        lemma_place_by_name(w, s);
        assert forall|i: int| k <= i < v.len() implies before(
            base_of(s),
            base_of(#[trigger] v[i]),
        ) by {
            if i < w.len() {
                assert(v[i] == w[i]);
            }
        }
        assert forall|i: int| 0 <= i < k implies !before(base_of(s), base_of(#[trigger] v[i])) by {
            assert(v[i] == w[i]);
        }
    } else if v.len() > 0 {
        assert forall|i: int| 0 <= i < k implies !before(base_of(s), base_of(#[trigger] v[i])) by {
            order::lemma_before_total(base_of(v[i]), base_of(v.last()));
            if i < v.len() - 1 {
                assert(!before(base_of(v[v.len() - 1]), base_of(v[i])));
                if before(base_of(s), base_of(v[i])) && base_of(v[i]) != base_of(v.last()) {
                    order::lemma_before_transitive(base_of(s), base_of(v[i]), base_of(v.last()));
                }
            }
        }
    }
    let u = v.insert(k, s);
    assert forall|i: int, j: int| 0 <= i < j < u.len() implies !before(
        base_of(#[trigger] u[j]),
        base_of(#[trigger] u[i]),
    ) by {
        if i == k {
            assert(u[j] == v[j - 1]);
            order::lemma_before_total(base_of(s), base_of(v[j - 1]));
        } else if j == k {
            assert(u[i] == v[i]);
        } else {
            let i2 = if i < k {
                i
            } else {
                i - 1
            };
            let j2 = if j < k {
                j
            } else {
                j - 1
            };
            assert(u[i] == v[i2] && u[j] == v[j2]);
        }
    }
}

/// Ordering by name sorts, and neither adds a path nor drops one.
pub proof fn lemma_by_name(v: Seq<Seq<char>>)
    ensures
        name_sorted(by_name(v)),
        by_name(v).to_multiset() == v.to_multiset(),
        by_name(v).len() == v.len(),
    decreases v.len(),
{
    if v.len() > 0 {
        let w = v.drop_last();
        lemma_by_name(w);
        let s = by_name(w);
        lemma_place_by_name(s, v.last());
        let k = place_by_name(s, v.last());
        vstd::seq_lib::to_multiset_insert(s, k, v.last());
        vstd::seq_lib::to_multiset_insert(w, w.len() as int, v.last());
        assert(w.insert(w.len() as int, v.last()) =~= v);
    }
}

fn find_place_by_name(v: &[String], n: usize, base: &str, Ghost(s): Ghost<Seq<char>>) -> (k: usize)
    requires
        n <= v@.len(),
        base@ == base_of(s),
    ensures
        k == place_by_name(texts(v@).take(n as int), s),
        k <= n,
    decreases n,
{
    if n == 0 {
        return 0;
    }
    proof {
        assert(texts(v@).take(n as int).last() == v@[n - 1]@);
        assert(texts(v@).take(n as int).drop_last() =~= texts(v@).take(n - 1));
    }
    let other = basename(v[n - 1].as_str());
    if comes_before(base, other.as_str()) {
        find_place_by_name(v, n - 1, base, Ghost(s))
    } else {
        n
    }
}

/// The directory of a delivery below the inbox.
pub open spec fn delivery_dir_text(home: Seq<char>, c: Cover) -> Seq<char> {
    joined_path(joined_path(joined_path(home, INBOX_DIR@), c.host), safe_name(c.agent_session_id))
}

/// Whether a path is absolute.
pub open spec fn is_absolute(p: Seq<char>) -> bool {
    p.len() > 0 && p[0] == '/'
}

/// What remains of a path below a directory, part by part.
pub open spec fn below(path: Seq<char>, dir: Seq<char>) -> Option<Seq<Seq<char>>> {
    let p = path_parts(split(path, '/'));
    let d = path_parts(split(dir, '/'));
    if is_absolute(path) == is_absolute(dir) && d.len() <= p.len() && p.take(d.len() as int) == d {
        Some(p.skip(d.len() as int))
    } else {
        None
    }
}

/// The parts of a path that name something.
pub fn parts_of(path: &str) -> (out: Vec<String>)
    ensures
        texts(out@) == path_parts(split(path@, '/')),
{
    let p = text::split_char(path, '/');
    let ghost t = texts(p@);
    let mut out: Vec<String> = Vec::new();
    let mut i: usize = 0;
    proof {
        reveal_strlit(".");
        assert("."@ =~= seq!['.']);
        assert(t.take(0) =~= Seq::<Seq<char>>::empty());
        assert(texts(out@) =~= path_parts(t.take(0)));
    }
    while i < p.len()
        invariant
            t == texts(p@),
            "."@ == seq!['.'],
            i <= p@.len(),
            texts(out@) == path_parts(t.take(i as int)),
        decreases p@.len() - i,
    {
        proof {
            assert(t.take(i + 1).drop_last() =~= t.take(i as int));
            assert(t.take(i + 1).last() == p@[i as int]@);
        }
        if !text::is_empty(p[i].as_str()) && !text::same(p[i].as_str(), ".") {
            let ghost was = texts(out@);
            out.push(p[i].clone());
            proof {
                assert(texts(out@) =~= was.push(p@[i as int]@));
            }
        }
        i += 1;
    }
    proof {
        assert(t.take(i as int) =~= t);
    }
    out
}

/// Whether a path is absolute.
pub fn starts_at_root(p: &str) -> (r: bool)
    ensures
        r == is_absolute(p@),
{
    let v = text::chars_of(p);
    v.len() > 0 && v[0] == '/'
}

/// What remains of a path below a directory, part by part.
pub fn strip_dir(path: &str, dir: &str) -> (r: Option<Vec<String>>)
    ensures
        match r {
            Some(v) => below(path@, dir@) == Some(texts(v@)),
            None => below(path@, dir@) is None,
        },
{
    let p = parts_of(path);
    let d = parts_of(dir);
    let ghost tp = texts(p@);
    let ghost td = texts(d@);
    if starts_at_root(path) != starts_at_root(dir) || d.len() > p.len() {
        return None;
    }
    let mut i: usize = 0;
    while i < d.len()
        invariant
            tp == texts(p@),
            td == texts(d@),
            d@.len() <= p@.len(),
            i <= d@.len(),
            tp.take(i as int) == td.take(i as int),
            tp == path_parts(split(path@, '/')),
            td == path_parts(split(dir@, '/')),
        decreases d@.len() - i,
    {
        proof {
            assert(tp[i as int] == p@[i as int]@);
            assert(td[i as int] == d@[i as int]@);
        }
        if !text::same(p[i].as_str(), d[i].as_str()) {
            proof {
                assert(tp.take(td.len() as int)[i as int] != td[i as int]);
            }
            return None;
        }
        proof {
            assert(tp.take(i + 1) =~= tp.take(i as int).push(tp[i as int]));
            assert(td.take(i + 1) =~= td.take(i as int).push(td[i as int]));
        }
        i += 1;
    }
    proof {
        assert(td.take(i as int) =~= td);
    }
    let mut out: Vec<String> = Vec::new();
    let mut k: usize = d.len();
    let ghost n = d@.len() as int;
    while k < p.len()
        invariant
            tp == texts(p@),
            n == d@.len(),
            n <= k <= p@.len(),
            texts(out@) == tp.subrange(n, k as int),
        decreases p@.len() - k,
    {
        let ghost was = texts(out@);
        out.push(p[k].clone());
        proof {
            assert(texts(out@) =~= was.push(tp[k as int]));
            assert(tp.subrange(n, k + 1) =~= tp.subrange(n, k as int).push(tp[k as int]));
        }
        k += 1;
    }
    proof {
        assert(tp.subrange(n, tp.len() as int) =~= tp.skip(n));
    }
    Some(out)
}

/// What the file system says of one directory.
#[derive(Debug, PartialEq, Eq)]
pub struct DirFacts {
    pub path: String,
    pub uid: u32,
    pub mode: u32,
}

/// What is wrong with a directory: it belongs to someone else, or it is open to others.
pub open spec fn dir_fault(d: DirFacts, me: u32) -> Option<HookFailure> {
    let mode = d.mode & 0o777;
    if d.uid != me {
        Some(HookFailure::WrongOwner { path: d.path@, owner: d.uid, me })
    } else if mode & 0o077 != 0 {
        Some(HookFailure::TooOpen { path: d.path@, mode })
    } else {
        None
    }
}

/// The first fault of the directories from `i` on.
pub open spec fn first_fault(ds: Seq<DirFacts>, me: u32, i: int) -> Option<HookFailure>
    decreases ds.len() - i,
{
    if i < 0 || i >= ds.len() {
        None
    } else {
        match dir_fault(ds[i], me) {
            Some(f) => Some(f),
            None => first_fault(ds, me, i + 1),
        }
    }
}

impl Inbox {
    /// The inbox below `home`.
    pub fn new(home: &str) -> (r: Inbox)
        ensures
            r.home@ == home@,
    {
        Inbox { home: home.to_owned() }
    }

    /// Where events wait.
    pub fn inbox_dir(&self) -> (out: String)
        ensures
            out@ == joined_path(self.home@, INBOX_DIR@),
    {
        join_path(self.home.as_str(), INBOX_DIR)
    }

    /// Where events go when they have been applied.
    pub fn done_dir(&self) -> (out: String)
        ensures
            out@ == joined_path(self.home@, DONE_DIR@),
    {
        join_path(self.home.as_str(), DONE_DIR)
    }

    /// The directory of all of it.
    pub fn hooks_dir(&self) -> (out: String)
        ensures
            out@ == joined_path(self.home@, "hooks"@),
    {
        join_path(self.home.as_str(), "hooks")
    }

    /// The file that a delivery is written to by the process `pid`.
    pub fn delivery_path(&self, envelope: &Envelope, pid: u32) -> (out: String)
        ensures
            out@ == joined_path(
                delivery_dir_text(self.home@, envelope@),
                file_text(envelope.received_unix_ms as nat, pid as nat),
            ),
    {
        let dir = join_path(
            join_path(self.inbox_dir().as_str(), envelope.host.as_str()).as_str(),
            safe_component(envelope.agent_session_id.as_str()).as_str(),
        );
        join_path(
            dir.as_str(),
            delivery_file_name(envelope.received_unix_ms, pid).as_str(),
        )
    }

    /// Whether the directories may be trusted: all are ours, and none is open to others.
    pub fn check_permissions(&self, dirs: &[DirFacts], me: u32) -> (r: Result<(), HookError>)
        ensures
            match r {
                Ok(_) => first_fault(dirs@, me, 0) is None,
                Err(e) => first_fault(dirs@, me, 0) == Some(e@),
            },
    {
        let mut i: usize = 0;
        while i < dirs.len()
            invariant
                i <= dirs@.len(),
                first_fault(dirs@, me, 0) == first_fault(dirs@, me, i as int),
            decreases dirs@.len() - i,
        {
            let d = &dirs[i];
            if d.uid != me {
                return Err(
                    HookError::WrongOwner { path: d.path.clone(), owner: d.uid, me },
                );
            }
            let mode: u32 = d.mode & 0o777;
            if mode & 0o077 != 0 {
                return Err(HookError::TooOpen { path: d.path.clone(), mode });
            }
            i += 1;
        }
        Ok(())
    }

    /// Of all files in the inbox those that wait to be applied, in the order of their names.
    pub fn pending(&self, files: &[String]) -> (out: Vec<String>)
        ensures
            texts(out@) == by_name(json_files(texts(files@))),
    {
        let ghost all = texts(files@);
        let mut kept: Vec<String> = Vec::new();
        let mut i: usize = 0;
        proof {
            assert(all.take(0) =~= Seq::<Seq<char>>::empty());
            assert(texts(kept@) =~= json_files(all.take(0)));
        }
        while i < files.len()
            invariant
                all == texts(files@),
                i <= files@.len(),
                texts(kept@) == json_files(all.take(i as int)),
            decreases files@.len() - i,
        {
            proof {
                assert(all.take(i + 1).drop_last() =~= all.take(i as int));
                assert(all.take(i + 1).last() == files@[i as int]@);
            }
            let base = basename(files[i].as_str());
            if text::chars_of(base.as_str()).len() > 5 && text::ends_with(base.as_str(), ".json") {
                let ghost was = texts(kept@);
                kept.push(files[i].clone());
                proof {
                    assert(texts(kept@) =~= was.push(files@[i as int]@));
                }
            }
            i += 1;
        }
        proof {
            assert(all.take(i as int) =~= all);
        }
        let ghost k = texts(kept@);
        let mut out: Vec<String> = Vec::new();
        let mut j: usize = 0;
        proof {
            assert(k.take(0) =~= Seq::<Seq<char>>::empty());
            assert(texts(out@) =~= by_name(k.take(0)));
        }
        while j < kept.len()
            invariant
                k == texts(kept@),
                j <= kept@.len(),
                texts(out@) == by_name(k.take(j as int)),
            decreases kept@.len() - j,
        {
            let ghost t = texts(out@);
            let n: usize = out.len();
            let base = basename(kept[j].as_str());
            let at: usize = find_place_by_name(&out, n, base.as_str(), Ghost(kept@[j as int]@));
            proof {
                assert(t.take(n as int) =~= t);
                assert(k.take(j + 1).drop_last() =~= k.take(j as int));
                assert(k.take(j + 1).last() == kept@[j as int]@);
            }
            out.insert(at, kept[j].clone());
            proof {
                assert(texts(out@) =~= t.insert(at as int, kept@[j as int]@));
            }
            j += 1;
        }
        proof {
            assert(k.take(j as int) =~= k);
        }
        out
    }

    /// Whether a path leads into the inbox, both by their canonical forms; one that has none does not.
    pub fn contains(&self, root: Option<&str>, path: Option<&str>) -> (r: bool)
        ensures
            r == match (root, path) {
                (Some(d), Some(p)) => below(p@, d@) is Some,
                _ => false,
            },
    {
        match (root, path) {
            (Some(d), Some(p)) => strip_dir(p, d).is_some(),
            _ => false,
        }
    }

    /// Where a file of the inbox goes when it has been applied: to the same place below the other
    /// directory.
    pub fn done_target(&self, path: &str) -> (r: Result<String, HookError>)
        ensures
            match r {
                Ok(t) => below(path@, joined_path(self.home@, INBOX_DIR@)) is Some && t@
                    == joined_path(
                    joined_path(self.home@, DONE_DIR@),
                    joined(below(path@, joined_path(self.home@, INBOX_DIR@))->0, "/"@),
                ),
                Err(e) => below(path@, joined_path(self.home@, INBOX_DIR@)) is None && e@
                    == HookFailure::Outside(path@),
            },
    {
        let dir = self.inbox_dir();
        match strip_dir(path, dir.as_str()) {
            Some(rest) => Ok(
                join_path(self.done_dir().as_str(), text::join(&rest, "/").as_str()),
            ),
            None => Err(HookError::Outside(path.to_owned())),
        }
    }
}

/// Whether a file that was written at `modified` may go at `now`, both in nanoseconds from the start of
/// 1970 on; `retention` is how long it is kept, in milliseconds. One whose time is not known stays.
pub fn is_expired(now: i128, modified: Option<i128>, retention: u64) -> (r: bool)
    ensures
        r == match modified {
            Some(m) => m < now - retention * 1_000_000,
            None => false,
        },
{
    match (modified, now.checked_sub(retention as i128 * 1_000_000)) {
        (Some(m), Some(cutoff)) => m < cutoff,
        _ => false,
    }
}

/// `SystemTime::now` of std, as whole milliseconds since the start of 1970; 0 for a clock set before it.
/// It depends on the machine's clock alone, and nothing is said of it.
#[verifier::external_body]
fn system_millis() -> (r: u64) {
    match std::time::SystemTime::now().duration_since(std::time::UNIX_EPOCH) {
        Ok(d) => d.as_millis() as u64,
        Err(_) => 0,
    }
}

/// Milliseconds since the start of 1970, by this machine's clock.
pub fn now_unix_ms() -> u64 {
    system_millis()
}

/// A local time, with how far it is ahead of UTC in seconds.
#[derive(Clone, Copy, Debug)]
pub struct LocalTime {
    pub year: u32,
    pub month: u32,
    pub day: u32,
    pub hour: u32,
    pub minute: u32,
    pub second: u32,
    pub offset: i64,
}

/// The text of a local time, such as `2026-09-04T10:22:33+0800`.
pub open spec fn local_text(t: LocalTime) -> Seq<char> {
    let o = if t.offset < 0 {
        -t.offset
    } else {
        t.offset as int
    };
    num::padded(t.year as nat, 4) + seq!['-'] + num::padded(t.month as nat, 2) + seq!['-']
        + num::padded(t.day as nat, 2) + seq!['T'] + num::padded(t.hour as nat, 2) + seq![':']
        + num::padded(t.minute as nat, 2) + seq![':'] + num::padded(t.second as nat, 2)
        + seq![if t.offset < 0 { '-' } else { '+' }] + num::padded((o / 3600) as nat, 2)
        + num::padded((o % 3600 / 60) as nat, 2)
}

/// The text of a local time.
pub fn local_time_string(t: LocalTime) -> (out: String)
    requires
        t.offset != i64::MIN,
    ensures
        out@ == local_text(t),
{
    let o: i64 = if t.offset < 0 {
        -t.offset
    } else {
        t.offset
    };
    let mut s = num::to_padded(t.year as u64, 4);
    s.push('-');
    text::push_str(&mut s, num::to_padded(t.month as u64, 2).as_str());
    s.push('-');
    text::push_str(&mut s, num::to_padded(t.day as u64, 2).as_str());
    s.push('T');
    text::push_str(&mut s, num::to_padded(t.hour as u64, 2).as_str());
    s.push(':');
    text::push_str(&mut s, num::to_padded(t.minute as u64, 2).as_str());
    s.push(':');
    text::push_str(&mut s, num::to_padded(t.second as u64, 2).as_str());
    s.push(if t.offset < 0 { '-' } else { '+' });
    text::push_str(&mut s, num::to_padded((o / 3600) as u64, 2).as_str());
    text::push_str(&mut s, num::to_padded((o % 3600 / 60) as u64, 2).as_str());
    proof {
        assert(s@ =~= local_text(t));
    }
    s
}

/// A name of letters, digits, dots, dashes and underscores stays as it is, unless it is made of dots alone;
/// in any other each other character becomes an underscore.
pub proof fn lemma_safe_names_stay(s: Seq<char>, i: int)
    requires
        exists|k: int| 0 <= k < s.len() && (#[trigger] s[k]) != '.',
    ensures
        safe_name(s).len() == s.len(),
        0 <= i < s.len() ==> safe_name(s)[i] == (if alphanumeric(s[i]) || s[i] == '.' || s[i] == '-'
            || s[i] == '_' {
            s[i]
        } else {
            '_'
        }),
{
    let k = choose|k: int| 0 <= k < s.len() && (#[trigger] s[k]) != '.';
    let t = s.map_values(|c: char| safe_char(c));
    assert(t[k] == safe_char(s[k]));
    assert(t[k] != '.');
}

/// The time in a file's name is the one that it was written with.
pub proof fn lemma_name_tells_the_time(ms: nat, pid: nat)
    requires
        ms < 10_000_000_000_000,
    ensures
        name_seconds(file_text(ms, pid)) == Some(ms / 1000),
{
    let p = num::padded(ms, 13);
    let name = file_text(ms, pid);
    reveal_with_fuel(num::ten_to, 14);
    num::lemma_padded(ms, 13);
    num::lemma_last_digits_value(ms, 13);
    assert(name[13] == '-');
    assert(name.contains('-'));
    assert forall|i: int| 0 <= i < 13 implies #[trigger] name[i] != '-' by {
        assert(name[i] == p[i]);
        assert(num::digit(p[i]));
    }
    name.index_of_first_ensures('-');
    assert(name.index_of_first('-').unwrap() == 13);
    assert(name.take(13) =~= p);
}

/// Of what lies in a directory the files whose names end with `.json` are read, all of them and no others.
pub proof fn lemma_which_files_count(paths: Seq<Seq<char>>, p: Seq<char>)
    ensures
        json_files(paths).contains(p) <==> paths.contains(p) && is_json_file(p),
    decreases paths.len(),
{
    if paths.len() > 0 {
        let w = paths.drop_last();
        lemma_which_files_count(w, p);
        assert(w.push(paths.last()) =~= paths);
        lemma_push_has(w, paths.last(), p);
        lemma_push_has(json_files(w), paths.last(), p);
    }
}

/// Directories are trusted where each belongs to the user and lets nobody else in.
pub proof fn lemma_which_directories_are_trusted(ds: Seq<DirFacts>, me: u32, i: int)
    requires
        0 <= i <= ds.len(),
    ensures
        first_fault(ds, me, i) is None <==> forall|k: int|
            i <= k < ds.len() ==> (#[trigger] ds[k]).uid == me && ds[k].mode % 64 == 0,
    decreases ds.len() - i,
{
    if i < ds.len() {
        lemma_which_directories_are_trusted(ds, me, i + 1);
        let mode = ds[i].mode;
        assert((mode & 0o777) & 0o077 == 0 <==> mode % 64 == 0) by (bit_vector);
    }
}

/// A file in a directory is below it, and its name is what is below.
pub proof fn lemma_what_is_below(dir: Seq<char>, name: Seq<char>)
    requires
        dir.len() > 0,
        dir.last() != '/',
        name.len() > 0,
        !name.contains('/'),
        name != seq!['.'],
    ensures
        below(joined_path(dir, name), dir) == Some(seq![name]),
        below(dir, dir) == Some(Seq::<Seq<char>>::empty()),
{
    let p = joined_path(dir, name);
    if name[0] == '/' {
        assert(name.contains('/'));
    }
    assert(p =~= dir + seq!['/'] + name);
    assert(p[0] == dir[0]);
    text::lemma_split_joined(dir, '/', name);
    text::lemma_split_whole(name, '/');
    let d = split(dir, '/');
    let all = d + seq![name];
    assert(all.drop_last() =~= d);
    assert(path_parts(all) == path_parts(d).push(name));
    let q = path_parts(d);
    assert(q.push(name).take(q.len() as int) =~= q);
    assert(q.push(name).skip(q.len() as int) =~= seq![name]);
    assert(q.take(q.len() as int) =~= q);
    assert(q.skip(q.len() as int) =~= Seq::<Seq<char>>::empty());
}

/// A name tells a time only where it begins with digits and a dash, and only one that can be counted.
pub proof fn lemma_which_names_tell_a_time(digits: Seq<char>, rest: Seq<char>)
    requires
        !digits.contains('-'),
    ensures
        name_seconds(digits + seq!['-'] + rest) is Some <==> digits.len() > 0 && num::all_digits(digits)
            && num::value(digits) <= u64::MAX,
        name_seconds(digits) is None,
{
    text::lemma_parted(digits, '-', rest);
}

} // verus!
