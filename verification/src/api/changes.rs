//! What a session changed in its working directory, read from `git status`.

use crate::api::{ApiError, Refusal};
use crate::hook::cmd;
use crate::json::{self, Json, JsonView};
use crate::order;
use crate::runtime::AttachSpec;
use crate::text::{self, texts};
use vstd::prelude::*;

verus! {

/// How a file changed.
#[derive(Clone, Copy, Debug, PartialEq, Eq, Structural, PartialOrd, Ord)]
pub enum FileStatus {
    Modified,
    Added,
    Deleted,
    Renamed,
    Copied,
    Typechange,
    Unmerged,
    Untracked,
}

/// Why nothing can be listed.
#[derive(Clone, Copy, Debug, PartialEq, Eq, Structural)]
pub enum Reason {
    /// The working directory is in no repository.
    NotARepo,
    /// The session has no working directory, or it is gone.
    NoDirectory,
    /// There is no git.
    NoGit,
    /// git did not end in time.
    Timeout,
    /// git failed in another way.
    Git,
}

/// A file that changed.
#[derive(Debug, PartialEq, Eq)]
pub struct ChangedFile {
    pub path: String,
    pub status: FileStatus,
}

/// The model of a [`ChangedFile`].
pub struct Change {
    pub path: Seq<char>,
    pub status: FileStatus,
}

impl View for ChangedFile {
    type V = Change;

    open spec fn view(&self) -> Change {
        Change { path: self.path@, status: self.status }
    }
}

/// What a session changed: the files, the branch unless the head is detached, and why the list is empty
/// where nothing can be listed.
#[derive(Debug, PartialEq, Eq)]
pub struct Changes {
    pub files: Vec<ChangedFile>,
    pub branch: Option<String>,
    pub reason: Option<Reason>,
}

/// The models of a list of files.
pub open spec fn changed(v: Seq<ChangedFile>) -> Seq<Change> {
    v.map_values(|f: ChangedFile| f@)
}

impl FileStatus {
    /// The place of a status among all of them.
    pub open spec fn rank(self) -> int {
        match self {
            FileStatus::Modified => 0,
            FileStatus::Added => 1,
            FileStatus::Deleted => 2,
            FileStatus::Renamed => 3,
            FileStatus::Copied => 4,
            FileStatus::Typechange => 5,
            FileStatus::Unmerged => 6,
            FileStatus::Untracked => 7,
        }
    }

    fn place(self) -> (r: u8)
        ensures
            r == self.rank(),
    {
        match self {
            FileStatus::Modified => 0,
            FileStatus::Added => 1,
            FileStatus::Deleted => 2,
            FileStatus::Renamed => 3,
            FileStatus::Copied => 4,
            FileStatus::Typechange => 5,
            FileStatus::Unmerged => 6,
            FileStatus::Untracked => 7,
        }
    }

    /// The word for a status.
    pub fn name(self) -> (r: &'static str)
        ensures
            r@ == self.word(),
    {
        match self {
            FileStatus::Modified => "modified",
            FileStatus::Added => "added",
            FileStatus::Deleted => "deleted",
            FileStatus::Renamed => "renamed",
            FileStatus::Copied => "copied",
            FileStatus::Typechange => "typechange",
            FileStatus::Unmerged => "unmerged",
            FileStatus::Untracked => "untracked",
        }
    }

    pub open spec fn word(self) -> Seq<char> {
        match self {
            FileStatus::Modified => "modified"@,
            FileStatus::Added => "added"@,
            FileStatus::Deleted => "deleted"@,
            FileStatus::Renamed => "renamed"@,
            FileStatus::Copied => "copied"@,
            FileStatus::Typechange => "typechange"@,
            FileStatus::Unmerged => "unmerged"@,
            FileStatus::Untracked => "untracked"@,
        }
    }
}

impl Reason {
    pub open spec fn word(self) -> Seq<char> {
        match self {
            Reason::NotARepo => "not_a_repo"@,
            Reason::NoDirectory => "no_directory"@,
            Reason::NoGit => "no_git"@,
            Reason::Timeout => "timeout"@,
            Reason::Git => "git"@,
        }
    }

    /// The word for a reason.
    pub fn name(self) -> (r: &'static str)
        ensures
            r@ == self.word(),
    {
        match self {
            Reason::NotARepo => "not_a_repo",
            Reason::NoDirectory => "no_directory",
            Reason::NoGit => "no_git",
            Reason::Timeout => "timeout",
            Reason::Git => "git",
        }
    }
}

/// Whether a file is listed before another: by its path, and by its status where the paths are the same.
pub open spec fn listed_before(a: Change, b: Change) -> bool {
    order::before(a.path, b.path) || (a.path == b.path && a.status.rank() < b.status.rank())
}

/// Whether no file is listed before an earlier one.
pub open spec fn in_sequence(v: Seq<Change>) -> bool {
    forall|i: int, j: int| 0 <= i < j < v.len() ==> !listed_before(#[trigger] v[j], #[trigger] v[i])
}

/// The one status for the state of a file in the index and in the working tree: deleted where it is gone
/// from either, otherwise what the first of them that is not `.` says.
pub open spec fn status_for(xy: Seq<char>) -> FileStatus {
    let x = if xy.len() > 0 { xy[0] } else { '.' };
    let y = if xy.len() > 1 { xy[1] } else { '.' };
    let c = if x != '.' { x } else { y };
    if x == 'D' || y == 'D' {
        FileStatus::Deleted
    } else if c == 'A' {
        FileStatus::Added
    } else if c == 'R' {
        FileStatus::Renamed
    } else if c == 'C' {
        FileStatus::Copied
    } else if c == 'T' {
        FileStatus::Typechange
    } else if c == 'U' {
        FileStatus::Unmerged
    } else {
        FileStatus::Modified
    }
}

/// The first `n - 1` pieces of `s` between spaces, and the rest of it.
pub open spec fn fields(s: Seq<char>, n: nat) -> Seq<Seq<char>>
    decreases n,
{
    if n <= 1 {
        seq![s]
    } else {
        match text::parted(s, ' ') {
            Some((a, b)) => seq![a] + fields(b, (n - 1) as nat),
            None => seq![s],
        }
    }
}

/// The file that an entry of the list names: `1` for a changed file, `2` for a renamed or copied one, `u`
/// for an unmerged one, `?` for one that is not tracked. The path is the last field, and may hold spaces.
pub open spec fn change_in(e: Seq<char>) -> Option<Change> {
    if e.len() == 0 {
        None
    } else if e[0] == '1' && fields(e, 9).len() == 9 {
        Some(Change { path: fields(e, 9)[8], status: status_for(fields(e, 9)[1]) })
    } else if e[0] == '2' && fields(e, 10).len() == 10 {
        Some(Change { path: fields(e, 10)[9], status: status_for(fields(e, 10)[1]) })
    } else if e[0] == 'u' && fields(e, 11).len() == 11 {
        Some(Change { path: fields(e, 11)[10], status: FileStatus::Unmerged })
    } else if e[0] == '?' {
        match text::after_prefix(e, "? "@) {
            Some(path) => Some(Change { path, status: FileStatus::Untracked }),
            None => None,
        }
    } else {
        None
    }
}

/// The pieces of the output that are not empty.
pub open spec fn pieces(v: Seq<Seq<char>>) -> Seq<Seq<char>>
    decreases v.len(),
{
    if v.len() == 0 {
        v
    } else if v.last().len() > 0 {
        pieces(v.drop_last()).push(v.last())
    } else {
        pieces(v.drop_last())
    }
}

/// The entries among the pieces from `i` on: the piece after a renamed file is its former path, and no
/// entry.
pub open spec fn entries(v: Seq<Seq<char>>, i: int) -> Seq<Seq<char>>
    decreases v.len() + 1 - i,
{
    if i < 0 || i >= v.len() {
        Seq::empty()
    } else {
        let next = if v[i].len() > 0 && v[i][0] == '2' && change_in(v[i]) is Some {
            i + 2
        } else {
            i + 1
        };
        seq![v[i]] + entries(v, next)
    }
}

/// The files that the entries name, in their order.
pub open spec fn files_in(v: Seq<Seq<char>>) -> Seq<Change>
    decreases v.len(),
{
    if v.len() == 0 {
        Seq::empty()
    } else {
        match change_in(v.last()) {
            Some(c) => files_in(v.drop_last()).push(c),
            None => files_in(v.drop_last()),
        }
    }
}

/// The branch that the last entry about it names, unless the head is detached.
pub open spec fn branch_in(v: Seq<Seq<char>>) -> Option<Seq<char>>
    decreases v.len(),
{
    if v.len() == 0 {
        None
    } else {
        match text::after_prefix(v.last(), "# branch.head "@) {
            Some(head) => if head == "(detached)"@ {
                None
            } else {
                Some(head)
            },
            None => branch_in(v.drop_last()),
        }
    }
}

/// The entries of what `git status --porcelain=v2 --branch -z` wrote.
pub open spec fn entries_of(text: Seq<char>) -> Seq<Seq<char>> {
    entries(pieces(text::split(text, '\0')), 0)
}

/// Whether `c` is what `git status` reported: each file that the entries name, in sequence.
pub open spec fn reported(c: Changes, text: Seq<char>) -> bool {
    &&& in_sequence(changed(c.files@))
    &&& changed(c.files@).to_multiset() == files_in(entries_of(text)).to_multiset()
    &&& text::opt_text(c.branch) == branch_in(entries_of(text))
    &&& c.reason is None
}

/// Whether `c` says only why nothing can be listed.
pub open spec fn says(c: Changes, reason: Reason) -> bool {
    c.files@.len() == 0 && c.branch is None && c.reason == Some(reason)
}

fn status_of(xy: &str) -> (r: FileStatus)
    ensures
        r == status_for(xy@),
{
    let v = text::chars_of(xy);
    let x: char = if v.len() > 0 {
        v[0]
    } else {
        '.'
    };
    let y: char = if v.len() > 1 {
        v[1]
    } else {
        '.'
    };
    if x == 'D' || y == 'D' {
        return FileStatus::Deleted;
    }
    let c: char = if x != '.' {
        x
    } else {
        y
    };
    if c == 'A' {
        FileStatus::Added
    } else if c == 'R' {
        FileStatus::Renamed
    } else if c == 'C' {
        FileStatus::Copied
    } else if c == 'T' {
        FileStatus::Typechange
    } else if c == 'U' {
        FileStatus::Unmerged
    } else {
        FileStatus::Modified
    }
}

/// The first `n - 1` pieces of `s` between spaces, and the rest of it.
fn fields_of(s: &str, n: usize) -> (out: Vec<String>)
    requires
        n >= 1,
    ensures
        texts(out@) == fields(s@, n as nat),
{
    let mut out: Vec<String> = Vec::new();
    let mut rest = s.to_owned();
    let mut k: usize = n;
    proof {
        assert(texts(out@) + fields(rest@, k as nat) =~= fields(s@, n as nat));
    }
    while k > 1
        invariant
            1 <= k <= n,
            texts(out@) + fields(rest@, k as nat) == fields(s@, n as nat),
        decreases k,
    {
        let ghost was = texts(out@);
        match text::split_once(rest.as_str(), ' ') {
            Some((a, b)) => {
                out.push(a);
                proof {
                    assert(texts(out@) =~= was.push(a@));
                    assert(was + (seq![a@] + fields(b@, (k - 1) as nat)) =~= texts(out@) + fields(
                        b@,
                        (k - 1) as nat,
                    ));
                }
                rest = b;
                k -= 1;
            },
            None => {
                let ghost last = rest@;
                out.push(rest);
                proof {
                    assert(texts(out@) =~= was + seq![last]);
                }
                return out;
            },
        }
    }
    let ghost was = texts(out@);
    let ghost last = rest@;
    out.push(rest);
    proof {
        assert(texts(out@) =~= was + seq![last]);
    }
    out
}

/// A file with the path in the field `at` of an entry of `at + 1` fields.
fn file_at(e: &str, at: usize) -> (r: Option<ChangedFile>)
    requires
        1 < at < 100,
    ensures
        match r {
            Some(f) => fields(e@, (at + 1) as nat).len() == at + 1 && f@ == (Change {
                path: fields(e@, (at + 1) as nat)[at as int],
                status: status_for(fields(e@, (at + 1) as nat)[1]),
            }),
            None => fields(e@, (at + 1) as nat).len() != at + 1,
        },
{
    let f = fields_of(e, at + 1);
    proof {
        assert(texts(f@).len() == f@.len());
    }
    if f.len() != at + 1 {
        return None;
    }
    proof {
        assert(texts(f@)[at as int] == f@[at as int]@);
        assert(texts(f@)[1] == f@[1]@);
    }
    let status = status_of(f[1].as_str());
    Some(ChangedFile { path: f[at].clone(), status })
}

/// The file that an entry names.
fn file_in(e: &str) -> (r: Option<ChangedFile>)
    ensures
        match r {
            Some(f) => change_in(e@) == Some(f@),
            None => change_in(e@) is None,
        },
{
    let v = text::chars_of(e);
    if v.len() == 0 {
        return None;
    }
    if v[0] == '1' {
        file_at(e, 8)
    } else if v[0] == '2' {
        file_at(e, 9)
    } else if v[0] == 'u' {
        match file_at(e, 10) {
            Some(f) => Some(ChangedFile { path: f.path, status: FileStatus::Unmerged }),
            None => None,
        }
    } else if v[0] == '?' {
        match text::strip_prefix(e, "? ") {
            Some(path) => Some(ChangedFile { path, status: FileStatus::Untracked }),
            None => None,
        }
    } else {
        None
    }
}

/// The pieces that are not empty.
fn pieces_of(v: Vec<String>) -> (out: Vec<String>)
    ensures
        texts(out@) == pieces(texts(v@)),
{
    let mut out: Vec<String> = Vec::new();
    let mut i: usize = 0;
    let ghost all = texts(v@);
    proof {
        assert(all.take(0) =~= Seq::<Seq<char>>::empty());
        assert(texts(out@) =~= pieces(all.take(0)));
    }
    while i < v.len()
        invariant
            all == texts(v@),
            i <= v@.len(),
            texts(out@) == pieces(all.take(i as int)),
        decreases v@.len() - i,
    {
        let ghost was = texts(out@);
        proof {
            assert(all.take(i + 1).drop_last() =~= all.take(i as int));
            assert(all.take(i + 1).last() == v@[i as int]@);
        }
        if !text::is_empty(v[i].as_str()) {
            out.push(v[i].clone());
            proof {
                assert(texts(out@) =~= was.push(v@[i as int]@));
            }
        }
        i += 1;
    }
    proof {
        assert(all.take(i as int) =~= all);
    }
    out
}

/// The entries among the pieces.
fn entries_among(v: Vec<String>) -> (out: Vec<String>)
    ensures
        texts(out@) == entries(texts(v@), 0),
{
    let mut out: Vec<String> = Vec::new();
    let mut i: usize = 0;
    let ghost all = texts(v@);
    proof {
        assert(texts(out@) + entries(all, 0) =~= entries(all, 0));
    }
    while i < v.len()
        invariant
            all == texts(v@),
            texts(out@) + entries(all, i as int) == entries(all, 0),
        decreases v@.len() - i,
    {
        let ghost was = texts(out@);
        let e = v[i].as_str();
        proof {
            assert(all[i as int] == v@[i as int]@);
        }
        let x = text::chars_of(e);
        let renamed = x.len() > 0 && x[0] == '2' && file_in(e).is_some();
        out.push(e.to_owned());
        proof {
            let next = if renamed { i + 2 } else { i + 1 };
            assert(texts(out@) =~= was.push(e@));
            assert(was + (seq![e@] + entries(all, next)) =~= texts(out@) + entries(all, next));
        }
        if renamed && i + 1 < v.len() {
            i += 2;
        } else {
            proof {
                if renamed {
                    assert(entries(all, i + 2) =~= entries(all, i + 1));
                }
            }
            i += 1;
        }
    }
    proof {
        assert(entries(all, i as int) =~= Seq::<Seq<char>>::empty());
        assert(texts(out@) + Seq::<Seq<char>>::empty() =~= texts(out@));
    }
    out
}

/// Whether a file is listed before another.
fn goes_before(a: &ChangedFile, b: &ChangedFile) -> (r: bool)
    ensures
        r == listed_before(a@, b@),
{
    if text::same(a.path.as_str(), b.path.as_str()) {
        proof {
            order::lemma_before_total(a.path@, b.path@);
        }
        a.status.place() < b.status.place()
    } else {
        order::comes_before(a.path.as_str(), b.path.as_str())
    }
}

proof fn lemma_listed_transitive(a: Change, b: Change, c: Change)
    requires
        !listed_before(b, a),
        !listed_before(c, b),
    ensures
        !listed_before(c, a),
{
    order::lemma_before_total(a.path, b.path);
    order::lemma_before_total(b.path, c.path);
    order::lemma_before_total(a.path, c.path);
    if order::before(a.path, b.path) && order::before(b.path, c.path) {
        order::lemma_before_transitive(a.path, b.path, c.path);
    }
}

/// Puts a file where it belongs in the sequence.
fn enlist(v: &mut Vec<ChangedFile>, f: ChangedFile)
    requires
        in_sequence(changed(old(v)@)),
    ensures
        in_sequence(changed(final(v)@)),
        changed(final(v)@).to_multiset() == changed(old(v)@).push(f@).to_multiset(),
{
    let ghost s = changed(v@);
    let mut k: usize = v.len();
    while k > 0 && goes_before(&f, &v[k - 1])
        invariant
            k <= v@.len(),
            s == changed(v@),
            forall|j: int| k <= j < s.len() ==> listed_before(f@, #[trigger] s[j]),
        decreases k,
    {
        k -= 1;
        proof {
            assert(s[k as int] == v@[k as int]@);
        }
    }
    proof {
        assert(in_sequence(s));
        let t = s.insert(k as int, f@);
        assert forall|i: int| 0 <= i < k implies !listed_before(f@, #[trigger] s[i]) by {
            assert(s[k - 1] == v@[k - 1]@);
            assert(!listed_before(f@, s[k - 1]));
            if i < k - 1 {
                assert(!listed_before(s[k - 1], s[i]));
                lemma_listed_transitive(s[i], s[k - 1], f@);
            }
        }
        assert forall|i: int, j: int| 0 <= i < j < t.len() implies !listed_before(
            #[trigger] t[j],
            #[trigger] t[i],
        ) by {
            let a = if i < k { s[i] } else if i == k { f@ } else { s[i - 1] };
            let b = if j < k { s[j] } else if j == k { f@ } else { s[j - 1] };
            if i == k {
                assert(listed_before(f@, s[j - 1]));
                order::lemma_before_total(f@.path, s[j - 1].path);
            }
        }
        vstd::seq_lib::to_multiset_insert(s, k as int, f@);
        vstd::seq_lib::to_multiset_insert(s, s.len() as int, f@);
        assert(s.insert(s.len() as int, f@) =~= s.push(f@));
    }
    let ghost g = f@;
    v.insert(k, f);
    proof {
        assert(changed(v@) =~= s.insert(k as int, g));
    }
}

/// Reads what `git status --porcelain=v2 --branch -z` wrote.
pub fn parse_porcelain_v2(text: &str) -> (r: Changes)
    ensures
        reported(r, text@),
{
    let es = entries_among(pieces_of(text::split_char(text, '\0')));
    let ghost all = entries_of(text@);
    let mut files: Vec<ChangedFile> = Vec::new();
    let mut branch: Option<String> = None;
    let mut i: usize = 0;
    proof {
        assert(all.take(0) =~= Seq::<Seq<char>>::empty());
        assert(changed(files@) =~= files_in(all.take(0)));
    }
    while i < es.len()
        invariant
            all == entries_of(text@),
            texts(es@) == all,
            i <= es@.len(),
            in_sequence(changed(files@)),
            changed(files@).to_multiset() == files_in(all.take(i as int)).to_multiset(),
            text::opt_text(branch) == branch_in(all.take(i as int)),
        decreases es@.len() - i,
    {
        let e = es[i].as_str();
        proof {
            assert(all.take(i + 1).drop_last() =~= all.take(i as int));
            assert(all.take(i + 1).last() == e@);
        }
        match text::strip_prefix(e, "# branch.head ") {
            Some(head) => {
                branch = if text::same(head.as_str(), "(detached)") {
                    None
                } else {
                    Some(head)
                };
            },
            None => {},
        }
        match file_in(e) {
            Some(f) => {
                let ghost was = changed(files@);
                let ghost listed = files_in(all.take(i as int));
                proof {
                    vstd::seq_lib::to_multiset_insert(was, was.len() as int, f@);
                    vstd::seq_lib::to_multiset_insert(listed, listed.len() as int, f@);
                    assert(was.insert(was.len() as int, f@) =~= was.push(f@));
                    assert(listed.insert(listed.len() as int, f@) =~= listed.push(f@));
                }
                enlist(&mut files, f);
            },
            None => {},
        }
        i += 1;
    }
    proof {
        assert(all.take(i as int) =~= all);
    }
    Changes { files, branch, reason: None }
}

impl Changes {
    /// Nothing, and why.
    pub fn empty(reason: Reason) -> (r: Changes)
        ensures
            says(r, reason),
    {
        Changes { files: Vec::new(), branch: None, reason: Some(reason) }
    }

    /// The answer that tells of the changes.
    pub fn to_json(&self) -> (r: Json)
        ensures
            r@ == whole(*self),
    {
        let branch = match &self.branch {
            Some(b) => Json::Str(b.clone()),
            None => Json::Null,
        };
        let reason = match self.reason {
            Some(why) => json::string(why.name()),
            None => Json::Null,
        };
        let ghost want = all_told(changed(self.files@));
        let mut files: Vec<Json> = Vec::new();
        let mut i: usize = 0;
        proof {
            assert(json::views(files@) =~= want.take(0));
        }
        while i < self.files.len()
            invariant
                i <= self.files@.len(),
                want == all_told(changed(self.files@)),
                json::views(files@) == want.take(i as int),
            decreases self.files@.len() - i,
        {
            let f = &self.files[i];
            let row = json::object2(
                "path",
                Json::Str(f.path.clone()),
                "status",
                json::string(f.status.name()),
            );
            let ghost was = files@;
            files.push(row);
            proof {
                assert(files@.drop_last() =~= was);
                assert(changed(self.files@)[i as int] == f@);
                assert(want.take(i + 1) =~= want.take(i as int).push(want[i as int]));
            }
            i += 1;
        }
        proof {
            assert(want.take(i as int) =~= want);
        }
        let r = json::with(
            json::object2("branch", branch, "files", Json::Array(files)),
            "reason",
            reason,
        );
        proof {
            assert(r@->Object_0 =~= whole(*self)->Object_0);
        }
        r
    }
}

/// How changes are told of.
pub open spec fn whole(c: Changes) -> JsonView {
    JsonView::Object(
        seq![
            (
                "branch"@,
                match c.branch {
                    Some(b) => JsonView::Str(b@),
                    None => JsonView::Null,
                },
            ),
            ("files"@, JsonView::Array(all_told(changed(c.files@)))),
            (
                "reason"@,
                match c.reason {
                    Some(why) => JsonView::Str(why.word()),
                    None => JsonView::Null,
                },
            ),
        ],
    )
}

/// How the files that changed are told of.
pub open spec fn all_told(v: Seq<Change>) -> Seq<JsonView> {
    v.map_values(|f: Change| told(f))
}

/// How a file that changed is told of.
pub open spec fn told(f: Change) -> JsonView {
    JsonView::Object(
        seq![("path"@, JsonView::Str(f.path)), ("status"@, JsonView::Str(f.status.word()))],
    )
}

/// How a run of git ended.
#[derive(Debug, PartialEq, Eq)]
pub enum GitRun {
    /// There is no such program.
    NotFound,
    /// It did not end in time.
    TimedOut,
    /// It could not be run, or its output not read.
    Failed,
    /// It ended with a code, or by a signal, and wrote this.
    Exited { code: Option<i32>, stdout: Vec<u8> },
}

/// The command line that lists the changes in `cwd`.
pub open spec fn status_command(cwd: Seq<char>) -> Seq<Seq<char>> {
    seq!["git"@, "-C"@, cwd, "status"@, "--porcelain=v2"@, "--branch"@, "-z"@]
}

/// What to run to list the changes in the working directory of a session, or the answer where there is no
/// such directory. `is_dir` says whether the directory is there.
pub fn status_of_directory(cwd: Option<&str>, is_dir: bool) -> (r: Result<Vec<String>, Changes>)
    ensures
        match r {
            Ok(argv) => cwd is Some && is_dir && texts(argv@) == status_command(cwd->Some_0@),
            Err(c) => (cwd is None || !is_dir) && says(c, Reason::NoDirectory),
        },
{
    match cwd {
        Some(d) => {
            if !is_dir {
                return Err(Changes::empty(Reason::NoDirectory));
            }
            let argv = vec![
                "git".to_owned(),
                "-C".to_owned(),
                d.to_owned(),
                "status".to_owned(),
                "--porcelain=v2".to_owned(),
                "--branch".to_owned(),
                "-z".to_owned(),
            ];
            proof {
                assert(texts(argv@) =~= status_command(d@));
            }
            Ok(argv)
        },
        None => Err(Changes::empty(Reason::NoDirectory)),
    }
}

/// Whether `c` is what a run of `git status` comes to.
pub open spec fn comes_to(run: GitRun, c: Changes) -> bool {
    match run {
        GitRun::NotFound => says(c, Reason::NoGit),
        GitRun::TimedOut => says(c, Reason::Timeout),
        GitRun::Failed => says(c, Reason::Git),
        GitRun::Exited { code, stdout } => if code == Some(0i32) {
            reported(c, cmd::lossy(stdout@))
        } else if code == Some(128i32) {
            says(c, Reason::NotARepo)
        } else {
            says(c, Reason::Git)
        },
    }
}

/// What a run of `git status` comes to.
pub fn status_from(run: &GitRun) -> (r: Changes)
    ensures
        comes_to(*run, r),
{
    match run {
        GitRun::NotFound => Changes::empty(Reason::NoGit),
        GitRun::TimedOut => Changes::empty(Reason::Timeout),
        GitRun::Failed => Changes::empty(Reason::Git),
        GitRun::Exited { code, stdout } => match *code {
            Some(0) => {
                let text = cmd::lossy_text(stdout);
                parse_porcelain_v2(text.as_str())
            },
            Some(128) => Changes::empty(Reason::NotARepo),
            _ => Changes::empty(Reason::Git),
        },
    }
}

/// The command line that shows the changes in `cwd` since the last commit.
pub open spec fn diff_command(cwd: Seq<char>) -> Seq<Seq<char>> {
    seq!["git"@, "-C"@, cwd, "--no-pager"@, "diff"@, "--color=always"@, "HEAD"@]
}

/// What a session without a working directory is answered.
pub open spec fn no_directory(id: Seq<char>) -> Refusal {
    Refusal {
        status: 409,
        kind: "no_directory"@,
        message: "会话 "@ + id + " 没有工作目录，没有可 diff 的仓库"@,
    }
}

/// The terminal that shows the changes of the session `id`: it only reads, and no pager holds it.
pub fn diff_spec(id: &str, working_directory: Option<&str>) -> (r: Result<AttachSpec, ApiError>)
    ensures
        match r {
            Ok(spec) => working_directory is Some && texts(spec.argv@) == diff_command(
                working_directory->Some_0@,
            ) && spec.env@.len() == 2 && spec.env@[0].0@ == "GIT_PAGER"@ && spec.env@[0].1@ == "cat"@
                && spec.env@[1].0@ == "PAGER"@ && spec.env@[1].1@ == "cat"@,
            Err(e) => working_directory is None && e@ == no_directory(id@),
        },
{
    match working_directory {
        Some(d) => {
            let argv = vec![
                "git".to_owned(),
                "-C".to_owned(),
                d.to_owned(),
                "--no-pager".to_owned(),
                "diff".to_owned(),
                "--color=always".to_owned(),
                "HEAD".to_owned(),
            ];
            proof {
                assert(texts(argv@) =~= diff_command(d@));
            }
            let env = vec![
                ("GIT_PAGER".to_owned(), "cat".to_owned()),
                ("PAGER".to_owned(), "cat".to_owned()),
            ];
            Ok(AttachSpec { argv, env })
        },
        None => Err(
            ApiError {
                status: 409,
                kind: "no_directory",
                message: text::cat3("会话 ", id, " 没有工作目录，没有可 diff 的仓库"),
            },
        ),
    }
}

/// The list is fixed by what `git status` wrote: two lists of the same files in sequence are the same list.
pub proof fn lemma_list_is_fixed(a: Seq<Change>, b: Seq<Change>)
    requires
        in_sequence(a),
        in_sequence(b),
        a.to_multiset() == b.to_multiset(),
    ensures
        a == b,
    decreases a.len(),
{
    a.to_multiset_ensures();
    b.to_multiset_ensures();
    if a.len() == 0 {
        assert(a =~= b);
    } else {
        let x = a.last();
        let y = b.last();
        assert(a.contains(x));
        assert(b.contains(y));
        assert(b.to_multiset().count(x) > 0);
        assert(a.to_multiset().count(y) > 0);
        assert(b.contains(x) && a.contains(y));
        let i = b.index_of(x);
        let j = a.index_of(y);
        if i < b.len() - 1 {
            assert(!listed_before(b[b.len() - 1], b[i]));
        }
        if j < a.len() - 1 {
            assert(!listed_before(a[a.len() - 1], a[j]));
        }
        order::lemma_before_total(x.path, y.path);
        assert(x.path == y.path && x.status == y.status);
        assert(a.remove(a.len() - 1) =~= a.drop_last());
        assert(b.remove(b.len() - 1) =~= b.drop_last());
        assert(a.drop_last().to_multiset() =~= a.to_multiset().remove(x));
        assert(b.drop_last().to_multiset() =~= b.to_multiset().remove(y));
        lemma_list_is_fixed(a.drop_last(), b.drop_last());
        assert(a =~= a.drop_last().push(x));
        assert(b =~= b.drop_last().push(y));
    }
}

/// Whether the walk over the pieces from `i` on ends with the last of them: none is missing behind the
/// entry of a renamed file.
pub open spec fn walks_out(v: Seq<Seq<char>>, i: int) -> bool
    decreases v.len() + 1 - i,
{
    if i < 0 || i >= v.len() {
        i == v.len()
    } else if v[i].len() > 0 && v[i][0] == '2' && change_in(v[i]) is Some {
        walks_out(v, i + 2)
    } else {
        walks_out(v, i + 1)
    }
}

/// Whether a text is made of whole entries: each ends with a NUL, and each that a former path belongs to
/// has it.
pub open spec fn whole_entries(text: Seq<char>) -> bool {
    (text.len() == 0 || text.last() == '\0') && walks_out(pieces(text::split(text, '\0')), 0)
}

/// Whether no entry is about the branch.
pub open spec fn is_branchless(text: Seq<char>) -> bool {
    forall|i: int|
        0 <= i < entries_of(text).len() ==> text::after_prefix(
            #[trigger] entries_of(text)[i],
            "# branch.head "@,
        ) is None
}

proof fn lemma_split_behind(a: Seq<char>, b: Seq<char>)
    requires
        a.len() > 0,
        a.last() == '\0',
    ensures
        text::split(a + b, '\0') == text::split(a, '\0').drop_last() + text::split(b, '\0'),
    decreases b.len(),
{
    let x = text::split(a, '\0');
    if b.len() == 0 {
        assert(a + b =~= a);
        assert(x =~= text::split(a.drop_last(), '\0').push(Seq::empty()));
        assert(x.drop_last() + seq![Seq::<char>::empty()] =~= x);
    } else {
        let c = b.drop_last();
        lemma_split_behind(a, c);
        assert((a + b).drop_last() =~= a + c);
        assert((a + b).last() == b.last());
        let r = text::split(c, '\0');
        text::lemma_split_nonempty(c, '\0');
        let t = x.drop_last() + r;
        assert(t.last() == r.last());
        if b.last() == '\0' {
            assert(t.push(Seq::empty()) =~= x.drop_last() + r.push(Seq::empty()));
        } else {
            assert(t.drop_last().push(r.last().push(b.last())) =~= x.drop_last()
                + r.drop_last().push(r.last().push(b.last())));
        }
    }
}

proof fn lemma_pieces_behind(a: Seq<Seq<char>>, b: Seq<Seq<char>>)
    ensures
        pieces(a + b) == pieces(a) + pieces(b),
    decreases b.len(),
{
    if b.len() == 0 {
        assert(a + b =~= a);
        assert(pieces(a) + pieces(b) =~= pieces(a));
    } else {
        lemma_pieces_behind(a, b.drop_last());
        assert((a + b).drop_last() =~= a + b.drop_last());
        assert((a + b).last() == b.last());
        let r = pieces(b.drop_last());
        assert((pieces(a) + r).push(b.last()) =~= pieces(a) + r.push(b.last()));
    }
}

proof fn lemma_entries_later(a: Seq<Seq<char>>, b: Seq<Seq<char>>, i: int)
    requires
        0 <= i <= b.len() + 1,
    ensures
        entries(a + b, a.len() + i) == entries(b, i),
    decreases b.len() + 1 - i,
{
    let v = a + b;
    if i < b.len() {
        assert(v[a.len() + i] == b[i]);
        let next = if b[i].len() > 0 && b[i][0] == '2' && change_in(b[i]) is Some {
            i + 2
        } else {
            i + 1
        };
        lemma_entries_later(a, b, next);
        assert(entries(v, a.len() + i) =~= seq![b[i]] + entries(v, a.len() + next));
    } else {
        assert(entries(v, a.len() + i) =~= Seq::<Seq<char>>::empty());
        assert(entries(b, i) =~= Seq::<Seq<char>>::empty());
    }
}

proof fn lemma_entries_behind(a: Seq<Seq<char>>, b: Seq<Seq<char>>, i: int)
    requires
        0 <= i <= a.len() + 1,
        walks_out(a, i),
    ensures
        entries(a + b, i) == entries(a, i) + entries(b, 0),
    decreases a.len() + 1 - i,
{
    let v = a + b;
    if i < a.len() {
        assert(v[i] == a[i]);
        let next = if a[i].len() > 0 && a[i][0] == '2' && change_in(a[i]) is Some {
            i + 2
        } else {
            i + 1
        };
        lemma_entries_behind(a, b, next);
        assert(entries(v, i) =~= seq![a[i]] + entries(v, next));
        assert(seq![a[i]] + (entries(a, next) + entries(b, 0)) =~= (seq![a[i]] + entries(a, next))
            + entries(b, 0));
    } else {
        lemma_entries_later(a, b, 0);
        assert(entries(a, i) + entries(b, 0) =~= entries(b, 0));
    }
}

proof fn lemma_files_behind(a: Seq<Seq<char>>, b: Seq<Seq<char>>)
    ensures
        files_in(a + b) == files_in(a) + files_in(b),
    decreases b.len(),
{
    if b.len() == 0 {
        assert(a + b =~= a);
        assert(files_in(a) + files_in(b) =~= files_in(a));
    } else {
        lemma_files_behind(a, b.drop_last());
        assert((a + b).drop_last() =~= a + b.drop_last());
        assert((a + b).last() == b.last());
        match change_in(b.last()) {
            Some(c) => {
                let r = files_in(b.drop_last());
                assert((files_in(a) + r).push(c) =~= files_in(a) + r.push(c));
            },
            None => {},
        }
    }
}

proof fn lemma_no_branch(v: Seq<Seq<char>>)
    requires
        forall|i: int|
            0 <= i < v.len() ==> text::after_prefix(#[trigger] v[i], "# branch.head "@) is None,
    ensures
        branch_in(v) is None,
    decreases v.len(),
{
    if v.len() > 0 {
        assert(text::after_prefix(v[v.len() - 1], "# branch.head "@) is None);
        assert forall|i: int| 0 <= i < v.drop_last().len() implies text::after_prefix(
            #[trigger] v.drop_last()[i],
            "# branch.head "@,
        ) is None by {
            assert(v.drop_last()[i] == v[i]);
        }
        lemma_no_branch(v.drop_last());
    }
}

/// The entries of two outputs that stand one behind the other are those of each.
pub proof fn lemma_entries_put_together(a: Seq<char>, b: Seq<char>)
    requires
        whole_entries(a),
    ensures
        entries_of(a + b) == entries_of(a) + entries_of(b),
{
    let p = pieces(text::split(a, '\0'));
    let q = pieces(text::split(b, '\0'));
    if a.len() == 0 {
        assert(a + b =~= b);
        assert(text::split(a, '\0') =~= seq![Seq::<char>::empty()]);
        reveal_with_fuel(pieces, 2);
        assert(p =~= Seq::<Seq<char>>::empty());
        assert(entries(p, 0) + entries(q, 0) =~= entries(q, 0));
    } else {
        let x = text::split(a, '\0');
        lemma_split_behind(a, b);
        assert(x =~= text::split(a.drop_last(), '\0').push(Seq::empty()));
        assert(x.last().len() == 0);
        assert(pieces(x.drop_last()) == p);
        lemma_pieces_behind(x.drop_last(), text::split(b, '\0'));
        lemma_entries_behind(p, q, 0);
    }
}

/// The list for two outputs of whole entries put together, in whichever order, is the list of the files of
/// both, with none left out and none taken twice, in sequence; without an entry about the branch there is
/// none in it.
pub proof fn lemma_lists_put_together(
    a: Seq<char>,
    b: Seq<char>,
    of_a: Changes,
    of_b: Changes,
    of_ab: Changes,
    of_ba: Changes,
)
    requires
        whole_entries(a),
        whole_entries(b),
        is_branchless(a),
        is_branchless(b),
        reported(of_a, a),
        reported(of_b, b),
        reported(of_ab, a + b),
        reported(of_ba, b + a),
    ensures
        changed(of_ab.files@) == changed(of_ba.files@),
        in_sequence(changed(of_ab.files@)),
        changed(of_ab.files@).to_multiset() == changed(of_a.files@).to_multiset().add(
            changed(of_b.files@).to_multiset(),
        ),
        of_a.branch is None && of_b.branch is None && of_ab.branch is None && of_ba.branch is None,
        of_a.reason is None && of_b.reason is None && of_ab.reason is None && of_ba.reason is None,
{
    let x = entries_of(a);
    let y = entries_of(b);
    lemma_entries_put_together(a, b);
    lemma_entries_put_together(b, a);
    lemma_files_behind(x, y);
    lemma_files_behind(y, x);
    vstd::seq_lib::lemma_multiset_commutative(files_in(x), files_in(y));
    vstd::seq_lib::lemma_multiset_commutative(files_in(y), files_in(x));
    assert(files_in(x + y).to_multiset() =~= files_in(y + x).to_multiset());
    lemma_list_is_fixed(changed(of_ab.files@), changed(of_ba.files@));
    lemma_no_branch(x);
    lemma_no_branch(y);
    assert forall|i: int| 0 <= i < (x + y).len() implies text::after_prefix(
        #[trigger] (x + y)[i],
        "# branch.head "@,
    ) is None by {
        if i < x.len() {
            assert((x + y)[i] == x[i]);
        } else {
            assert((x + y)[i] == y[i - x.len()]);
        }
    }
    lemma_no_branch(x + y);
    assert forall|i: int| 0 <= i < (y + x).len() implies text::after_prefix(
        #[trigger] (y + x)[i],
        "# branch.head "@,
    ) is None by {
        if i < y.len() {
            assert((y + x)[i] == y[i]);
        } else {
            assert((y + x)[i] == x[i - y.len()]);
        }
    }
    lemma_no_branch(y + x);
}

/// Words with a blank behind each, and then a path.
pub open spec fn spaced(v: Seq<Seq<char>>, path: Seq<char>) -> Seq<char>
    decreases v.len(),
{
    if v.len() == 0 {
        path
    } else {
        v[0] + seq![' '] + spaced(v.skip(1), path)
    }
}

proof fn lemma_fields(v: Seq<Seq<char>>, path: Seq<char>)
    requires
        forall|i: int| 0 <= i < v.len() ==> !(#[trigger] v[i]).contains(' '),
    ensures
        fields(spaced(v, path), v.len() + 1) == v.push(path),
    decreases v.len(),
{
    if v.len() == 0 {
        assert(v.push(path) =~= seq![path]);
    } else {
        let w = v.skip(1);
        assert forall|i: int| 0 <= i < w.len() implies !(#[trigger] w[i]).contains(' ') by {
            assert(w[i] == v[i + 1]);
        }
        lemma_fields(w, path);
        text::lemma_parted(v[0], ' ', spaced(w, path));
        assert(seq![v[0]] + w.push(path) =~= v.push(path));
    }
}

/// A change is read from its line: the path is all that stands behind the words, blanks and all, and the two
/// letters tell what became of it. A line of any other kind tells of no change.
pub proof fn lemma_changes_are_read(v: Seq<Seq<char>>, path: Seq<char>)
    requires
        forall|i: int| 0 <= i < v.len() ==> !(#[trigger] v[i]).contains(' '),
    ensures
        v.len() == 8 && v[0] == seq!['1'] ==> change_in(spaced(v, path)) == Some(
            Change { path, status: status_for(v[1]) },
        ),
        v.len() == 9 && v[0] == seq!['2'] ==> change_in(spaced(v, path)) == Some(
            Change { path, status: status_for(v[1]) },
        ),
        v.len() == 10 && v[0] == seq!['u'] ==> change_in(spaced(v, path)) == Some(
            Change { path, status: FileStatus::Unmerged },
        ),
        change_in(seq!['?', ' '] + path) == Some(Change { path, status: FileStatus::Untracked }),
        change_in(seq!['#', ' '] + path) is None,
        change_in(seq!['!', ' '] + path) is None,
{
    lemma_fields(v, path);
    if v.len() > 0 {
        assert(spaced(v, path)[0] == (v[0] + seq![' '])[0]);
    }
    reveal_strlit("? ");
    let q = seq!['?', ' '] + path;
    assert("? "@ =~= seq!['?', ' ']);
    assert(q.subrange(0, 2) =~= "? "@);
    assert(q.skip(2) =~= path);
}

/// Of the two letters the one for what is staged counts before the other, a dot counts for nothing, and what
/// is gone on either side is gone. Each letter has one meaning.
pub proof fn lemma_letters_of_a_change(x: char, y: char)
    ensures
        status_for(seq!['D', y]) == FileStatus::Deleted,
        status_for(seq![x, 'D']) == FileStatus::Deleted,
        x != '.' && y != 'D' ==> status_for(seq![x, y]) == status_for(seq![x, '.']),
        status_for(seq!['.', y]) == status_for(seq![y, '.']),
        status_for(seq![x, '.']) == FileStatus::Added <==> x == 'A',
        status_for(seq![x, '.']) == FileStatus::Deleted <==> x == 'D',
        status_for(seq![x, '.']) == FileStatus::Renamed <==> x == 'R',
        status_for(seq![x, '.']) == FileStatus::Copied <==> x == 'C',
        status_for(seq![x, '.']) == FileStatus::Typechange <==> x == 'T',
        status_for(seq![x, '.']) == FileStatus::Unmerged <==> x == 'U',
        status_for(seq![x, '.']) != FileStatus::Untracked,
{
}

/// The branch is the one that the last line about it names, and there is none where it names none.
pub proof fn lemma_the_branch(v: Seq<Seq<char>>, head: Seq<char>)
    ensures
        branch_in(v.push("# branch.head "@ + head)) == (if head == "(detached)"@ {
            None
        } else {
            Some(head)
        }),
        branch_in(Seq::empty()) is None,
{
    let p = "# branch.head "@;
    let l = p + head;
    assert(v.push(l).drop_last() =~= v);
    assert(l.subrange(0, p.len() as int) =~= p);
    assert(l.skip(p.len() as int) =~= head);
}

/// Every kind of change has a word and a rank of its own.
pub proof fn lemma_kinds_of_change_are_told_apart(a: FileStatus, b: FileStatus)
    ensures
        a.word() == b.word() ==> a == b,
        a.rank() == b.rank() ==> a == b,
{
    reveal_strlit("modified");
    assert("modified"@.len() == 8 && "modified"@[0] == 'm' && "modified"@[2] == 'd');
    reveal_strlit("added");
    assert("added"@.len() == 5 && "added"@[0] == 'a' && "added"@[2] == 'd');
    reveal_strlit("deleted");
    assert("deleted"@.len() == 7 && "deleted"@[0] == 'd' && "deleted"@[2] == 'l');
    reveal_strlit("renamed");
    assert("renamed"@.len() == 7 && "renamed"@[0] == 'r' && "renamed"@[2] == 'n');
    reveal_strlit("copied");
    assert("copied"@.len() == 6 && "copied"@[0] == 'c' && "copied"@[2] == 'p');
    reveal_strlit("typechange");
    assert("typechange"@.len() == 10 && "typechange"@[0] == 't' && "typechange"@[2] == 'p');
    reveal_strlit("unmerged");
    assert("unmerged"@.len() == 8 && "unmerged"@[0] == 'u' && "unmerged"@[2] == 'm');
    reveal_strlit("untracked");
    assert("untracked"@.len() == 9 && "untracked"@[0] == 'u' && "untracked"@[2] == 't');
}

/// Changes are listed by their paths, and those of one path by their kinds.
pub proof fn lemma_how_changes_are_listed(v: Seq<Change>, i: int, j: int)
    requires
        in_sequence(v),
        0 <= i < j < v.len(),
    ensures
        !order::before(v[j].path, v[i].path),
        v[i].path == v[j].path ==> v[i].status.rank() <= v[j].status.rank(),
{
    assert(!listed_before(v[j], v[i]));
}

/// What `git` says is told only where it ended well; else the list is empty and says why: that there is no
/// repository, no `git`, that it took too long, or that it failed.
pub proof fn lemma_why_there_are_no_changes(run: GitRun, c: Changes)
    requires
        comes_to(run, c),
    ensures
        c.reason is None <==> (run matches GitRun::Exited { code, .. } && code == Some(0i32)),
        c.reason is Some ==> c.files@.len() == 0 && c.branch is None,
        c.reason == Some(Reason::NotARepo) <==> (run matches GitRun::Exited { code, .. } && code == Some(
            128i32,
        )),
        c.reason == Some(Reason::NoGit) <==> run is NotFound,
        c.reason == Some(Reason::Timeout) <==> run is TimedOut,
{
}

/// The list is told with its branch, its files in their order, and why it is empty.
pub proof fn lemma_how_a_list_is_told(c: Changes, i: int)
    requires
        0 <= i < c.files@.len(),
    ensures
        json::member_str(whole(c), "branch"@) == text::opt_text(c.branch),
        json::member(whole(c), "files"@) matches Some(JsonView::Array(s)) && s.len() == c.files@.len()
            && json::member_str(s[i], "path"@) == Some(c.files@[i].path@) && json::member_str(
            s[i],
            "status"@,
        ) == Some(c.files@[i].status.word()),
        json::member_str(whole(c), "reason"@) == (match c.reason {
            Some(why) => Some(why.word()),
            None => None,
        }),
{
    reveal_strlit("branch");
    assert("branch"@.len() == 6 && "branch"@[0] == 'b');
    reveal_strlit("files");
    assert("files"@.len() == 5 && "files"@[0] == 'f');
    reveal_strlit("reason");
    assert("reason"@.len() == 6 && "reason"@[0] == 'r');
    reveal_strlit("path");
    assert("path"@.len() == 4 && "path"@[0] == 'p');
    reveal_strlit("status");
    assert("status"@.len() == 6 && "status"@[0] == 's');
    reveal_with_fuel(json::find, 4);
}

/// `git` is asked in the directory of the session, and for what can be read: the second form of its list, with
/// the branch, and names that end with a zero.
pub proof fn lemma_what_git_is_asked(cwd: Seq<char>)
    ensures
        status_command(cwd)[0] == "git"@ && status_command(cwd)[1] == "-C"@ && status_command(cwd)[2] == cwd
            && status_command(cwd)[3] == "status"@,
        status_command(cwd).contains("--porcelain=v2"@) && status_command(cwd).contains("--branch"@)
            && status_command(cwd).contains("-z"@),
        diff_command(cwd)[0] == "git"@ && diff_command(cwd)[1] == "-C"@ && diff_command(cwd)[2] == cwd,
        diff_command(cwd).contains("diff"@) && diff_command(cwd).last() == "HEAD"@,
{
    assert(status_command(cwd)[4] == "--porcelain=v2"@);
    assert(status_command(cwd)[5] == "--branch"@);
    assert(status_command(cwd)[6] == "-z"@);
    assert(diff_command(cwd)[4] == "diff"@);
}

} // verus!
