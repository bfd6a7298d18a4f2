//! The page, and all that belongs to it.

use crate::text;
use vstd::prelude::*;

verus! {

/// The page where there is none.
pub const NOT_BUILT: &'static str =
    "<!doctype html><meta charset=utf-8><title>agora</title><p>前端尚未构建：<code>npm --prefix web ci &amp;&amp; npm --prefix web run build</code> 后重新 <code>cargo build</code>。</p>";

/// The kind of content that `mime_guess` takes a file to be by its path.
pub uninterp spec fn content_type(path: Seq<char>) -> Seq<char>;

/// `mime_guess::from_path` and `first_or_octet_stream`: the kind of content of a file by its path.
#[verifier::external_body]
fn guess(path: &str) -> (out: String)
    ensures
        out@ == content_type(path@),
{
    mime_guess::from_path(path).first_or_octet_stream().as_ref().to_owned()
}

/// `s` without the characters `c` at its front.
pub open spec fn without_first(s: Seq<char>, c: char) -> Seq<char>
    decreases s.len(),
{
    if s.len() > 0 && s[0] == c {
        without_first(s.skip(1), c)
    } else {
        s
    }
}

/// What a path asks for: nothing where it would be a request to the interface, and otherwise a file.
pub open spec fn candidate(path: Seq<char>) -> Option<Seq<char>> {
    let p = without_first(path, '/');
    if text::begins(p, "api/"@) {
        None
    } else if p.len() == 0 {
        Some("index.html"@)
    } else {
        Some(p)
    }
}

/// What a path asks for.
pub fn candidate_for(path: &str) -> (r: Option<String>)
    ensures
        text::opt_text(r) == candidate(path@),
{
    let v = text::chars_of(path);
    let mut i: usize = 0;
    proof {
        assert(v@.skip(0) =~= v@);
    }
    while i < v.len() && v[i] == '/'
        invariant
            v@ == path@,
            i <= v@.len(),
            without_first(path@, '/') == without_first(v@.skip(i as int), '/'),
        decreases v@.len() - i,
    {
        proof {
            assert(v@.skip(i as int).skip(1) =~= v@.skip(i + 1));
        }
        i += 1;
    }
    let p = text::string_of_range(&v, i, v.len());
    proof {
        assert(p@ =~= v@.skip(i as int));
    }
    if text::starts_with(p.as_str(), "api/") {
        None
    } else if text::is_empty(p.as_str()) {
        Some("index.html".to_owned())
    } else {
        Some(p)
    }
}

/// Whether a name stays below the directory that the page is kept in: no part of it leads upwards.
pub open spec fn stays_below(name: Seq<char>) -> bool {
    !text::split(name, '/').contains(".."@)
}

/// Whether a name stays below the directory that the page is kept in.
pub fn is_below(name: &str) -> (r: bool)
    ensures
        r == stays_below(name@),
{
    !text::holds(&text::split_char(name, '/'), "..")
}

/// What a request for a path is answered.
#[derive(Debug, PartialEq, Eq)]
pub enum Page {
    NotFound,
    /// The file, or else the page itself, with the kind of content that the path has.
    File { name: String, content_type: String },
    /// There is no page.
    Unavailable,
}

/// The model of a [`Page`].
pub enum Sheet {
    NotFound,
    File { name: Seq<char>, content_type: Seq<char> },
    Unavailable,
}

impl View for Page {
    type V = Sheet;

    open spec fn view(&self) -> Sheet {
        match self {
            Page::NotFound => Sheet::NotFound,
            Page::File { name, content_type } => Sheet::File {
                name: name@,
                content_type: content_type@,
            },
            Page::Unavailable => Sheet::Unavailable,
        }
    }
}

/// What a request for a path is answered. `there` says whether there is the file that the path asks for
/// among those of the page, `index` whether there is the page, and `kind` is the kind of content of the file.
pub open spec fn sheet(path: Seq<char>, there: bool, index: bool, kind: Seq<char>) -> Sheet {
    match candidate(path) {
        None => Sheet::NotFound,
        Some(c) => if there {
            Sheet::File { name: c, content_type: kind }
        } else if index {
            Sheet::File { name: "index.html"@, content_type: kind }
        } else {
            Sheet::Unavailable
        },
    }
}

/// What a request for a path is answered, `kind` being the kind of content of the file that it asks for.
pub fn page_with(path: &str, there: bool, index: bool, kind: &str) -> (r: Page)
    ensures
        r@ == sheet(path@, there, index, kind@),
{
    match candidate_for(path) {
        None => Page::NotFound,
        Some(c) => if there {
            Page::File { name: c, content_type: kind.to_owned() }
        } else if index {
            Page::File { name: "index.html".to_owned(), content_type: kind.to_owned() }
        } else {
            Page::Unavailable
        },
    }
}

/// What a request for a path is answered.
pub fn serve(path: &str, there: bool, index: bool) -> (r: Page)
    ensures
        r@ == sheet(
            path@,
            there,
            index,
            match candidate(path@) {
                Some(c) => content_type(c),
                None => ""@,
            },
        ),
{
    let kind = match candidate_for(path) {
        Some(c) => guess(c.as_str()),
        None => "".to_owned(),
    };
    page_with(path, there, index, kind.as_str())
}

proof fn lemma_without_first(n: nat, p: Seq<char>)
    requires
        p.len() > 0 ==> p[0] != '/',
    ensures
        without_first(Seq::new(n, |i: int| '/') + p, '/') == p,
    decreases n,
{
    let s = Seq::new(n, |i: int| '/') + p;
    if n == 0 {
        assert(s =~= p);
    } else {
        lemma_without_first((n - 1) as nat, p);
        assert(s.skip(1) =~= Seq::new((n - 1) as nat, |i: int| '/') + p);
        assert(s[0] == '/');
    }
}

/// A path leads to the file of that name, without the slashes before it, and the empty one to the page; what
/// is below `api/` leads to none. Where there is no such file the page is given, which finds out for itself.
pub proof fn lemma_where_a_path_leads(
    n: nat,
    p: Seq<char>,
    there: bool,
    index: bool,
    kind: Seq<char>,
)
    requires
        p.len() > 0 ==> p[0] != '/',
    ensures
        ({
            let path = Seq::new(n, |i: int| '/') + p;
            let r = sheet(path, there, index, kind);
            &&& r is NotFound <==> text::begins(p, "api/"@)
            &&& r is Unavailable <==> !text::begins(p, "api/"@) && !there && !index
            &&& r is File ==> r->content_type == kind
            &&& r is File ==> r->name == (if there && p.len() > 0 {
                p
            } else {
                "index.html"@
            })
        }),
{
    lemma_without_first(n, p);
    if p.len() == 0 {
        reveal_strlit("api/");
        assert("api/"@.len() == 4);
        assert(!text::begins(p, "api/"@));
    }
}

} // verus!
