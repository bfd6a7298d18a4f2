//! Paths as text.

use crate::adapter::path_parts;
use crate::hook::inbox::{is_absolute, parts_of, starts_at_root};
use crate::text::{self, split, texts};
use vstd::prelude::*;

verus! {

/// The path `rel` taken from the directory `base`: an absolute path is itself.
pub open spec fn joined_path(base: Seq<char>, rel: Seq<char>) -> Seq<char> {
    if rel.len() > 0 && rel[0] == '/' {
        rel
    } else if base.len() == 0 || base.last() == '/' {
        base + rel
    } else {
        base + seq!['/'] + rel
    }
}

/// The path `rel` taken from the directory `base`.
pub fn join_path(base: &str, rel: &str) -> (out: String)
    ensures
        out@ == joined_path(base@, rel@),
{
    let b = text::chars_of(base);
    let r = text::chars_of(rel);
    if r.len() > 0 && r[0] == '/' {
        return rel.to_owned();
    }
    if b.len() == 0 || b[b.len() - 1] == '/' {
        return text::cat(base, rel);
    }
    let mut out = base.to_owned();
    out.push('/');
    text::push_str(&mut out, rel);
    proof {
        assert(out@ =~= base@ + seq!['/'] + rel@);
    }
    out
}

/// Whether a path begins with a dot as a part of its own.
pub open spec fn begins_here(p: Seq<char>) -> bool {
    split(p, '/')[0] == "."@
}

/// Whether two paths are one, part by part: empty parts and dots between others do not count.
pub open spec fn same_path(a: Seq<char>, b: Seq<char>) -> bool {
    &&& is_absolute(a) == is_absolute(b)
    &&& begins_here(a) == begins_here(b)
    &&& path_parts(split(a, '/')) == path_parts(split(b, '/'))
}

fn is_from_here(p: &str) -> (r: bool)
    ensures
        r == begins_here(p@),
{
    let v = text::split_char(p, '/');
    proof {
        text::lemma_split_nonempty(p@, '/');
        assert(texts(v@)[0] == v@[0]@);
    }
    text::same(v[0].as_str(), ".")
}

/// Whether two paths are one, part by part.
pub fn is_same_path(a: &str, b: &str) -> (r: bool)
    ensures
        r == same_path(a@, b@),
{
    if starts_at_root(a) != starts_at_root(b) || is_from_here(a) != is_from_here(b) {
        return false;
    }
    let x = parts_of(a);
    let y = parts_of(b);
    let ghost (p, q) = (texts(x@), texts(y@));
    assert(p.len() == x@.len() && q.len() == y@.len());
    if x.len() != y.len() {
        return false;
    }
    let mut i: usize = 0;
    while i < x.len()
        invariant
            p == texts(x@),
            q == texts(y@),
            p == path_parts(split(a@, '/')),
            q == path_parts(split(b@, '/')),
            x@.len() == y@.len(),
            i <= x@.len(),
            forall|k: int| 0 <= k < i ==> #[trigger] p[k] == q[k],
        decreases x@.len() - i,
    {
        proof {
            assert(p[i as int] == x@[i as int]@);
            assert(q[i as int] == y@[i as int]@);
        }
        if !text::same(x[i].as_str(), y[i].as_str()) {
            return false;
        }
        i += 1;
    }
    proof {
        assert(p =~= q);
    }
    true
}

/// A path below another is that path, a slash and the rest; an absolute one stays as it is.
pub proof fn lemma_joined_path(base: Seq<char>, rel: Seq<char>)
    ensures
        rel.len() > 0 && rel[0] == '/' ==> joined_path(base, rel) == rel,
        base.len() > 0 && base.last() != '/' && rel.len() > 0 && rel[0] != '/' ==> joined_path(base, rel)
            == base + seq!['/'] + rel,
        base.len() > 0 && rel.len() > 0 && rel[0] != '/' ==> joined_path(base, rel).take(
            base.len() as int,
        ) == base,
{
    if base.len() > 0 && rel.len() > 0 && rel[0] != '/' {
        assert(joined_path(base, rel).take(base.len() as int) =~= base);
    }
}

/// Two paths are one where they have the same parts and begin in the same place; slashes at the end make no
/// difference, and another name does.
pub proof fn lemma_same_path(dir: Seq<char>, a: Seq<char>, b: Seq<char>)
    requires
        dir.len() > 0,
        a.len() > 0 && b.len() > 0,
        !a.contains('/') && !b.contains('/'),
        a != seq!['.'] && b != seq!['.'],
    ensures
        same_path(dir, dir),
        same_path(dir + seq!['/'] + a, dir + seq!['/'] + b) <==> a == b,
        same_path(dir + seq!['/'] + Seq::<char>::empty(), dir),
        same_path(a, b) <==> a == b,
        !same_path(seq!['/'] + a, a),
        !same_path(seq!['.', '/'] + a, a),
{
    let none = Seq::<char>::empty();
    let p = dir + seq!['/'] + a;
    let q = dir + seq!['/'] + b;
    let r = dir + seq!['/'] + none;
    text::lemma_split_joined(dir, '/', a);
    text::lemma_split_joined(dir, '/', b);
    text::lemma_split_joined(dir, '/', none);
    text::lemma_split_whole(a, '/');
    text::lemma_split_whole(b, '/');
    text::lemma_split_whole(none, '/');
    text::lemma_split_nonempty(dir, '/');
    let d = split(dir, '/');
    assert((d + seq![a]).drop_last() =~= d);
    assert((d + seq![b]).drop_last() =~= d);
    assert((d + seq![none]).drop_last() =~= d);
    assert(path_parts(d + seq![a]) == path_parts(d).push(a));
    assert(path_parts(d + seq![b]) == path_parts(d).push(b));
    assert(path_parts(d).push(a).last() == a && path_parts(d).push(b).last() == b);
    assert(path_parts(d + seq![none]) == path_parts(d));
    assert(p[0] == dir[0] && q[0] == dir[0] && r[0] == dir[0]);
    assert((d + seq![a])[0] == d[0] && (d + seq![b])[0] == d[0] && (d + seq![none])[0] == d[0]);
    let one = seq![a];
    let two = seq![b];
    let no = Seq::<Seq<char>>::empty();
    assert(one.drop_last() =~= no && two.drop_last() =~= no);
    assert(path_parts(one) == path_parts(no).push(a));
    assert(path_parts(two) == path_parts(no).push(b));
    assert(path_parts(one).last() == a && path_parts(two).last() == b);
    assert((seq!['/'] + a)[0] == '/');
    if a[0] == '/' {
        assert(a.contains('/'));
    }
    reveal_strlit(".");
    assert("."@ =~= seq!['.']);
    text::lemma_split_joined(seq!['.'], '/', a);
    text::lemma_split_whole(seq!['.'], '/');
    assert(seq!['.'] + seq!['/'] + a =~= seq!['.', '/'] + a);
    assert((seq![seq!['.']] + seq![a])[0] == seq!['.']);
    assert(seq![a][0] == a);
}

} // verus!
