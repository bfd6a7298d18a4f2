//! The order of texts, and sorting by it.

use crate::text::{self, texts};
use vstd::prelude::*;

verus! {

/// Whether `a` comes before `b`: the first character in which they differ decides, and a front
/// comes before what it is a front of.
pub open spec fn before(a: Seq<char>, b: Seq<char>) -> bool
    decreases a.len(),
{
    if b.len() == 0 {
        false
    } else if a.len() == 0 {
        true
    } else if a[0] != b[0] {
        a[0] < b[0]
    } else {
        before(a.skip(1), b.skip(1))
    }
}

/// Any two texts are the same or come one before the other.
pub proof fn lemma_before_total(a: Seq<char>, b: Seq<char>)
    ensures
        a == b || before(a, b) || before(b, a),
        !(before(a, b) && before(b, a)),
        a == b ==> !before(a, b),
    decreases a.len(),
{
    if a.len() > 0 && b.len() > 0 {
        if a[0] == b[0] {
            lemma_before_total(a.skip(1), b.skip(1));
            if a.skip(1) == b.skip(1) {
                assert(a =~= seq![a[0]] + a.skip(1));
                assert(b =~= seq![b[0]] + b.skip(1));
            }
        }
    } else if a.len() == 0 && b.len() == 0 {
        assert(a =~= b);
    }
}

/// What comes before a text comes before all that the text comes before.
pub proof fn lemma_before_transitive(a: Seq<char>, b: Seq<char>, c: Seq<char>)
    requires
        before(a, b),
        before(b, c),
    ensures
        before(a, c),
    decreases a.len(),
{
    if a.len() > 0 && b.len() > 0 && c.len() > 0 && a[0] == b[0] && b[0] == c[0] {
        lemma_before_transitive(a.skip(1), b.skip(1), c.skip(1));
    }
}

/// Whether the texts of `v[i..]` and `w[i..]` stand in this order.
fn comes_before_from(v: &[char], w: &[char], i: usize) -> (r: bool)
    requires
        i <= v@.len(),
        i <= w@.len(),
    ensures
        r == before(v@.skip(i as int), w@.skip(i as int)),
    decreases v@.len() - i,
{
    if i == w.len() {
        false
    } else if i == v.len() {
        true
    } else if v[i] != w[i] {
        v[i] < w[i]
    } else {
        proof {
            assert(v@.skip(i as int).skip(1) =~= v@.skip(i + 1));
            assert(w@.skip(i as int).skip(1) =~= w@.skip(i + 1));
        }
        comes_before_from(v, w, i + 1)
    }
}

/// Whether `a` comes before `b`.
pub fn comes_before(a: &str, b: &str) -> (r: bool)
    ensures
        r == before(a@, b@),
{
    let v = text::chars_of(a);
    let w = text::chars_of(b);
    proof {
        assert(v@.skip(0) =~= v@);
        assert(w@.skip(0) =~= w@);
    }
    comes_before_from(&v, &w, 0)
}

/// Whether no text of `v` comes before an earlier one.
pub open spec fn sorted(v: Seq<Seq<char>>) -> bool {
    forall|i: int, j: int| 0 <= i < j < v.len() ==> !before(#[trigger] v[j], #[trigger] v[i])
}

/// Where a text goes among sorted ones: behind all that it does not come before.
pub open spec fn place_in(v: Seq<Seq<char>>, s: Seq<char>) -> int
    decreases v.len(),
{
    if v.len() > 0 && before(s, v.last()) {
        place_in(v.drop_last(), s)
    } else {
        v.len() as int
    }
}

pub proof fn lemma_place_in(v: Seq<Seq<char>>, s: Seq<char>)
    requires
        sorted(v),
    ensures
        0 <= place_in(v, s) <= v.len(),
        sorted(v.insert(place_in(v, s), s)),
        forall|i: int| place_in(v, s) <= i < v.len() ==> before(s, #[trigger] v[i]),
        forall|i: int| 0 <= i < place_in(v, s) ==> !before(s, #[trigger] v[i]),
    decreases v.len(),
{
    let k = place_in(v, s);
    if v.len() > 0 && before(s, v.last()) {
        let w = v.drop_last();
        assert(sorted(w));
        lemma_place_in(w, s);
        assert forall|i: int| place_in(v, s) <= i < v.len() implies before(s, #[trigger] v[i]) by {
            if i < w.len() {
                assert(v[i] == w[i]);
            }
        }
        assert forall|i: int| 0 <= i < k implies !before(s, #[trigger] v[i]) by {
            assert(v[i] == w[i]);
        }
    } else if v.len() > 0 {
        assert forall|i: int| 0 <= i < k implies !before(s, #[trigger] v[i]) by {
            lemma_before_total(v[i], v.last());
            if i < v.len() - 1 {
                assert(!before(v[v.len() - 1], v[i]));
                if before(s, v[i]) && v[i] != v.last() {
                    lemma_before_transitive(s, v[i], v.last());
                }
            }
        }
    }
    let u = v.insert(k, s);
    assert forall|i: int, j: int| 0 <= i < j < u.len() implies !before(
        #[trigger] u[j],
        #[trigger] u[i],
    ) by {
        if i == k {
            assert(u[j] == v[j - 1]);
            lemma_before_total(s, v[j - 1]);
        } else if j == k {
            assert(u[i] == v[i]);
        } else {
            let i2 = if i < k {
                i
            } else {
                i - 1
            };
            let j2 = if j < k {
                j
            } else {
                j - 1
            };
            assert(u[i] == v[i2] && u[j] == v[j2]);
        }
    }
}

/// The texts of `v` in order, those that are the same in the order in which they stood.
pub open spec fn in_order(v: Seq<Seq<char>>) -> Seq<Seq<char>>
    decreases v.len(),
{
    if v.len() == 0 {
        v
    } else {
        let w = in_order(v.drop_last());
        w.insert(place_in(w, v.last()), v.last())
    }
}

/// [`in_order`] sorts, and neither adds a text nor drops one.
pub proof fn lemma_in_order(v: Seq<Seq<char>>)
    ensures
        sorted(in_order(v)),
        in_order(v).to_multiset() == v.to_multiset(),
        in_order(v).len() == v.len(),
    decreases v.len(),
{
    if v.len() > 0 {
        let w = v.drop_last();
        lemma_in_order(w);
        let s = in_order(w);
        lemma_place_in(s, v.last());
        s.to_multiset_ensures();
        w.to_multiset_ensures();
        v.to_multiset_ensures();
        in_order(v).to_multiset_ensures();
        let k = place_in(s, v.last());
        vstd::seq_lib::to_multiset_insert(s, k, v.last());
        assert(v =~= w.push(v.last()));
        vstd::seq_lib::to_multiset_insert(w, w.len() as int, v.last());
        assert(w.insert(w.len() as int, v.last()) =~= v);
    }
}

/// Where `s` goes among the first `n` strings of `v`.
pub fn place_of(v: &[String], n: usize, s: &str) -> (k: usize)
    requires
        n <= v@.len(),
    ensures
        k == place_in(texts(v@).take(n as int), s@),
        k <= n,
    decreases n,
{
    if n == 0 {
        return 0;
    }
    proof {
        assert(texts(v@).take(n as int).last() == v@[n - 1]@);
        assert(texts(v@).take(n as int).drop_last() =~= texts(v@).take(n - 1));
    }
    if comes_before(s, v[n - 1].as_str()) {
        place_of(v, n - 1, s)
    } else {
        n
    }
}

/// The strings of `v` in order.
pub fn sort(v: Vec<String>) -> (out: Vec<String>)
    ensures
        texts(out@) == in_order(texts(v@)),
{
    let mut out: Vec<String> = Vec::new();
    let mut i: usize = 0;
    let ghost all = texts(v@);
    proof {
        assert(all.take(0) =~= Seq::<Seq<char>>::empty());
        assert(texts(out@) =~= in_order(all.take(0)));
        lemma_in_order(all.take(0));
    }
    while i < v.len()
        invariant
            all == texts(v@),
            i <= v@.len(),
            texts(out@) == in_order(all.take(i as int)),
            out@.len() == i,
        decreases v@.len() - i,
    {
        let ghost t = texts(out@);
        let n: usize = out.len();
        let k: usize = place_of(&out, n, v[i].as_str());
        proof {
            assert(t.take(n as int) =~= t);
            assert(all.take(i + 1).drop_last() =~= all.take(i as int));
            assert(all.take(i + 1).last() == v@[i as int]@);
        }
        out.insert(k, v[i].clone());
        proof {
            assert(texts(out@) =~= t.insert(k as int, v@[i as int]@));
            lemma_in_order(all.take(i + 1));
        }
        i += 1;
    }
    proof {
        assert(all.take(i as int) =~= all);
    }
    out
}

/// The first place where two texts differ decides which comes first.
pub proof fn lemma_before_at(a: Seq<char>, b: Seq<char>, k: int)
    requires
        0 <= k < a.len(),
        k < b.len(),
        a[k] < b[k],
        forall|j: int| 0 <= j < k ==> a[j] == b[j],
    ensures
        before(a, b),
    decreases k,
{
    if k > 0 {
        assert(a[0] == b[0]);
        let x = a.skip(1);
        let y = b.skip(1);
        assert(x[k - 1] == a[k] && y[k - 1] == b[k]);
        assert forall|j: int| 0 <= j < k - 1 implies x[j] == y[j] by {
            assert(x[j] == a[j + 1] && y[j] == b[j + 1]);
        }
        lemma_before_at(x, y, k - 1);
    }
}

/// Something that is listed by two texts: by the first, and by the second where the first is the same.
pub trait Listed: View + Sized {
    spec fn keys(v: Self::V) -> (Seq<char>, Seq<char>);

    fn first_key(&self) -> (r: &str)
        ensures
            r@ == Self::keys(self@).0,
    ;

    fn second_key(&self) -> (r: &str)
        ensures
            r@ == Self::keys(self@).1,
    ;

    fn duplicate(&self) -> (r: Self)
        ensures
            r@ == self@,
    ;
}

/// Whether two keys stand in this order.
pub open spec fn key_before(a: (Seq<char>, Seq<char>), b: (Seq<char>, Seq<char>)) -> bool {
    before(a.0, b.0) || (a.0 == b.0 && before(a.1, b.1))
}

/// Whether nothing in `v` is listed before what stands ahead of it.
pub open spec fn listed<T: Listed>(v: Seq<T::V>) -> bool {
    forall|i: int, j: int|
        0 <= i < j < v.len() ==> !key_before(T::keys(#[trigger] v[j]), T::keys(#[trigger] v[i]))
}

/// The models of a sequence.
pub open spec fn models<T: View>(v: Seq<T>) -> Seq<T::V> {
    v.map_values(|x: T| x@)
}

proof fn lemma_keys_transitive(
    a: (Seq<char>, Seq<char>),
    b: (Seq<char>, Seq<char>),
    c: (Seq<char>, Seq<char>),
)
    requires
        !key_before(b, a),
        !key_before(c, b),
    ensures
        !key_before(c, a),
{
    lemma_before_total(a.0, b.0);
    lemma_before_total(b.0, c.0);
    lemma_before_total(a.0, c.0);
    lemma_before_total(a.1, b.1);
    lemma_before_total(b.1, c.1);
    lemma_before_total(a.1, c.1);
    if before(a.0, b.0) && before(b.0, c.0) {
        lemma_before_transitive(a.0, b.0, c.0);
    }
    if before(a.1, b.1) && before(b.1, c.1) {
        lemma_before_transitive(a.1, b.1, c.1);
    }
}

fn goes_before<T: Listed>(a: &T, b: &T) -> (r: bool)
    ensures
        r == key_before(T::keys(a@), T::keys(b@)),
{
    if text::same(a.first_key(), b.first_key()) {
        proof {
            lemma_before_total(T::keys(a@).0, T::keys(b@).0);
        }
        comes_before(a.second_key(), b.second_key())
    } else {
        comes_before(a.first_key(), b.first_key())
    }
}

fn enlist<T: Listed>(v: &mut Vec<T>, x: T)
    requires
        listed::<T>(models(old(v)@)),
    ensures
        listed::<T>(models(final(v)@)),
        models(final(v)@).to_multiset() == models(old(v)@).push(x@).to_multiset(),
{
    let ghost s = models(v@);
    let mut k: usize = v.len();
    while k > 0 && goes_before(&x, &v[k - 1])
        invariant
            k <= v@.len(),
            s == models(v@),
            forall|j: int|
                k <= j < s.len() ==> key_before(T::keys(x@), T::keys(#[trigger] s[j])),
        decreases k,
    {
        k -= 1;
        proof {
            assert(s[k as int] == v@[k as int]@);
        }
    }
    proof {
        assert(listed::<T>(s));
        let t = s.insert(k as int, x@);
        assert forall|i: int| 0 <= i < k implies !key_before(
            T::keys(x@),
            T::keys(#[trigger] s[i]),
        ) by {
            assert(s[k - 1] == v@[k - 1]@);
            assert(!key_before(T::keys(x@), T::keys(s[k - 1])));
            if i < k - 1 {
                assert(!key_before(T::keys(s[k - 1]), T::keys(s[i])));
                lemma_keys_transitive(T::keys(s[i]), T::keys(s[k - 1]), T::keys(x@));
            }
        }
        assert forall|i: int, j: int| 0 <= i < j < t.len() implies !key_before(
            T::keys(#[trigger] t[j]),
            T::keys(#[trigger] t[i]),
        ) by {
            if i == k {
                assert(key_before(T::keys(x@), T::keys(s[j - 1])));
                lemma_before_total(T::keys(x@).0, T::keys(s[j - 1]).0);
                lemma_before_total(T::keys(x@).1, T::keys(s[j - 1]).1);
            } else {
                let a = if i < k { i } else { i - 1 };
                let b = if j < k { j } else { j - 1 };
                assert(t[i] == s[a]);
                if j != k {
                    assert(t[j] == s[b]);
                }
            }
        }
        vstd::seq_lib::to_multiset_insert(s, k as int, x@);
        vstd::seq_lib::to_multiset_insert(s, s.len() as int, x@);
        assert(s.insert(s.len() as int, x@) =~= s.push(x@));
    }
    let ghost g = x@;
    v.insert(k, x);
    proof {
        assert(models(v@) =~= s.insert(k as int, g));
    }
}

/// A copy of `v`, listed by its keys.
pub fn list<T: Listed>(v: &[T]) -> (out: Vec<T>)
    ensures
        listed::<T>(models(out@)),
        models(out@).to_multiset() == models(v@).to_multiset(),
{
    let mut out: Vec<T> = Vec::new();
    let mut i: usize = 0;
    let ghost all = models(v@);
    proof {
        assert(models(out@) =~= all.take(0));
    }
    while i < v.len()
        invariant
            all == models(v@),
            i <= v@.len(),
            listed::<T>(models(out@)),
            models(out@).to_multiset() == all.take(i as int).to_multiset(),
        decreases v@.len() - i,
    {
        let x = v[i].duplicate();
        proof {
            let a = models(out@);
            let b = all.take(i as int);
            vstd::seq_lib::to_multiset_insert(a, a.len() as int, x@);
            vstd::seq_lib::to_multiset_insert(b, b.len() as int, x@);
            assert(a.insert(a.len() as int, x@) =~= a.push(x@));
            assert(b.insert(b.len() as int, x@) =~= b.push(x@));
            assert(all.take(i + 1) =~= b.push(x@));
        }
        enlist(&mut out, x);
        i += 1;
    }
    proof {
        assert(all.take(i as int) =~= all);
    }
    out
}

} // verus!
