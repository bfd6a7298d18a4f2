//! The requests for permission that wait for an answer.
//!
//! A request is held under its session and its tool use; one that comes again under the same key takes
//! the place of the one before. There is a limit to how many a session may have, and to how many there
//! are in all: beyond it a request is not held, and the terminal asks.

use crate::order::{self, before, comes_before};
use crate::text::{self, same, texts};
use vstd::prelude::*;

verus! {

/// How many requests of one session are held.
pub const MAX_HOLDS_PER_SESSION: usize = 8;

/// How many requests are held in all.
pub const MAX_HOLDS_PER_NODE: usize = 256;

/// A request that is held. Times are in milliseconds of a clock that never goes back.
#[derive(Debug, PartialEq, Eq)]
pub struct Hold {
    pub session: String,
    pub tool_use_id: String,
    pub request_id: String,
    pub epoch: i64,
    pub since: u64,
    pub timeout: u64,
}

/// The model of a [`Hold`].
pub struct Held {
    pub session: Seq<char>,
    pub tool_use_id: Seq<char>,
    pub request_id: Seq<char>,
    pub epoch: i64,
    pub since: u64,
    pub timeout: u64,
}

impl View for Hold {
    type V = Held;

    open spec fn view(&self) -> Held {
        Held {
            session: self.session@,
            tool_use_id: self.tool_use_id@,
            request_id: self.request_id@,
            epoch: self.epoch,
            since: self.since,
            timeout: self.timeout,
        }
    }
}

/// The models of a list of requests.
pub open spec fn all_held(v: Seq<Hold>) -> Seq<Held> {
    v.map_values(|h: Hold| h@)
}

/// A request that is no longer held.
#[derive(Debug, PartialEq, Eq)]
pub struct Freed {
    pub session: String,
    pub tool_use_id: String,
    pub request_id: String,
}

/// The model of a [`Freed`].
pub struct Gone {
    pub session: Seq<char>,
    pub tool_use_id: Seq<char>,
    pub request_id: Seq<char>,
}

impl View for Freed {
    type V = Gone;

    open spec fn view(&self) -> Gone {
        Gone {
            session: self.session@,
            tool_use_id: self.tool_use_id@,
            request_id: self.request_id@,
        }
    }
}

/// The models of a list of freed requests.
pub open spec fn all_gone(v: Seq<Freed>) -> Seq<Gone> {
    v.map_values(|f: Freed| f@)
}

/// A request as one that is no longer held.
pub open spec fn as_gone(h: Held) -> Gone {
    Gone { session: h.session, tool_use_id: h.tool_use_id, request_id: h.request_id }
}

fn freed_of(h: &Hold) -> (r: Freed)
    ensures
        r@ == as_gone(h@),
{
    Freed {
        session: h.session.clone(),
        tool_use_id: h.tool_use_id.clone(),
        request_id: h.request_id.clone(),
    }
}

fn copy_hold(h: &Hold) -> (r: Hold)
    ensures
        r@ == h@,
{
    Hold {
        session: h.session.clone(),
        tool_use_id: h.tool_use_id.clone(),
        request_id: h.request_id.clone(),
        epoch: h.epoch,
        since: h.since,
        timeout: h.timeout,
    }
}

/// Where the request under a key stands, counted from `i`.
pub open spec fn position(hs: Seq<Held>, s: Seq<char>, t: Seq<char>, i: int) -> Option<int>
    decreases hs.len() - i,
{
    if i < 0 || i >= hs.len() {
        None
    } else if hs[i].session == s && hs[i].tool_use_id == t {
        Some(i)
    } else {
        position(hs, s, t, i + 1)
    }
}

/// How many requests a session has.
pub open spec fn count_of(hs: Seq<Held>, s: Seq<char>) -> nat
    decreases hs.len(),
{
    if hs.len() == 0 {
        0
    } else {
        count_of(hs.drop_last(), s) + if hs.last().session == s {
            1nat
        } else {
            0
        }
    }
}

/// Whether no two requests have the same key, and the limits are kept.
pub open spec fn holds_wf(hs: Seq<Held>) -> bool {
    &&& hs.len() <= MAX_HOLDS_PER_NODE
    &&& forall|i: int, j: int|
        0 <= i < j < hs.len() ==> !((#[trigger] hs[i]).session == (#[trigger] hs[j]).session
            && hs[i].tool_use_id == hs[j].tool_use_id)
    &&& forall|s: Seq<char>| #[trigger] count_of(hs, s) <= MAX_HOLDS_PER_SESSION
}

/// Whether there is no room for another request of a session.
pub open spec fn is_full(hs: Seq<Held>, s: Seq<char>) -> bool {
    hs.len() >= MAX_HOLDS_PER_NODE || count_of(hs, s) >= MAX_HOLDS_PER_SESSION
}

/// The requests with one more: in the place of the one under the same key, or at the end.
pub open spec fn with_hold(hs: Seq<Held>, h: Held) -> Seq<Held> {
    match position(hs, h.session, h.tool_use_id, 0) {
        Some(i) => hs.update(i, h),
        None => hs.push(h),
    }
}

pub proof fn lemma_position(hs: Seq<Held>, s: Seq<char>, t: Seq<char>, i: int)
    requires
        0 <= i <= hs.len(),
    ensures
        match position(hs, s, t, i) {
            Some(k) => i <= k < hs.len() && hs[k].session == s && hs[k].tool_use_id == t,
            None => forall|k: int|
                i <= k < hs.len() ==> !((#[trigger] hs[k]).session == s && hs[k].tool_use_id == t),
        },
    decreases hs.len() - i,
{
    if i < hs.len() && !(hs[i].session == s && hs[i].tool_use_id == t) {
        lemma_position(hs, s, t, i + 1);
    }
}

proof fn lemma_count_split(hs: Seq<Held>, s: Seq<char>, i: int)
    requires
        0 <= i < hs.len(),
    ensures
        count_of(hs, s) == count_of(hs.remove(i), s) + if hs[i].session == s {
            1nat
        } else {
            0
        },
    decreases hs.len(),
{
    if i == hs.len() - 1 {
        assert(hs.remove(i) =~= hs.drop_last());
    } else {
        lemma_count_split(hs.drop_last(), s, i);
        assert(hs.remove(i).drop_last() =~= hs.drop_last().remove(i));
        assert(hs.remove(i).last() == hs.last());
    }
}

proof fn lemma_count_update(hs: Seq<Held>, s: Seq<char>, i: int, h: Held)
    requires
        0 <= i < hs.len(),
        hs[i].session == h.session,
    ensures
        count_of(hs.update(i, h), s) == count_of(hs, s),
    decreases hs.len(),
{
    if i == hs.len() - 1 {
        assert(hs.update(i, h).drop_last() =~= hs.drop_last());
    } else {
        lemma_count_update(hs.drop_last(), s, i, h);
        assert(hs.update(i, h).drop_last() =~= hs.drop_last().update(i, h));
    }
}

/// Where there is room, one more request leaves the keys different and the limits kept.
pub proof fn lemma_with_hold_wf(hs: Seq<Held>, h: Held)
    requires
        holds_wf(hs),
        !is_full(hs, h.session),
    ensures
        holds_wf(with_hold(hs, h)),
{
    let w = with_hold(hs, h);
    lemma_position(hs, h.session, h.tool_use_id, 0);
    match position(hs, h.session, h.tool_use_id, 0) {
        Some(i) => {
            assert forall|s: Seq<char>| #[trigger] count_of(w, s) <= MAX_HOLDS_PER_SESSION by {
                lemma_count_update(hs, s, i, h);
                assert(count_of(hs, s) <= MAX_HOLDS_PER_SESSION);
            }
            assert forall|a: int, b: int| 0 <= a < b < w.len() implies !((#[trigger] w[a]).session
                == (#[trigger] w[b]).session && w[a].tool_use_id == w[b].tool_use_id) by {
                assert(!(hs[a].session == hs[b].session && hs[a].tool_use_id == hs[b].tool_use_id));
            }
        },
        None => {
            assert forall|s: Seq<char>| #[trigger] count_of(w, s) <= MAX_HOLDS_PER_SESSION by {
                assert(w.drop_last() =~= hs);
                assert(count_of(hs, s) <= MAX_HOLDS_PER_SESSION);
            }
            assert forall|a: int, b: int| 0 <= a < b < w.len() implies !((#[trigger] w[a]).session
                == (#[trigger] w[b]).session && w[a].tool_use_id == w[b].tool_use_id) by {
                if b < hs.len() {
                    assert(!(hs[a].session == hs[b].session && hs[a].tool_use_id
                        == hs[b].tool_use_id));
                } else {
                    assert(hs[a] == w[a]);
                }
            }
        },
    }
}

/// Taking a request out leaves the keys different and the limits kept.
pub proof fn lemma_remove_wf(hs: Seq<Held>, i: int)
    requires
        holds_wf(hs),
        0 <= i < hs.len(),
    ensures
        holds_wf(hs.remove(i)),
{
    let w = hs.remove(i);
    assert forall|s: Seq<char>| #[trigger] count_of(w, s) <= MAX_HOLDS_PER_SESSION by {
        lemma_count_split(hs, s, i);
        assert(count_of(hs, s) <= MAX_HOLDS_PER_SESSION);
    }
    assert forall|a: int, b: int| 0 <= a < b < w.len() implies !((#[trigger] w[a]).session == (
    #[trigger] w[b]).session && w[a].tool_use_id == w[b].tool_use_id) by {
        let a2 = if a < i {
            a
        } else {
            a + 1
        };
        let b2 = if b < i {
            b
        } else {
            b + 1
        };
        assert(w[a] == hs[a2] && w[b] == hs[b2]);
        assert(!(hs[a2].session == hs[b2].session && hs[a2].tool_use_id == hs[b2].tool_use_id));
    }
}

/// The requests that `keep` keeps.
pub open spec fn kept(hs: Seq<Held>, keep: spec_fn(Held) -> bool) -> Seq<Held>
    decreases hs.len(),
{
    if hs.len() == 0 {
        hs
    } else {
        let r = kept(hs.drop_last(), keep);
        if keep(hs.last()) {
            r.push(hs.last())
        } else {
            r
        }
    }
}

/// The requests that `keep` does not keep, as freed.
pub open spec fn dropped(hs: Seq<Held>, keep: spec_fn(Held) -> bool) -> Seq<Gone>
    decreases hs.len(),
{
    if hs.len() == 0 {
        Seq::empty()
    } else {
        let r = dropped(hs.drop_last(), keep);
        if keep(hs.last()) {
            r
        } else {
            r.push(as_gone(hs.last()))
        }
    }
}

proof fn lemma_kept_from(hs: Seq<Held>, keep: spec_fn(Held) -> bool)
    ensures
        forall|i: int|
            0 <= i < kept(hs, keep).len() ==> keep(#[trigger] kept(hs, keep)[i]) && exists|k: int|
                i <= k < hs.len() && hs[k] == kept(hs, keep)[i],
        kept(hs, keep).len() <= hs.len(),
    decreases hs.len(),
{
    if hs.len() > 0 {
        let p = hs.drop_last();
        lemma_kept_from(p, keep);
        let r = kept(p, keep);
        assert forall|i: int| 0 <= i < kept(hs, keep).len() implies keep(
            #[trigger] kept(hs, keep)[i],
        ) && exists|k: int| i <= k < hs.len() && hs[k] == kept(hs, keep)[i] by {
            if i < r.len() {
                assert(kept(hs, keep)[i] == r[i]);
                let k = choose|k: int| i <= k < p.len() && p[k] == r[i];
                assert(hs[k] == r[i]);
            } else {
                assert(hs[hs.len() - 1] == kept(hs, keep)[i]);
            }
        }
    }
}

proof fn lemma_count_kept(hs: Seq<Held>, keep: spec_fn(Held) -> bool, s: Seq<char>)
    ensures
        count_of(kept(hs, keep), s) <= count_of(hs, s),
    decreases hs.len(),
{
    if hs.len() > 0 {
        lemma_count_kept(hs.drop_last(), keep, s);
        let r = kept(hs.drop_last(), keep);
        if keep(hs.last()) {
            assert(r.push(hs.last()).drop_last() =~= r);
        }
    }
}

proof fn lemma_kept_keys(hs: Seq<Held>, keep: spec_fn(Held) -> bool)
    requires
        forall|i: int, j: int|
            0 <= i < j < hs.len() ==> !((#[trigger] hs[i]).session == (#[trigger] hs[j]).session
                && hs[i].tool_use_id == hs[j].tool_use_id),
    ensures
        forall|i: int, j: int|
            0 <= i < j < kept(hs, keep).len() ==> !((#[trigger] kept(hs, keep)[i]).session == (
            #[trigger] kept(hs, keep)[j]).session && kept(hs, keep)[i].tool_use_id == kept(
                hs,
                keep,
            )[j].tool_use_id),
    decreases hs.len(),
{
    if hs.len() > 0 {
        let p = hs.drop_last();
        assert forall|i: int, j: int| 0 <= i < j < p.len() implies !((#[trigger] p[i]).session == (
        #[trigger] p[j]).session && p[i].tool_use_id == p[j].tool_use_id) by {
            assert(p[i] == hs[i] && p[j] == hs[j]);
        }
        lemma_kept_keys(p, keep);
        lemma_kept_from(p, keep);
        let r = kept(p, keep);
        let w = kept(hs, keep);
        assert forall|i: int, j: int| 0 <= i < j < w.len() implies !((#[trigger] w[i]).session == (
        #[trigger] w[j]).session && w[i].tool_use_id == w[j].tool_use_id) by {
            if j < r.len() {
                assert(w[i] == r[i] && w[j] == r[j]);
            } else {
                assert(w[i] == r[i]);
                assert(w[j] == hs.last());
                let k = choose|k: int| i <= k < p.len() && p[k] == r[i];
                assert(hs[k] == r[i] && hs[hs.len() - 1] == w[j]);
            }
        }
    }
}

/// Taking requests out leaves the keys different and the limits kept.
pub proof fn lemma_kept_wf(hs: Seq<Held>, keep: spec_fn(Held) -> bool)
    requires
        holds_wf(hs),
    ensures
        holds_wf(kept(hs, keep)),
{
    lemma_kept_from(hs, keep);
    lemma_kept_keys(hs, keep);
    assert forall|s: Seq<char>| #[trigger] count_of(kept(hs, keep), s)
        <= MAX_HOLDS_PER_SESSION by {
        lemma_count_kept(hs, keep, s);
        assert(count_of(hs, s) <= MAX_HOLDS_PER_SESSION);
    }
}

/// Where the request under a key stands.
pub fn find_hold(hs: &[Hold], s: &str, t: &str) -> (r: Option<usize>)
    ensures
        match r {
            Some(i) => i < hs@.len() && position(all_held(hs@), s@, t@, 0) == Some(i as int),
            None => position(all_held(hs@), s@, t@, 0) is None,
        },
{
    let ghost v = all_held(hs@);
    let mut i: usize = 0;
    while i < hs.len()
        invariant
            v == all_held(hs@),
            i <= hs@.len(),
            position(v, s@, t@, 0) == position(v, s@, t@, i as int),
        decreases hs@.len() - i,
    {
        proof {
            assert(v[i as int] == hs@[i as int]@);
        }
        if same(hs[i].session.as_str(), s) && same(hs[i].tool_use_id.as_str(), t) {
            return Some(i);
        }
        i += 1;
    }
    None
}

/// How many requests a session has.
pub fn count_holds(hs: &[Hold], s: &str) -> (n: usize)
    ensures
        n == count_of(all_held(hs@), s@),
{
    let ghost v = all_held(hs@);
    let mut n: usize = 0;
    let mut i: usize = 0;
    proof {
        assert(v.take(0) =~= Seq::<Held>::empty());
    }
    while i < hs.len()
        invariant
            v == all_held(hs@),
            i <= hs@.len(),
            n <= i,
            n == count_of(v.take(i as int), s@),
        decreases hs@.len() - i,
    {
        proof {
            assert(v.take(i + 1).drop_last() =~= v.take(i as int));
            assert(v.take(i + 1).last() == hs@[i as int]@);
        }
        if same(hs[i].session.as_str(), s) {
            n += 1;
        }
        i += 1;
    }
    proof {
        assert(v.take(i as int) =~= v);
    }
    n
}

/// How long a request has been held at `now`.
pub open spec fn age(h: Held, now: u64) -> int {
    if now >= h.since {
        now - h.since
    } else {
        0
    }
}

fn age_of(h: &Hold, now: u64) -> (r: u64)
    ensures
        r == age(h@, now),
{
    if now >= h.since {
        now - h.since
    } else {
        0
    }
}

/// The tool uses of a session, with the times since which they are held.
pub open spec fn ages_of(hs: Seq<Held>, s: Seq<char>) -> Seq<(u64, Seq<char>)>
    decreases hs.len(),
{
    if hs.len() == 0 {
        Seq::empty()
    } else {
        let r = ages_of(hs.drop_last(), s);
        if hs.last().session == s {
            r.push((hs.last().since, hs.last().tool_use_id))
        } else {
            r
        }
    }
}

/// Whether one request comes before another: it is held longer, or as long and its tool use comes first.
pub open spec fn sooner(a: (u64, Seq<char>), b: (u64, Seq<char>)) -> bool {
    a.0 < b.0 || (a.0 == b.0 && before(a.1, b.1))
}

/// Where a request goes among those in order.
pub open spec fn place_by_age(v: Seq<(u64, Seq<char>)>, x: (u64, Seq<char>)) -> int
    decreases v.len(),
{
    if v.len() > 0 && sooner(x, v.last()) {
        place_by_age(v.drop_last(), x)
    } else {
        v.len() as int
    }
}

/// The requests in order: those held longest first.
pub open spec fn by_age(v: Seq<(u64, Seq<char>)>) -> Seq<(u64, Seq<char>)>
    decreases v.len(),
{
    if v.len() == 0 {
        v
    } else {
        let w = by_age(v.drop_last());
        w.insert(place_by_age(w, v.last()), v.last())
    }
}

/// Whether no request in `v` is held longer than one ahead of it.
pub open spec fn oldest_first(v: Seq<(u64, Seq<char>)>) -> bool {
    forall|i: int, j: int| 0 <= i < j < v.len() ==> !sooner(#[trigger] v[j], #[trigger] v[i])
}

proof fn lemma_not_sooner(a: (u64, Seq<char>), b: (u64, Seq<char>), c: (u64, Seq<char>))
    requires
        !sooner(b, a),
        !sooner(c, b),
    ensures
        !sooner(c, a),
{
    order::lemma_before_total(a.1, b.1);
    order::lemma_before_total(b.1, c.1);
    order::lemma_before_total(a.1, c.1);
    if before(a.1, b.1) && before(b.1, c.1) {
        order::lemma_before_transitive(a.1, b.1, c.1);
    }
}

proof fn lemma_place_by_age(v: Seq<(u64, Seq<char>)>, x: (u64, Seq<char>))
    requires
        oldest_first(v),
    ensures
        0 <= place_by_age(v, x) <= v.len(),
        oldest_first(v.insert(place_by_age(v, x), x)),
    decreases v.len(),
{
    let k = place_by_age(v, x);
    lemma_places(v, x);
    let t = v.insert(k, x);
    assert forall|i: int, j: int| 0 <= i < j < t.len() implies !sooner(
        #[trigger] t[j],
        #[trigger] t[i],
    ) by {
        let a = if i < k { i } else { i - 1 };
        let b = if j < k { j } else { j - 1 };
        if i == k {
            assert(t[j] == v[b]);
            assert(sooner(x, v[b]));
            order::lemma_before_total(x.1, v[b].1);
        } else if j == k {
            assert(t[i] == v[a]);
            assert(!sooner(x, v[a]));
        } else {
            assert(t[i] == v[a] && t[j] == v[b]);
        }
    }
}

proof fn lemma_places(v: Seq<(u64, Seq<char>)>, x: (u64, Seq<char>))
    requires
        oldest_first(v),
    ensures
        0 <= place_by_age(v, x) <= v.len(),
        forall|i: int| place_by_age(v, x) <= i < v.len() ==> sooner(x, #[trigger] v[i]),
        forall|i: int| 0 <= i < place_by_age(v, x) ==> !sooner(x, #[trigger] v[i]),
    decreases v.len(),
{
    let k = place_by_age(v, x);
    if v.len() > 0 && sooner(x, v.last()) {
        let w = v.drop_last();
        assert forall|i: int, j: int| 0 <= i < j < w.len() implies !sooner(
            #[trigger] w[j],
            #[trigger] w[i],
        ) by {
            assert(w[i] == v[i] && w[j] == v[j]);
        }
        lemma_places(w, x);
        assert forall|i: int| k <= i < v.len() implies sooner(x, #[trigger] v[i]) by {
            if i < w.len() {
                assert(v[i] == w[i]);
            }
        }
        assert forall|i: int| 0 <= i < k implies !sooner(x, #[trigger] v[i]) by {
            assert(v[i] == w[i]);
        }
    } else if v.len() > 0 {
        assert forall|i: int| 0 <= i < k implies !sooner(x, #[trigger] v[i]) by {
            if i < v.len() - 1 {
                assert(!sooner(v[v.len() - 1], v[i]));
                lemma_not_sooner(v[i], v.last(), x);
            }
        }
    }
}

/// The requests in order are the same requests, and none is held longer than one ahead of it.
pub proof fn lemma_by_age(v: Seq<(u64, Seq<char>)>)
    ensures
        oldest_first(by_age(v)),
        by_age(v).to_multiset() == v.to_multiset(),
    decreases v.len(),
{
    if v.len() > 0 {
        let w = v.drop_last();
        lemma_by_age(w);
        let s = by_age(w);
        lemma_place_by_age(s, v.last());
        let k = place_by_age(s, v.last());
        vstd::seq_lib::to_multiset_insert(s, k, v.last());
        vstd::seq_lib::to_multiset_insert(w, w.len() as int, v.last());
        assert(w.insert(w.len() as int, v.last()) =~= v);
    }
}

/// The tool uses of a session, those held longest first.
pub open spec fn pending_of(hs: Seq<Held>, s: Seq<char>) -> Seq<Seq<char>> {
    by_age(ages_of(hs, s)).map_values(|x: (u64, Seq<char>)| x.1)
}

/// The models of a list of times and tool uses.
spec fn aged(v: Seq<(u64, String)>) -> Seq<(u64, Seq<char>)> {
    v.map_values(|x: (u64, String)| (x.0, x.1@))
}

fn place_of_age(v: &[(u64, String)], n: usize, since: u64, t: &str) -> (k: usize)
    requires
        n <= v@.len(),
    ensures
        k <= n,
        k == place_by_age(aged(v@).take(n as int), (since, t@)),
    decreases n,
{
    if n == 0 {
        return 0;
    }
    proof {
        assert(aged(v@).take(n as int).last() == (v@[n - 1].0, v@[n - 1].1@));
        assert(aged(v@).take(n as int).drop_last() =~= aged(v@).take(n - 1));
    }
    if since < v[n - 1].0 || (since == v[n - 1].0 && comes_before(t, v[n - 1].1.as_str())) {
        place_of_age(v, n - 1, since, t)
    } else {
        n
    }
}

/// The tool uses of a session, those held longest first.
pub fn pending_holds(hs: &[Hold], s: &str) -> (out: Vec<String>)
    ensures
        texts(out@) == pending_of(all_held(hs@), s@),
{
    let ghost v = all_held(hs@);
    let mut list: Vec<(u64, String)> = Vec::new();
    let mut i: usize = 0;
    proof {
        assert(v.take(0) =~= Seq::<Held>::empty());
        assert(aged(list@) =~= by_age(ages_of(v.take(0), s@)));
    }
    while i < hs.len()
        invariant
            v == all_held(hs@),
            i <= hs@.len(),
            aged(list@) == by_age(ages_of(v.take(i as int), s@)),
        decreases hs@.len() - i,
    {
        proof {
            assert(v.take(i + 1).drop_last() =~= v.take(i as int));
            assert(v.take(i + 1).last() == hs@[i as int]@);
        }
        if same(hs[i].session.as_str(), s) {
            let n: usize = list.len();
            let k: usize = place_of_age(&list, n, hs[i].since, hs[i].tool_use_id.as_str());
            let ghost was = aged(list@);
            let ghost prev = ages_of(v.take(i as int), s@);
            let ghost x = (hs@[i as int].since, hs@[i as int].tool_use_id@);
            proof {
                assert(was.take(n as int) =~= was);
                assert(prev.push(x).drop_last() =~= prev);
            }
            list.insert(k, (hs[i].since, hs[i].tool_use_id.clone()));
            proof {
                assert(aged(list@) =~= was.insert(k as int, x));
            }
        }
        i += 1;
    }
    proof {
        assert(v.take(i as int) =~= v);
    }
    let ghost a = aged(list@);
    let mut out: Vec<String> = Vec::new();
    let mut j: usize = 0;
    while j < list.len()
        invariant
            a == aged(list@),
            j <= list@.len(),
            texts(out@) == a.map_values(|x: (u64, Seq<char>)| x.1).take(j as int),
        decreases list@.len() - j,
    {
        let ghost was = texts(out@);
        let ghost goal = a.map_values(|x: (u64, Seq<char>)| x.1);
        out.push(list[j].1.clone());
        proof {
            assert(texts(out@) =~= was.push(goal[j as int]));
            assert(goal.take(j + 1) =~= goal.take(j as int).push(goal[j as int]));
        }
        j += 1;
    }
    proof {
        let goal = a.map_values(|x: (u64, Seq<char>)| x.1);
        assert(goal.take(j as int) =~= goal);
    }
    out
}

/// Puts a request among those that are held; gives the request whose place it took. Nothing changes where
/// there is no room.
pub fn add_hold(hs: &mut Vec<Hold>, h: Hold) -> (r: Option<Option<String>>)
    ensures
        match r {
            None => is_full(all_held(old(hs)@), h.session@) && final(hs)@ == old(hs)@,
            Some(was) => {
                &&& !is_full(all_held(old(hs)@), h.session@)
                &&& all_held(final(hs)@) == with_hold(all_held(old(hs)@), h@)
                &&& text::opt_text(was) == match position(
                    all_held(old(hs)@),
                    h.session@,
                    h.tool_use_id@,
                    0,
                ) {
                    Some(i) => Some(all_held(old(hs)@)[i].request_id),
                    None => None,
                }
            },
        },
{
    let n: usize = count_holds(hs, h.session.as_str());
    if hs.len() >= MAX_HOLDS_PER_NODE || n >= MAX_HOLDS_PER_SESSION {
        return None;
    }
    let ghost v = all_held(hs@);
    let ghost hv = h@;
    match find_hold(hs, h.session.as_str(), h.tool_use_id.as_str()) {
        Some(i) => {
            let was = hs[i].request_id.clone();
            proof {
                assert(v[i as int] == hs@[i as int]@);
            }
            hs.set(i, h);
            proof {
                assert(all_held(hs@) =~= v.update(i as int, hv));
            }
            Some(Some(was))
        },
        None => {
            hs.push(h);
            proof {
                assert(all_held(hs@) =~= v.push(hv));
            }
            Some(None)
        },
    }
}

/// The request that an answer to a key frees: the one under it, provided that it is the one that is
/// meant, where one is.
pub open spec fn freed_at(
    hs: Seq<Held>,
    s: Seq<char>,
    t: Seq<char>,
    request: Option<Seq<char>>,
) -> Option<int> {
    match position(hs, s, t, 0) {
        Some(i) => match request {
            Some(r) => if hs[i].request_id == r {
                Some(i)
            } else {
                None
            },
            None => Some(i),
        },
        None => None,
    }
}

/// Takes the request under a key out; gives its id.
pub fn take_hold(hs: &mut Vec<Hold>, s: &str, t: &str, request: Option<&str>) -> (r: Option<String>)
    ensures
        match freed_at(all_held(old(hs)@), s@, t@, text::opt_str(request)) {
            Some(i) => text::opt_text(r) == Some(all_held(old(hs)@)[i].request_id) && all_held(
                final(hs)@,
            ) == all_held(old(hs)@).remove(i),
            None => r is None && final(hs)@ == old(hs)@,
        },
{
    let ghost v = all_held(hs@);
    match find_hold(hs, s, t) {
        Some(i) => {
            proof {
                assert(v[i as int] == hs@[i as int]@);
            }
            match request {
                Some(q) => if !same(hs[i].request_id.as_str(), q) {
                    return None;
                },
                None => {},
            }
            let h = hs.remove(i);
            proof {
                assert(all_held(hs@) =~= v.remove(i as int));
            }
            Some(h.request_id)
        },
        None => None,
    }
}

/// Takes all requests of a session out.
pub fn take_session(hs: &mut Vec<Hold>, s: &str) -> (out: Vec<Freed>)
    ensures
        all_held(final(hs)@) == kept(all_held(old(hs)@), |h: Held| h.session != s@),
        all_gone(out@) == dropped(all_held(old(hs)@), |h: Held| h.session != s@),
{
    let ghost v = all_held(hs@);
    let ghost keep = |h: Held| h.session != s@;
    let mut rest: Vec<Hold> = Vec::new();
    let mut out: Vec<Freed> = Vec::new();
    let mut i: usize = 0;
    proof {
        assert(v.take(0) =~= Seq::<Held>::empty());
        assert(all_held(rest@) =~= kept(v.take(0), keep));
        assert(all_gone(out@) =~= dropped(v.take(0), keep));
    }
    while i < hs.len()
        invariant
            v == all_held(hs@),
            keep == (|h: Held| h.session != s@),
            i <= hs@.len(),
            all_held(rest@) == kept(v.take(i as int), keep),
            all_gone(out@) == dropped(v.take(i as int), keep),
        decreases hs@.len() - i,
    {
        proof {
            assert(v.take(i + 1).drop_last() =~= v.take(i as int));
            assert(v.take(i + 1).last() == hs@[i as int]@);
        }
        let ghost (r0, o0) = (all_held(rest@), all_gone(out@));
        if same(hs[i].session.as_str(), s) {
            out.push(freed_of(&hs[i]));
            proof {
                assert(all_gone(out@) =~= o0.push(as_gone(hs@[i as int]@)));
            }
        } else {
            rest.push(copy_hold(&hs[i]));
            proof {
                assert(all_held(rest@) =~= r0.push(hs@[i as int]@));
            }
        }
        i += 1;
    }
    proof {
        assert(v.take(i as int) =~= v);
    }
    *hs = rest;
    out
}

/// Takes the requests out that have been held for as long as they may be.
pub fn take_expired(hs: &mut Vec<Hold>, now: u64) -> (out: Vec<Freed>)
    ensures
        all_held(final(hs)@) == kept(all_held(old(hs)@), |h: Held| age(h, now) < h.timeout),
        all_gone(out@) == dropped(all_held(old(hs)@), |h: Held| age(h, now) < h.timeout),
{
    let ghost v = all_held(hs@);
    let ghost keep = |h: Held| age(h, now) < h.timeout;
    let mut rest: Vec<Hold> = Vec::new();
    let mut out: Vec<Freed> = Vec::new();
    let mut i: usize = 0;
    proof {
        assert(v.take(0) =~= Seq::<Held>::empty());
        assert(all_held(rest@) =~= kept(v.take(0), keep));
        assert(all_gone(out@) =~= dropped(v.take(0), keep));
    }
    while i < hs.len()
        invariant
            v == all_held(hs@),
            keep == (|h: Held| age(h, now) < h.timeout),
            i <= hs@.len(),
            all_held(rest@) == kept(v.take(i as int), keep),
            all_gone(out@) == dropped(v.take(i as int), keep),
        decreases hs@.len() - i,
    {
        proof {
            assert(v.take(i + 1).drop_last() =~= v.take(i as int));
            assert(v.take(i + 1).last() == hs@[i as int]@);
        }
        let ghost (r0, o0) = (all_held(rest@), all_gone(out@));
        if age_of(&hs[i], now) < hs[i].timeout {
            rest.push(copy_hold(&hs[i]));
            proof {
                assert(all_held(rest@) =~= r0.push(hs@[i as int]@));
            }
        } else {
            out.push(freed_of(&hs[i]));
            proof {
                assert(all_gone(out@) =~= o0.push(as_gone(hs@[i as int]@)));
            }
        }
        i += 1;
    }
    proof {
        assert(v.take(i as int) =~= v);
    }
    *hs = rest;
    out
}

/// What is known of a session: its generation, and the requests that its state still waits for.
#[derive(Debug, PartialEq, Eq)]
pub struct SessionFacts {
    pub session: String,
    pub epoch: i64,
    pub keys: Vec<String>,
}

/// What is known of the first of the sessions from `i` on with the name `s`.
pub open spec fn facts_of(fs: Seq<SessionFacts>, s: Seq<char>, i: int) -> Option<
    (i64, Seq<Seq<char>>),
>
    decreases fs.len() - i,
{
    if i < 0 || i >= fs.len() {
        None
    } else if fs[i].session@ == s {
        Some((fs[i].epoch, texts(fs[i].keys@)))
    } else {
        facts_of(fs, s, i + 1)
    }
}

/// Whether a request is held that its session no longer waits for: it was answered in the terminal. One
/// that was held only just now, or for an earlier generation, is not counted so.
pub open spec fn abandoned(h: Held, now: u64, settle: u64, fs: Seq<SessionFacts>) -> bool {
    age(h, now) >= settle && match facts_of(fs, h.session, 0) {
        Some((epoch, keys)) => epoch == h.epoch && !keys.contains(h.tool_use_id),
        None => false,
    }
}

fn is_abandoned(h: &Hold, now: u64, settle: u64, fs: &[SessionFacts]) -> (r: bool)
    ensures
        r == abandoned(h@, now, settle, fs@),
{
    if age_of(h, now) < settle {
        return false;
    }
    let mut i: usize = 0;
    while i < fs.len()
        invariant
            i <= fs@.len(),
            age(h@, now) >= settle,
            facts_of(fs@, h.session@, 0) == facts_of(fs@, h.session@, i as int),
        decreases fs@.len() - i,
    {
        if same(fs[i].session.as_str(), h.session.as_str()) {
            return fs[i].epoch == h.epoch && !text::holds(&fs[i].keys, h.tool_use_id.as_str());
        }
        i += 1;
    }
    false
}

/// Takes the requests out that their sessions no longer wait for.
pub fn take_abandoned(hs: &mut Vec<Hold>, now: u64, settle: u64, fs: &[SessionFacts]) -> (out: Vec<
    Freed,
>)
    ensures
        all_held(final(hs)@) == kept(all_held(old(hs)@), |h: Held| !abandoned(h, now, settle, fs@)),
        all_gone(out@) == dropped(all_held(old(hs)@), |h: Held| !abandoned(h, now, settle, fs@)),
{
    let ghost v = all_held(hs@);
    let ghost keep = |h: Held| !abandoned(h, now, settle, fs@);
    let mut rest: Vec<Hold> = Vec::new();
    let mut out: Vec<Freed> = Vec::new();
    let mut i: usize = 0;
    proof {
        assert(v.take(0) =~= Seq::<Held>::empty());
        assert(all_held(rest@) =~= kept(v.take(0), keep));
        assert(all_gone(out@) =~= dropped(v.take(0), keep));
    }
    while i < hs.len()
        invariant
            v == all_held(hs@),
            keep == (|h: Held| !abandoned(h, now, settle, fs@)),
            i <= hs@.len(),
            all_held(rest@) == kept(v.take(i as int), keep),
            all_gone(out@) == dropped(v.take(i as int), keep),
        decreases hs@.len() - i,
    {
        proof {
            assert(v.take(i + 1).drop_last() =~= v.take(i as int));
            assert(v.take(i + 1).last() == hs@[i as int]@);
        }
        let ghost (r0, o0) = (all_held(rest@), all_gone(out@));
        if is_abandoned(&hs[i], now, settle, fs) {
            out.push(freed_of(&hs[i]));
            proof {
                assert(all_gone(out@) =~= o0.push(as_gone(hs@[i as int]@)));
            }
        } else {
            rest.push(copy_hold(&hs[i]));
            proof {
                assert(all_held(rest@) =~= r0.push(hs@[i as int]@));
            }
        }
        i += 1;
    }
    proof {
        assert(v.take(i as int) =~= v);
    }
    *hs = rest;
    out
}

/// Nothing is lost: a request that is taken out is freed, and one that is freed was held.
pub proof fn lemma_kept_or_dropped(hs: Seq<Held>, keep: spec_fn(Held) -> bool)
    ensures
        kept(hs, keep).len() + dropped(hs, keep).len() == hs.len(),
        forall|i: int|
            0 <= i < hs.len() ==> (keep(#[trigger] hs[i]) ==> kept(hs, keep).contains(hs[i])) && (
            !keep(hs[i]) ==> dropped(hs, keep).contains(as_gone(hs[i]))),
    decreases hs.len(),
{
    if hs.len() > 0 {
        let p = hs.drop_last();
        lemma_kept_or_dropped(p, keep);
        let k = kept(hs, keep);
        let d = dropped(hs, keep);
        assert forall|i: int| 0 <= i < hs.len() implies (keep(#[trigger] hs[i]) ==> k.contains(
            hs[i],
        )) && (!keep(hs[i]) ==> d.contains(as_gone(hs[i]))) by {
            if i < p.len() {
                assert(p[i] == hs[i]);
                if keep(hs[i]) {
                    let j = kept(p, keep).index_of(hs[i]);
                    assert(k[j] == hs[i]);
                } else {
                    let j = dropped(p, keep).index_of(as_gone(hs[i]));
                    assert(d[j] == as_gone(hs[i]));
                }
            } else {
                if keep(hs[i]) {
                    assert(k[k.len() - 1] == hs[i]);
                } else {
                    assert(d[d.len() - 1] == as_gone(hs[i]));
                }
            }
        }
    }
}

/// Freeing a session leaves every request of every other session held.
pub proof fn lemma_other_sessions_stay(hs: Seq<Held>, s: Seq<char>, other: Seq<char>)
    requires
        s != other,
    ensures
        count_of(kept(hs, |h: Held| h.session != s), other) == count_of(hs, other),
        count_of(kept(hs, |h: Held| h.session != s), s) == 0,
    decreases hs.len(),
{
    if hs.len() > 0 {
        lemma_other_sessions_stay(hs.drop_last(), s, other);
        let r = kept(hs.drop_last(), |h: Held| h.session != s);
        if hs.last().session != s {
            assert(r.push(hs.last()).drop_last() =~= r);
        }
    }
}

/// What is kept are the requests that are to be kept and no others, and what is told as gone are the others.
pub proof fn lemma_kept_has(hs: Seq<Held>, keep: spec_fn(Held) -> bool, x: Held, g: Gone)
    ensures
        kept(hs, keep).contains(x) <==> hs.contains(x) && keep(x),
        dropped(hs, keep).contains(g) <==> exists|i: int|
            0 <= i < hs.len() && !keep(#[trigger] hs[i]) && as_gone(hs[i]) == g,
    decreases hs.len(),
{
    if hs.len() > 0 {
        let w = hs.drop_last();
        let l = hs.last();
        lemma_kept_has(w, keep, x, g);
        lemma_push_has(w, l, x);
        assert(w.push(l) =~= hs);
        lemma_push_has(kept(w, keep), l, x);
        lemma_push_has(dropped(w, keep), as_gone(l), g);
        if dropped(w, keep).contains(g) {
            let i = choose|i: int| 0 <= i < w.len() && !keep(#[trigger] w[i]) && as_gone(w[i]) == g;
            assert(hs[i] == w[i]);
        }
        if exists|i: int| 0 <= i < hs.len() && !keep(#[trigger] hs[i]) && as_gone(hs[i]) == g {
            let i = choose|i: int| 0 <= i < hs.len() && !keep(#[trigger] hs[i]) && as_gone(hs[i]) == g;
            if i < w.len() {
                assert(w[i] == hs[i]);
            }
        }
        if !keep(l) {
            assert(hs[hs.len() - 1] == l);
        }
    }
}

pub(crate) proof fn lemma_push_has<A>(v: Seq<A>, l: A, x: A)
    ensures
        v.push(l).contains(x) <==> v.contains(x) || x == l,
{
    if v.contains(x) {
        let i = v.index_of(x);
        assert(v.push(l)[i] == x);
    }
    if x == l {
        assert(v.push(l)[v.len() as int] == x);
    }
    if v.push(l).contains(x) && x != l {
        let i = v.push(l).index_of(x);
        assert(v[i] == x);
    }
}

/// A request waits no longer where nobody asks for it: its session is known, is of the same generation, and
/// has not had it among those that it waits for since before the time to settle.
pub proof fn lemma_what_nobody_asks_for(h: Held, now: u64, settle: u64, fs: Seq<SessionFacts>, k: int)
    requires
        0 <= k < fs.len(),
        fs[k].session@ == h.session,
        forall|j: int| 0 <= j < k ==> (#[trigger] fs[j]).session@ != h.session,
        h.since <= now,
    ensures
        abandoned(h, now, settle, fs) <==> {
            &&& h.since + settle <= now
            &&& fs[k].epoch == h.epoch
            &&& forall|j: int| 0 <= j < fs[k].keys@.len() ==> (#[trigger] fs[k].keys@[j])@ != h.tool_use_id
        },
        abandoned(h, now, settle, fs.take(k)) == false,
{
    lemma_facts_at(fs, h.session, 0, k);
    lemma_no_facts(fs.take(k), h.session, 0);
    let keys = texts(fs[k].keys@);
    if keys.contains(h.tool_use_id) {
        let j = keys.index_of(h.tool_use_id);
        assert(fs[k].keys@[j]@ == keys[j]);
    }
    if exists|j: int| 0 <= j < fs[k].keys@.len() && (#[trigger] fs[k].keys@[j])@ == h.tool_use_id {
        let j = choose|j: int|
            0 <= j < fs[k].keys@.len() && (#[trigger] fs[k].keys@[j])@ == h.tool_use_id;
        assert(keys[j] == h.tool_use_id);
    }
}

proof fn lemma_facts_at(fs: Seq<SessionFacts>, s: Seq<char>, i: int, k: int)
    requires
        0 <= i <= k < fs.len(),
        fs[k].session@ == s,
        forall|j: int| i <= j < k ==> (#[trigger] fs[j]).session@ != s,
    ensures
        facts_of(fs, s, i) == Some((fs[k].epoch, texts(fs[k].keys@))),
    decreases k - i,
{
    if i < k {
        lemma_facts_at(fs, s, i + 1, k);
    }
}

proof fn lemma_no_facts(fs: Seq<SessionFacts>, s: Seq<char>, i: int)
    requires
        0 <= i <= fs.len(),
        forall|j: int| i <= j < fs.len() ==> (#[trigger] fs[j]).session@ != s,
    ensures
        facts_of(fs, s, i) is None,
    decreases fs.len() - i,
{
    if i < fs.len() {
        lemma_no_facts(fs, s, i + 1);
    }
}

} // verus!
