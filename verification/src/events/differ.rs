//! The difference between one look at the sessions and the next.

use crate::events::{
    export, exported, first_line, global, global_id, label, news, notice, notification_for,
    verb, Besides, Event, Extras, Look, News, SessionView, Stand, Standing, Transition,
};
use crate::text;
use vstd::prelude::*;

verus! {

/// What was seen of a session at the last look.
#[derive(Debug, PartialEq, Eq)]
pub struct Seen {
    pub id: String,
    pub standing: Standing,
    pub extras: Extras,
}

/// The model of a [`Seen`].
pub struct Sight {
    pub id: Seq<char>,
    pub standing: Stand,
    pub extras: Besides,
}

impl View for Seen {
    type V = Sight;

    open spec fn view(&self) -> Sight {
        Sight { id: self.id@, standing: self.standing@, extras: self.extras@ }
    }
}

/// The models of what was seen.
pub open spec fn sights(v: Seq<Seen>) -> Seq<Sight> {
    v.map_values(|s: Seen| s@)
}

/// The models of what is looked at.
pub open spec fn looks(v: Seq<SessionView>) -> Seq<Look> {
    v.map_values(|s: SessionView| s@)
}

/// Where a session stands among those seen, counted from `i`.
pub open spec fn sight_at(v: Seq<Sight>, id: Seq<char>, i: int) -> Option<int>
    decreases v.len() - i,
{
    if i < 0 || i >= v.len() {
        None
    } else if v[i].id == id {
        Some(i)
    } else {
        sight_at(v, id, i + 1)
    }
}

/// What is seen of a session.
pub open spec fn sight(node: Seq<char>, look: Look) -> Sight {
    Sight { id: global(node, look.id), standing: look.standing, extras: look.extras }
}

/// What is told of the session itself: that it is new, that something besides its state changed, or that
/// its state did.
pub open spec fn change(last: Seq<Sight>, primed: bool, node: Seq<char>, look: Look) -> Seq<News> {
    let now = sight(node, look);
    match sight_at(last, now.id, 0) {
        None => if primed {
            seq![News::SessionCreated { id: now.id, session: exported(node, look) }]
        } else {
            Seq::empty()
        },
        Some(i) => if last[i].extras != now.extras {
            seq![News::SessionUpdated { id: now.id, session: exported(node, look) }]
        } else if last[i].standing != now.standing {
            seq![News::StatusChanged { id: now.id, standing: now.standing }]
        } else {
            Seq::empty()
        },
    }
}

/// The name of a session in a word to a human: the one that the user gave, if there is one.
pub open spec fn spoken_name(look: Look) -> Seq<char> {
    if look.display_name.len() == 0 {
        look.name
    } else {
        look.display_name
    }
}

/// What is told to a human of the session.
pub open spec fn word(last: Seq<Sight>, notify: bool, node: Seq<char>, look: Look) -> Seq<News> {
    let now = sight(node, look);
    match sight_at(last, now.id, 0) {
        Some(i) => if notify {
            match notice(
                now.id,
                label(look.agent_type),
                spoken_name(look),
                node,
                look.origin,
                last[i].standing.status,
                look.standing.status,
                look.standing.end_cause,
                look.standing.detail,
            ) {
                Some(n) => seq![n],
                None => Seq::empty(),
            }
        } else {
            Seq::empty()
        },
        None => Seq::empty(),
    }
}

/// What is told of the sessions that are looked at, in their order.
pub open spec fn told(
    last: Seq<Sight>,
    primed: bool,
    notify: bool,
    node: Seq<char>,
    looks: Seq<Look>,
) -> Seq<News>
    decreases looks.len(),
{
    if looks.len() == 0 {
        Seq::empty()
    } else {
        told(last, primed, notify, node, looks.drop_last()) + change(
            last,
            primed,
            node,
            looks.last(),
        ) + word(last, notify, node, looks.last())
    }
}

/// What was seen, with one more sight in place of an earlier one of the same session.
pub open spec fn with_sight(v: Seq<Sight>, s: Sight) -> Seq<Sight> {
    match sight_at(v, s.id, 0) {
        Some(i) => v.update(i, s),
        None => v.push(s),
    }
}

/// What is seen when `looks` are looked at.
pub open spec fn seen_in(node: Seq<char>, looks: Seq<Look>) -> Seq<Sight>
    decreases looks.len(),
{
    if looks.len() == 0 {
        Seq::empty()
    } else {
        with_sight(seen_in(node, looks.drop_last()), sight(node, looks.last()))
    }
}

/// What is told of the sessions that are gone.
pub open spec fn gone(last: Seq<Sight>, now: Seq<Sight>) -> Seq<News>
    decreases last.len(),
{
    if last.len() == 0 {
        Seq::empty()
    } else if sight_at(now, last.last().id, 0) is None {
        gone(last.drop_last(), now).push(News::SessionRemoved { id: last.last().id })
    } else {
        gone(last.drop_last(), now)
    }
}

/// Where a session stands among those seen.
fn find_seen(v: &Vec<Seen>, id: &str) -> (r: Option<usize>)
    ensures
        match r {
            Some(i) => sight_at(sights(v@), id@, 0) == Some(i as int) && i < v@.len(),
            None => sight_at(sights(v@), id@, 0) is None,
        },
{
    let mut i: usize = 0;
    while i < v.len()
        invariant
            i <= v@.len(),
            sight_at(sights(v@), id@, 0) == sight_at(sights(v@), id@, i as int),
        decreases v@.len() - i,
    {
        proof {
            assert(sights(v@)[i as int] == v@[i as int]@);
        }
        if text::same(v[i].id.as_str(), id) {
            return Some(i);
        }
        i += 1;
    }
    None
}

/// Finds what to tell: it is shown the sessions at each look.
#[derive(Debug, PartialEq, Eq)]
pub struct Differ {
    last: Vec<Seen>,
    primed: bool,
    notifications: bool,
}

/// The model of a [`Differ`].
pub struct Memory {
    pub last: Seq<Sight>,
    pub primed: bool,
    pub notifications: bool,
}

impl View for Differ {
    type V = Memory;

    closed spec fn view(&self) -> Memory {
        Memory {
            last: sights(self.last@),
            primed: self.primed,
            notifications: self.notifications,
        }
    }
}

impl Default for Differ {
    fn default() -> (r: Self)
        ensures
            r@ == (Memory { last: Seq::empty(), primed: false, notifications: true }),
    {
        Differ::new(true)
    }
}

impl Differ {
    /// One that has seen nothing. `notifications` says whether humans are told.
    pub fn new(notifications: bool) -> (r: Self)
        ensures
            r@ == (Memory { last: Seq::empty(), primed: false, notifications }),
    {
        let r = Differ { last: Vec::new(), primed: false, notifications };
        proof {
            assert(sights(r.last@) =~= Seq::<Sight>::empty());
        }
        r
    }

    /// What to tell of one session.
    fn tell(&self, node: &str, v: &SessionView) -> (out: Vec<Event>)
        ensures
            news(out@) == change(self@.last, self@.primed, node@, v@) + word(
                self@.last,
                self@.notifications,
                node@,
                v@,
            ),
    {
        let gid = global_id(node, v.id.as_str());
        let mut out: Vec<Event> = Vec::new();
        match find_seen(&self.last, gid.as_str()) {
            None => {
                if self.primed {
                    out.push(Event::SessionCreated { id: gid, session: export(node, v) });
                }
                proof {
                    assert(news(out@) =~= change(self@.last, self@.primed, node@, v@) + word(
                        self@.last,
                        self@.notifications,
                        node@,
                        v@,
                    ));
                }
            },
            Some(i) => {
                let prev = &self.last[i];
                proof {
                    assert(self@.last[i as int] == prev@);
                }
                if !prev.extras.is_same(&v.extras) {
                    out.push(Event::SessionUpdated { id: gid.clone(), session: export(node, v) });
                } else if !prev.standing.is_same(&v.standing) {
                    out.push(
                        Event::StatusChanged { id: gid.clone(), standing: v.standing.duplicate() },
                    );
                }
                proof {
                    assert(news(out@) =~= change(self@.last, self@.primed, node@, v@));
                }
                let ghost first = news(out@);
                if self.notifications {
                    let name = if text::is_empty(v.display_name.as_str()) {
                        v.name.as_str()
                    } else {
                        v.display_name.as_str()
                    };
                    let t = Transition {
                        id: gid.as_str(),
                        agent_type: v.agent_type.as_str(),
                        name,
                        node,
                        origin: v.origin,
                        prev: prev.standing.status,
                        next: v.standing.status,
                        end_cause: v.standing.end_cause,
                        detail: text::borrow_opt(&v.standing.detail),
                    };
                    match notification_for(t) {
                        Some(e) => {
                            out.push(e);
                            proof {
                                assert(news(out@) =~= first + seq![e@]);
                            }
                        },
                        None => {},
                    }
                }
                proof {
                    assert(news(out@) =~= first + word(
                        self@.last,
                        self@.notifications,
                        node@,
                        v@,
                    ));
                }
            },
        }
        out
    }

    /// What to tell after one more look. The first look tells nothing: it is what later ones are held
    /// against.
    pub fn step(&mut self, node: &str, views: &[SessionView]) -> (out: Vec<Event>)
        ensures
            final(self)@ == (Memory {
                last: seen_in(node@, looks(views@)),
                primed: true,
                notifications: old(self)@.notifications,
            }),
            news(out@) == told(
                old(self)@.last,
                old(self)@.primed,
                old(self)@.notifications,
                node@,
                looks(views@),
            ) + (if old(self)@.primed {
                gone(old(self)@.last, seen_in(node@, looks(views@)))
            } else {
                Seq::empty()
            }),
    {
        let ghost all = looks(views@);
        let ghost last = self@.last;
        let mut now: Vec<Seen> = Vec::new();
        let mut out: Vec<Event> = Vec::new();
        let mut i: usize = 0;
        proof {
            assert(all.take(0) =~= Seq::<Look>::empty());
            assert(sights(now@) =~= seen_in(node@, all.take(0)));
            assert(news(out@) =~= told(
                last,
                self@.primed,
                self@.notifications,
                node@,
                all.take(0),
            ));
        }
        while i < views.len()
            invariant
                *self == *old(self),
                last == self@.last,
                all == looks(views@),
                i <= views@.len(),
                sights(now@) == seen_in(node@, all.take(i as int)),
                news(out@) == told(
                    last,
                    self@.primed,
                    self@.notifications,
                    node@,
                    all.take(i as int),
                ),
            decreases views@.len() - i,
        {
            let v = &views[i];
            proof {
                assert(all.take(i + 1).drop_last() =~= all.take(i as int));
                assert(all.take(i + 1).last() == v@);
            }
            let ghost was = news(out@);
            let mut more = self.tell(node, v);
            let ghost added = news(more@);
            out.append(&mut more);
            proof {
                assert(news(out@) =~= was + added);
                let c = change(last, self@.primed, node@, v@);
                let w = word(last, self@.notifications, node@, v@);
                assert(was + (c + w) =~= was + c + w);
            }
            let s = Seen {
                id: global_id(node, v.id.as_str()),
                standing: v.standing.duplicate(),
                extras: v.extras.duplicate(),
            };
            let ghost before = sights(now@);
            let ghost new = s@;
            match find_seen(&now, s.id.as_str()) {
                Some(k) => {
                    now.set(k, s);
                    proof {
                        assert(sights(now@) =~= before.update(k as int, new));
                    }
                },
                None => {
                    now.push(s);
                    proof {
                        assert(sights(now@) =~= before.push(new));
                    }
                },
            }
            i += 1;
        }
        proof {
            assert(all.take(i as int) =~= all);
        }
        let ghost first = news(out@);
        if self.primed {
            let mut k: usize = 0;
            proof {
                assert(last.take(0) =~= Seq::<Sight>::empty());
                assert(first + gone(last.take(0), sights(now@)) =~= first);
            }
            while k < self.last.len()
                invariant
                    last == sights(self.last@),
                    k <= self.last@.len(),
                    news(out@) == first + gone(last.take(k as int), sights(now@)),
                decreases self.last@.len() - k,
            {
                let ghost was = news(out@);
                proof {
                    assert(last.take(k + 1).drop_last() =~= last.take(k as int));
                    assert(last.take(k + 1).last() == self.last@[k as int]@);
                }
                if find_seen(&now, self.last[k].id.as_str()).is_none() {
                    let e = Event::SessionRemoved { id: self.last[k].id.clone() };
                    out.push(e);
                    proof {
                        assert(news(out@) =~= was.push(e@));
                        assert(was.push(e@) =~= first + gone(last.take(k as int), sights(now@)).push(
                            e@,
                        ));
                    }
                }
                k += 1;
            }
            proof {
                assert(last.take(k as int) =~= last);
            }
        } else {
            proof {
                assert(first + Seq::<News>::empty() =~= first);
            }
        }
        self.last = now;
        self.primed = true;
        out
    }
}

/// The first look tells nothing.
pub proof fn lemma_first_look_is_silent(notify: bool, node: Seq<char>, looks: Seq<Look>)
    ensures
        told(Seq::empty(), false, notify, node, looks) == Seq::<News>::empty(),
    decreases looks.len(),
{
    if looks.len() > 0 {
        lemma_first_look_is_silent(notify, node, looks.drop_last());
        assert(told(Seq::empty(), false, notify, node, looks) =~= Seq::<News>::empty());
    }
}

/// Whether no two of the sessions have one id.
pub open spec fn ids_differ(looks: Seq<Look>) -> bool {
    forall|i: int, j: int| 0 <= i < j < looks.len() ==> (#[trigger] looks[i]).id != (
    #[trigger] looks[j]).id
}

proof fn lemma_global_differs(node: Seq<char>, a: Seq<char>, b: Seq<char>)
    requires
        global(node, a) == global(node, b),
    ensures
        a == b,
{
    let n = (node + ":"@).len() as int;
    assert(global(node, a).skip(n) =~= a);
    assert(global(node, b).skip(n) =~= b);
}

proof fn lemma_sight_not_there(v: Seq<Sight>, id: Seq<char>, i: int)
    requires
        0 <= i <= v.len(),
        forall|j: int| i <= j < v.len() ==> (#[trigger] v[j]).id != id,
    ensures
        sight_at(v, id, i) is None,
    decreases v.len() - i,
{
    if i < v.len() {
        assert(v[i].id != id);
        lemma_sight_not_there(v, id, i + 1);
    }
}

proof fn lemma_sight_there(v: Seq<Sight>, i: int, k: int)
    requires
        0 <= i <= k < v.len(),
        forall|j: int| i <= j < k ==> (#[trigger] v[j]).id != v[k].id,
    ensures
        sight_at(v, v[k].id, i) == Some(k),
    decreases k - i,
{
    if i < k {
        assert(v[i].id != v[k].id);
        lemma_sight_there(v, i + 1, k);
    }
}

proof fn lemma_seen_in(node: Seq<char>, looks: Seq<Look>)
    requires
        ids_differ(looks),
    ensures
        seen_in(node, looks) == looks.map_values(|l: Look| sight(node, l)),
    decreases looks.len(),
{
    let want = looks.map_values(|l: Look| sight(node, l));
    if looks.len() > 0 {
        let w = looks.drop_last();
        assert(ids_differ(w)) by {
            assert forall|i: int, j: int| 0 <= i < j < w.len() implies (#[trigger] w[i]).id != (
            #[trigger] w[j]).id by {
                assert(looks[i] == w[i] && looks[j] == w[j]);
            }
        }
        lemma_seen_in(node, w);
        let v = seen_in(node, w);
        let id = global(node, looks.last().id);
        assert forall|j: int| 0 <= j < v.len() implies (#[trigger] v[j]).id != id by {
            assert(v[j] == sight(node, w[j]));
            assert(w[j] == looks[j]);
            if v[j].id == id {
                lemma_global_differs(node, w[j].id, looks.last().id);
                assert(looks[j].id != looks[looks.len() - 1].id);
            }
        }
        lemma_sight_not_there(v, id, 0);
        assert(seen_in(node, looks) =~= want);
    } else {
        assert(seen_in(node, looks) =~= want);
    }
}

proof fn lemma_unchanged_is_silent(
    node: Seq<char>,
    all: Seq<Look>,
    n: int,
    primed: bool,
    notify: bool,
)
    requires
        ids_differ(all),
        0 <= n <= all.len(),
    ensures
        told(seen_in(node, all), primed, notify, node, all.take(n)) == Seq::<News>::empty(),
    decreases n,
{
    let last = seen_in(node, all);
    if n > 0 {
        lemma_unchanged_is_silent(node, all, n - 1, primed, notify);
        lemma_seen_in(node, all);
        let k = n - 1;
        assert(all.take(n).drop_last() =~= all.take(k));
        assert(all.take(n).last() == all[k]);
        assert(last[k] == sight(node, all[k]));
        assert forall|j: int| 0 <= j < k implies (#[trigger] last[j]).id != last[k].id by {
            assert(last[j] == sight(node, all[j]));
            if last[j].id == last[k].id {
                lemma_global_differs(node, all[j].id, all[k].id);
                assert(all[j].id != all[k].id);
            }
        }
        lemma_sight_there(last, 0, k);
        assert(change(last, primed, node, all[k]) == Seq::<News>::empty());
        assert(word(last, notify, node, all[k]) == Seq::<News>::empty());
        assert(told(last, primed, notify, node, all.take(n)) =~= Seq::<News>::empty());
    } else {
        assert(all.take(n) =~= Seq::<Look>::empty());
    }
}

proof fn lemma_nothing_gone(last: Seq<Sight>, n: int)
    requires
        0 <= n <= last.len(),
    ensures
        gone(last.take(n), last) == Seq::<News>::empty(),
    decreases n,
{
    if n > 0 {
        lemma_nothing_gone(last, n - 1);
        assert(last.take(n).drop_last() =~= last.take(n - 1));
        assert(last.take(n).last() == last[n - 1]);
        if sight_at(last, last[n - 1].id, 0) is None {
            lemma_sight_somewhere(last, n - 1, 0);
        }
    } else {
        assert(last.take(n) =~= Seq::<Sight>::empty());
    }
}

proof fn lemma_sight_somewhere(v: Seq<Sight>, k: int, i: int)
    requires
        0 <= i <= k < v.len(),
    ensures
        sight_at(v, v[k].id, i) is Some,
    decreases k - i,
{
    if v[i].id != v[k].id {
        lemma_sight_somewhere(v, k, i + 1);
    }
}

/// A look at which nothing changed tells nothing.
pub proof fn lemma_quiet_look_is_silent(
    notify: bool,
    node: Seq<char>,
    looks: Seq<Look>,
)
    requires
        ids_differ(looks),
    ensures
        told(seen_in(node, looks), true, notify, node, looks) + gone(
            seen_in(node, looks),
            seen_in(node, looks),
        ) == Seq::<News>::empty(),
{
    lemma_unchanged_is_silent(node, looks, looks.len() as int, true, notify);
    assert(looks.take(looks.len() as int) =~= looks);
    let last = seen_in(node, looks);
    lemma_nothing_gone(last, last.len() as int);
    assert(last.take(last.len() as int) =~= last);
    assert(Seq::<News>::empty() + Seq::<News>::empty() =~= Seq::<News>::empty());
}

/// Whether one of the sessions has the id `id`.
pub open spec fn has_id(looks: Seq<Look>, id: Seq<char>) -> bool {
    exists|i: int| 0 <= i < looks.len() && (#[trigger] looks[i]).id == id
}

/// The ids, as everyone knows them, of the sessions of `a` that are not among those of `b`, in their order.
pub open spec fn only_in(node: Seq<char>, a: Seq<Look>, b: Seq<Look>) -> Seq<Seq<char>>
    decreases a.len(),
{
    if a.len() == 0 {
        Seq::empty()
    } else if has_id(b, a.last().id) {
        only_in(node, a.drop_last(), b)
    } else {
        only_in(node, a.drop_last(), b).push(global(node, a.last().id))
    }
}

/// The ids of the sessions that are told of as new.
pub open spec fn created_in(v: Seq<News>) -> Seq<Seq<char>>
    decreases v.len(),
{
    if v.len() == 0 {
        Seq::empty()
    } else {
        match v.last() {
            News::SessionCreated { id, .. } => created_in(v.drop_last()).push(id),
            _ => created_in(v.drop_last()),
        }
    }
}

/// The ids of the sessions that are told of as gone.
pub open spec fn removed_in(v: Seq<News>) -> Seq<Seq<char>>
    decreases v.len(),
{
    if v.len() == 0 {
        Seq::empty()
    } else {
        match v.last() {
            News::SessionRemoved { id } => removed_in(v.drop_last()).push(id),
            _ => removed_in(v.drop_last()),
        }
    }
}

/// Whether a piece of news is about the session with the id `id` itself, and no word to a human.
pub open spec fn is_about(n: News, id: Seq<char>) -> bool {
    match n {
        News::SessionCreated { id: x, .. } => x == id,
        News::SessionRemoved { id: x } => x == id,
        News::SessionUpdated { id: x, .. } => x == id,
        News::StatusChanged { id: x, .. } => x == id,
        _ => false,
    }
}

/// The news about the session with the id `id` itself.
pub open spec fn about(v: Seq<News>, id: Seq<char>) -> Seq<News>
    decreases v.len(),
{
    if v.len() == 0 {
        Seq::empty()
    } else if is_about(v.last(), id) {
        about(v.drop_last(), id).push(v.last())
    } else {
        about(v.drop_last(), id)
    }
}

proof fn lemma_news_behind(a: Seq<News>, b: Seq<News>, id: Seq<char>)
    ensures
        created_in(a + b) == created_in(a) + created_in(b),
        removed_in(a + b) == removed_in(a) + removed_in(b),
        about(a + b, id) == about(a, id) + about(b, id),
    decreases b.len(),
{
    if b.len() == 0 {
        assert(a + b =~= a);
        assert(created_in(a) + created_in(b) =~= created_in(a));
        assert(removed_in(a) + removed_in(b) =~= removed_in(a));
        assert(about(a, id) + about(b, id) =~= about(a, id));
    } else {
        let c = b.drop_last();
        lemma_news_behind(a, c, id);
        assert((a + b).drop_last() =~= a + c);
        assert((a + b).last() == b.last());
        match b.last() {
            News::SessionCreated { id: x, .. } => {
                assert((created_in(a) + created_in(c)).push(x) =~= created_in(a) + created_in(
                    c,
                ).push(x));
            },
            News::SessionRemoved { id: x } => {
                assert((removed_in(a) + removed_in(c)).push(x) =~= removed_in(a) + removed_in(
                    c,
                ).push(x));
            },
            _ => {},
        }
        assert((about(a, id) + about(c, id)).push(b.last()) =~= about(a, id) + about(c, id).push(
            b.last(),
        ));
    }
}

proof fn lemma_one_piece(n: News, id: Seq<char>)
    ensures
        created_in(seq![n]) == (match n {
            News::SessionCreated { id: x, .. } => seq![x],
            _ => Seq::empty(),
        }),
        removed_in(seq![n]) == (match n {
            News::SessionRemoved { id: x } => seq![x],
            _ => Seq::empty(),
        }),
        about(seq![n], id) == (if is_about(n, id) {
            seq![n]
        } else {
            Seq::empty()
        }),
{
    let v = seq![n];
    assert(v.drop_last() =~= Seq::<News>::empty());
    reveal_with_fuel(created_in, 2);
    reveal_with_fuel(removed_in, 2);
    reveal_with_fuel(about, 2);
    assert(about(v, id) =~= (if is_about(n, id) {
        seq![n]
    } else {
        Seq::<News>::empty()
    }));
    match n {
        News::SessionCreated { id: x, .. } => {
            assert(created_in(v) =~= seq![x]);
        },
        News::SessionRemoved { id: x } => {
            assert(removed_in(v) =~= seq![x]);
        },
        _ => {},
    }
}

proof fn lemma_sight_of_id(node: Seq<char>, looks: Seq<Look>, id: Seq<char>)
    requires
        ids_differ(looks),
    ensures
        sight_at(seen_in(node, looks), global(node, id), 0) is Some <==> has_id(looks, id),
{
    let v = seen_in(node, looks);
    lemma_seen_in(node, looks);
    if has_id(looks, id) {
        let i = choose|i: int| 0 <= i < looks.len() && (#[trigger] looks[i]).id == id;
        assert(v[i] == sight(node, looks[i]));
        lemma_sight_somewhere(v, i, 0);
    } else {
        assert forall|j: int| 0 <= j < v.len() implies (#[trigger] v[j]).id != global(node, id) by {
            assert(v[j] == sight(node, looks[j]));
            if v[j].id == global(node, id) {
                lemma_global_differs(node, looks[j].id, id);
            }
        }
        lemma_sight_not_there(v, global(node, id), 0);
    }
}

proof fn lemma_told_of_one(
    last: Seq<Sight>,
    notify: bool,
    node: Seq<char>,
    look: Look,
    id: Seq<char>,
)
    ensures
        ({
            let c = change(last, true, node, look);
            let w = word(last, notify, node, look);
            let gid = global(node, look.id);
            &&& c.len() <= 1
            &&& created_in(c) == (if sight_at(last, gid, 0) is None {
                seq![gid]
            } else {
                Seq::empty()
            })
            &&& removed_in(c) == Seq::<Seq<char>>::empty()
            &&& about(c, id) == (if gid == id {
                c
            } else {
                Seq::empty()
            })
            &&& created_in(w) == Seq::<Seq<char>>::empty()
            &&& removed_in(w) == Seq::<Seq<char>>::empty()
            &&& about(w, id) == Seq::<News>::empty()
        }),
{
    let c = change(last, true, node, look);
    let w = word(last, notify, node, look);
    if c.len() > 0 {
        lemma_one_piece(c[0], id);
        assert(c =~= seq![c[0]]);
    } else {
        assert(about(c, id) =~= c);
    }
    if w.len() > 0 {
        lemma_one_piece(w[0], id);
        assert(w =~= seq![w[0]]);
    }
}

proof fn lemma_told_so_far(
    notify: bool,
    node: Seq<char>,
    first: Seq<Look>,
    second: Seq<Look>,
    n: int,
    id: Seq<char>,
)
    requires
        ids_differ(first),
        ids_differ(second),
        0 <= n <= second.len(),
    ensures
        ({
            let last = seen_in(node, first);
            let t = told(last, true, notify, node, second.take(n));
            &&& created_in(t) == only_in(node, second.take(n), first)
            &&& removed_in(t) == Seq::<Seq<char>>::empty()
            &&& !has_id(second.take(n), id) ==> about(t, global(node, id)) == Seq::<News>::empty()
            &&& forall|k: int|
                0 <= k < n && (#[trigger] second[k]).id == id ==> about(t, global(node, id)) == change(
                    last,
                    true,
                    node,
                    second[k],
                )
        }),
    decreases n,
{
    let last = seen_in(node, first);
    let gid = global(node, id);
    let all = second.take(n);
    let t = told(last, true, notify, node, all);
    if n == 0 {
        assert(all =~= Seq::<Look>::empty());
        assert(t =~= Seq::<News>::empty());
    } else {
        let m = n - 1;
        let l = second[m];
        lemma_told_so_far(notify, node, first, second, m, id);
        assert(all.drop_last() =~= second.take(m));
        assert(all.last() == l);
        let before = told(last, true, notify, node, second.take(m));
        let c = change(last, true, node, l);
        let w = word(last, notify, node, l);
        lemma_told_of_one(last, notify, node, l, gid);
        lemma_news_behind(before, c, gid);
        lemma_news_behind(before + c, w, gid);
        lemma_sight_of_id(node, first, l.id);
        assert(t == before + c + w);
        assert(created_in(t) =~= created_in(before) + created_in(c));
        assert(removed_in(t) =~= Seq::<Seq<char>>::empty());
        assert(about(t, gid) =~= about(before, gid) + about(c, gid));
        assert(created_in(t) =~= only_in(node, all, first));
        if global(node, l.id) == gid {
            lemma_global_differs(node, l.id, id);
            assert(!has_id(second.take(m), id)) by {
                assert forall|k: int| 0 <= k < m implies (#[trigger] second.take(m)[k]).id != id by {
                    assert(second.take(m)[k] == second[k]);
                    assert(second[k].id != second[m].id);
                }
            }
            assert(about(t, gid) =~= c);
            assert(has_id(all, id)) by {
                assert(all[m].id == id);
            }
            assert forall|k: int| 0 <= k < n && (#[trigger] second[k]).id == id implies k == m by {
                if k < m {
                    assert(second[k].id != second[m].id);
                }
            }
        } else {
            assert(about(t, gid) =~= about(before, gid));
            assert(l.id != id);
            if !has_id(all, id) {
                assert forall|k: int| 0 <= k < m implies (#[trigger] second.take(m)[k]).id != id by {
                    assert(second.take(m)[k] == all[k]);
                }
            }
        }
    }
}

proof fn lemma_gone_so_far(
    node: Seq<char>,
    first: Seq<Look>,
    second: Seq<Look>,
    n: int,
    id: Seq<char>,
)
    requires
        ids_differ(first),
        ids_differ(second),
        0 <= n <= first.len(),
    ensures
        ({
            let last = seen_in(node, first);
            let g = gone(last.take(n), seen_in(node, second));
            &&& created_in(g) == Seq::<Seq<char>>::empty()
            &&& removed_in(g) == only_in(node, first.take(n), second)
            &&& about(g, global(node, id)) == (if has_id(first.take(n), id) && !has_id(second, id) {
                seq![News::SessionRemoved { id: global(node, id) }]
            } else {
                Seq::empty()
            })
        }),
    decreases n,
{
    let last = seen_in(node, first);
    let now = seen_in(node, second);
    let gid = global(node, id);
    let g = gone(last.take(n), now);
    lemma_seen_in(node, first);
    if n == 0 {
        assert(last.take(n) =~= Seq::<Sight>::empty());
        assert(first.take(n) =~= Seq::<Look>::empty());
        assert(g =~= Seq::<News>::empty());
    } else {
        let m = n - 1;
        let l = first[m];
        lemma_gone_so_far(node, first, second, m, id);
        assert(last.take(n).drop_last() =~= last.take(m));
        assert(last.take(n).last() == last[m]);
        assert(last[m] == sight(node, l));
        assert(first.take(n).drop_last() =~= first.take(m));
        assert(first.take(n).last() == l);
        lemma_sight_of_id(node, second, l.id);
        let before = gone(last.take(m), now);
        if l.id == id {
            assert(first.take(n)[m].id == id);
            assert forall|k: int| 0 <= k < m implies (#[trigger] first.take(m)[k]).id != id by {
                assert(first.take(m)[k] == first[k]);
                assert(first[k].id != first[m].id);
            }
            assert(!has_id(first.take(m), id));
        } else {
            if has_id(first.take(m), id) {
                let k = choose|k: int|
                    0 <= k < first.take(m).len() && (#[trigger] first.take(m)[k]).id == id;
                assert(first.take(n)[k].id == id);
            }
            if has_id(first.take(n), id) {
                let k = choose|k: int|
                    0 <= k < first.take(n).len() && (#[trigger] first.take(n)[k]).id == id;
                assert(first.take(m)[k].id == id);
            }
            if global(node, l.id) == gid {
                lemma_global_differs(node, l.id, id);
            }
        }
        if !has_id(second, l.id) {
            let e = News::SessionRemoved { id: global(node, l.id) };
            assert(g =~= before.push(e));
            assert(g.drop_last() =~= before);
            assert(g.last() == e);
            if l.id == id {
                assert(about(g, gid) =~= seq![e]);
            }
        }
    }
}

proof fn lemma_only_in(node: Seq<char>, a: Seq<Look>, b: Seq<Look>, id: Seq<char>)
    requires
        ids_differ(a),
    ensures
        only_in(node, a, b).no_duplicates(),
        only_in(node, a, b).contains(global(node, id)) <==> has_id(a, id) && !has_id(b, id),
    decreases a.len(),
{
    let all = only_in(node, a, b);
    if a.len() > 0 {
        let w = a.drop_last();
        let l = a.last();
        assert forall|i: int, j: int| 0 <= i < j < w.len() implies (#[trigger] w[i]).id != (
        #[trigger] w[j]).id by {
            assert(a[i] == w[i] && a[j] == w[j]);
        }
        lemma_only_in(node, w, b, id);
        lemma_only_in(node, w, b, l.id);
        assert(!has_id(w, l.id)) by {
            assert forall|i: int| 0 <= i < w.len() implies (#[trigger] w[i]).id != l.id by {
                assert(a[i] == w[i]);
                assert(a[i].id != a[a.len() - 1].id);
            }
        }
        let rest = only_in(node, w, b);
        if has_id(w, id) {
            let i = choose|i: int| 0 <= i < w.len() && (#[trigger] w[i]).id == id;
            assert(a[i].id == id);
        }
        if has_id(a, id) && l.id != id {
            let i = choose|i: int| 0 <= i < a.len() && (#[trigger] a[i]).id == id;
            assert(w[i].id == id);
        }
        if l.id == id {
            assert(a[a.len() - 1].id == id);
        }
        if !has_id(b, l.id) {
            assert(all == rest.push(global(node, l.id)));
            assert(all[rest.len() as int] == global(node, l.id));
            if rest.contains(global(node, id)) {
                let k = rest.index_of(global(node, id));
                assert(all[k] == global(node, id));
            }
            if all.contains(global(node, id)) {
                let k = all.index_of(global(node, id));
                if k < rest.len() {
                    assert(rest[k] == global(node, id));
                } else {
                    lemma_global_differs(node, l.id, id);
                }
            }
            assert forall|i: int, j: int| 0 <= i < all.len() && 0 <= j < all.len() && i != j implies
                all[i] != all[j] by {
                if i == rest.len() {
                    assert(all[j] == rest[j]);
                } else if j == rest.len() {
                    assert(all[i] == rest[i]);
                } else {
                    assert(all[i] == rest[i] && all[j] == rest[j]);
                }
            }
        }
    }
}

/// What a second look tells, `first` being what the first one was shown and `second` what the second one
/// is. The sessions that are told of as new are those of the second look that the first one did not have,
/// and those told of as gone are those of the first that the second does not have, each once. Of any one
/// session at most one thing is told: one of both looks is told of as updated where something besides its
/// state changed, as in another state where only that did, and not at all otherwise.
pub proof fn lemma_second_look(
    notify: bool,
    node: Seq<char>,
    first: Seq<Look>,
    second: Seq<Look>,
    id: Seq<char>,
)
    requires
        ids_differ(first),
        ids_differ(second),
    ensures
        ({
            let last = seen_in(node, first);
            let now = seen_in(node, second);
            let r = told(last, true, notify, node, second) + gone(last, now);
            let gid = global(node, id);
            &&& created_in(r) == only_in(node, second, first)
            &&& removed_in(r) == only_in(node, first, second)
            &&& created_in(r).no_duplicates() && removed_in(r).no_duplicates()
            &&& created_in(r).contains(gid) <==> has_id(second, id) && !has_id(first, id)
            &&& removed_in(r).contains(gid) <==> has_id(first, id) && !has_id(second, id)
            &&& about(r, gid).len() <= 1
            &&& forall|i: int, j: int|
                0 <= i < first.len() && 0 <= j < second.len() && (#[trigger] first[i]).id == id && (
                #[trigger] second[j]).id == id ==> about(r, gid) == (if first[i].extras
                    != second[j].extras {
                    seq![News::SessionUpdated { id: gid, session: exported(node, second[j]) }]
                } else if first[i].standing != second[j].standing {
                    seq![News::StatusChanged { id: gid, standing: second[j].standing }]
                } else {
                    Seq::empty()
                })
        }),
{
    let last = seen_in(node, first);
    let now = seen_in(node, second);
    let t = told(last, true, notify, node, second);
    let g = gone(last, now);
    let r = t + g;
    let gid = global(node, id);
    lemma_seen_in(node, first);
    assert(second.take(second.len() as int) =~= second);
    assert(first.take(first.len() as int) =~= first);
    assert(last.take(first.len() as int) =~= last);
    lemma_told_so_far(notify, node, first, second, second.len() as int, id);
    lemma_gone_so_far(node, first, second, first.len() as int, id);
    lemma_news_behind(t, g, gid);
    lemma_only_in(node, second, first, id);
    lemma_only_in(node, first, second, id);
    assert(created_in(r) =~= only_in(node, second, first));
    assert(removed_in(r) =~= only_in(node, first, second));
    if has_id(second, id) {
        let j = choose|j: int| 0 <= j < second.len() && (#[trigger] second[j]).id == id;
        lemma_told_of_one(last, notify, node, second[j], gid);
        assert(about(r, gid) =~= change(last, true, node, second[j]));
    } else {
        assert(about(r, gid) =~= about(g, gid));
    }
    assert forall|i: int, j: int|
        0 <= i < first.len() && 0 <= j < second.len() && (#[trigger] first[i]).id == id && (
        #[trigger] second[j]).id == id implies about(r, gid) == (if first[i].extras
        != second[j].extras {
        seq![News::SessionUpdated { id: gid, session: exported(node, second[j]) }]
    } else if first[i].standing != second[j].standing {
        seq![News::StatusChanged { id: gid, standing: second[j].standing }]
    } else {
        Seq::empty()
    }) by {
        assert(has_id(second, id));
        assert(about(r, gid) =~= change(last, true, node, second[j]));
        assert(last[i] == sight(node, first[i]));
        assert forall|k: int| 0 <= k < i implies (#[trigger] last[k]).id != last[i].id by {
            assert(last[k] == sight(node, first[k]));
            if last[k].id == last[i].id {
                lemma_global_differs(node, first[k].id, first[i].id);
                assert(first[k].id != first[i].id);
            }
        }
        lemma_sight_there(last, 0, i);
    }
}

/// The notifications about the session with a global id, in the order in which they are told.
pub open spec fn calls(v: Seq<News>, id: Seq<char>) -> Seq<News>
    decreases v.len(),
{
    if v.len() == 0 {
        Seq::empty()
    } else if v.last() is Notification && v.last()->Notification_id == Some(id) {
        calls(v.drop_last(), id).push(v.last())
    } else {
        calls(v.drop_last(), id)
    }
}

proof fn lemma_calls_behind(a: Seq<News>, b: Seq<News>, id: Seq<char>)
    ensures
        calls(a + b, id) == calls(a, id) + calls(b, id),
    decreases b.len(),
{
    if b.len() == 0 {
        assert(a + b =~= a);
        assert(calls(a, id) + calls(b, id) =~= calls(a, id));
    } else {
        lemma_calls_behind(a, b.drop_last(), id);
        assert((a + b).drop_last() =~= a + b.drop_last());
        assert((a + b).last() == b.last());
        assert((calls(a, id) + calls(b.drop_last(), id)).push(b.last()) =~= calls(a, id) + calls(
            b.drop_last(),
            id,
        ).push(b.last()));
    }
}

proof fn lemma_calls_of_one(n: News, id: Seq<char>)
    ensures
        calls(seq![n], id) == (if n is Notification && n->Notification_id == Some(id) {
            seq![n]
        } else {
            Seq::empty()
        }),
{
    let none = Seq::<News>::empty();
    assert(seq![n].drop_last() =~= none);
    assert(calls(none, id) =~= none);
    assert(none.push(n) =~= seq![n]);
}

proof fn lemma_gone_calls_nobody(last: Seq<Sight>, now: Seq<Sight>, id: Seq<char>)
    ensures
        calls(gone(last, now), id) == Seq::<News>::empty(),
    decreases last.len(),
{
    if last.len() > 0 {
        let before = gone(last.drop_last(), now);
        let n = News::SessionRemoved { id: last.last().id };
        lemma_gone_calls_nobody(last.drop_last(), now, id);
        lemma_calls_of_one(n, id);
        lemma_calls_behind(before, seq![n], id);
        assert(before.push(n) =~= before + seq![n]);
    }
}

proof fn lemma_told_calls(
    last: Seq<Sight>,
    primed: bool,
    notify: bool,
    node: Seq<char>,
    looks: Seq<Look>,
    n: int,
    id: Seq<char>,
)
    requires
        ids_differ(looks),
        0 <= n <= looks.len(),
    ensures
        ({
            let t = told(last, primed, notify, node, looks.take(n));
            &&& !has_id(looks.take(n), id) ==> calls(t, global(node, id)) == Seq::<News>::empty()
            &&& forall|k: int|
                0 <= k < n && (#[trigger] looks[k]).id == id ==> calls(t, global(node, id)) == word(
                    last,
                    notify,
                    node,
                    looks[k],
                )
        }),
    decreases n,
{
    let all = looks.take(n);
    let gid = global(node, id);
    let t = told(last, primed, notify, node, all);
    if n == 0 {
        assert(all =~= Seq::<Look>::empty());
    } else {
        let m = n - 1;
        let l = looks[m];
        lemma_told_calls(last, primed, notify, node, looks, m, id);
        assert(all.drop_last() =~= looks.take(m));
        assert(all.last() == l);
        let before = told(last, primed, notify, node, looks.take(m));
        let c = change(last, primed, node, l);
        let w = word(last, notify, node, l);
        lemma_calls_behind(before, c, gid);
        lemma_calls_behind(before + c, w, gid);
        assert(t == before + c + w);
        assert(calls(c, gid) =~= Seq::<News>::empty()) by {
            if c.len() > 0 {
                lemma_calls_of_one(c[0], gid);
                assert(c =~= seq![c[0]]);
            }
        }
        if w.len() > 0 {
            lemma_calls_of_one(w[0], gid);
            assert(w =~= seq![w[0]]);
        }
        if l.id == id {
            assert(!has_id(looks.take(m), id)) by {
                assert forall|k: int| 0 <= k < m implies (#[trigger] looks.take(m)[k]).id != id by {
                    assert(looks.take(m)[k] == looks[k]);
                    assert(looks[k].id != looks[m].id);
                }
            }
            assert(calls(t, gid) =~= w);
            assert(has_id(all, id)) by {
                assert(all[m].id == id);
            }
            assert forall|k: int| 0 <= k < n && (#[trigger] looks[k]).id == id implies k == m by {
                if k < m {
                    assert(looks[k].id != looks[m].id);
                }
            }
        } else {
            if global(node, l.id) == gid {
                lemma_global_differs(node, l.id, id);
            }
            assert(calls(t, gid) =~= calls(before, gid));
            if !has_id(all, id) {
                assert forall|k: int| 0 <= k < m implies (#[trigger] looks.take(m)[k]).id != id by {
                    assert(looks.take(m)[k] == all[k]);
                }
            }
        }
    }
}

/// Of a session that is there at two looks a human is told once, where notifications are on and the way from
/// the one state to the other calls for it, and not at all otherwise. The title names the agent, the session
/// by the name that the user gave or else by the one that is shown, the node and what happened; the body is
/// the first line of the detail. Of a session that is there at only one of them nothing is told.
pub proof fn lemma_second_look_calls(
    notify: bool,
    node: Seq<char>,
    first: Seq<Look>,
    second: Seq<Look>,
    id: Seq<char>,
)
    requires
        ids_differ(first),
        ids_differ(second),
    ensures
        ({
            let last = seen_in(node, first);
            let r = told(last, true, notify, node, second) + gone(last, seen_in(node, second));
            let gid = global(node, id);
            &&& !has_id(first, id) || !has_id(second, id) ==> calls(r, gid) == Seq::<News>::empty()
            &&& forall|i: int, j: int|
                0 <= i < first.len() && 0 <= j < second.len() && (#[trigger] first[i]).id == id && (
                #[trigger] second[j]).id == id ==> calls(r, gid) == match verb(
                    second[j].origin,
                    first[i].standing.status,
                    second[j].standing.status,
                    second[j].standing.end_cause,
                ) {
                    Some(v) if notify => seq![
                        News::Notification {
                            id: Some(gid),
                            title: label(second[j].agent_type) + " / "@ + (
                            if second[j].display_name.len() > 0 {
                                second[j].display_name
                            } else {
                                second[j].name
                            }) + " @ "@ + node + " "@ + v,
                            body: first_line(second[j].standing.detail),
                            status: Some(second[j].standing.status),
                        },
                    ],
                    _ => Seq::empty(),
                }
        }),
{
    let last = seen_in(node, first);
    let now = seen_in(node, second);
    let t = told(last, true, notify, node, second);
    let g = gone(last, now);
    let gid = global(node, id);
    lemma_seen_in(node, first);
    lemma_sight_of_id(node, first, id);
    assert(second.take(second.len() as int) =~= second);
    lemma_told_calls(last, true, notify, node, second, second.len() as int, id);
    lemma_gone_calls_nobody(last, now, gid);
    lemma_calls_behind(t, g, gid);
    assert(calls(t + g, gid) =~= calls(t, gid));
    if has_id(second, id) && !has_id(first, id) {
        let j = choose|j: int| 0 <= j < second.len() && (#[trigger] second[j]).id == id;
        assert(word(last, notify, node, second[j]) =~= Seq::<News>::empty());
    }
    assert forall|i: int, j: int|
        0 <= i < first.len() && 0 <= j < second.len() && (#[trigger] first[i]).id == id && (
        #[trigger] second[j]).id == id implies calls(t + g, gid) == word(
        last,
        notify,
        node,
        second[j],
    ) && sight_at(last, gid, 0) == Some(i) && last[i].standing == first[i].standing by {
        assert(last[i] == sight(node, first[i]));
        assert forall|k: int| 0 <= k < i implies (#[trigger] last[k]).id != last[i].id by {
            assert(last[k] == sight(node, first[k]));
            if last[k].id == last[i].id {
                lemma_global_differs(node, first[k].id, first[i].id);
                assert(first[k].id != first[i].id);
            }
        }
        lemma_sight_there(last, 0, i);
    }
}

/// The first look tells a human of nothing, and neither does any look where notifications are off.
pub proof fn lemma_nobody_is_called(
    primed: bool,
    notify: bool,
    node: Seq<char>,
    first: Seq<Look>,
    second: Seq<Look>,
    id: Seq<char>,
)
    requires
        ids_differ(second),
        !notify || first.len() == 0,
    ensures
        calls(told(seen_in(node, first), primed, notify, node, second), global(node, id)) == Seq::<
            News,
        >::empty(),
{
    let last = seen_in(node, first);
    assert(second.take(second.len() as int) =~= second);
    lemma_told_calls(last, primed, notify, node, second, second.len() as int, id);
    if has_id(second, id) {
        let j = choose|j: int| 0 <= j < second.len() && (#[trigger] second[j]).id == id;
        assert(word(last, notify, node, second[j]) =~= Seq::<News>::empty());
    }
}

} // verus!
