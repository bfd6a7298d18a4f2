//! A line diff: the shortest way from one text to another, as lines kept, added and removed.

use crate::text::{self, lines, texts};
use vstd::prelude::*;

verus! {

/// One step from a text to another.
pub enum Edit {
    Keep(Seq<char>),
    Add(Seq<char>),
    Remove(Seq<char>),
}

/// How many lines of `a[i..]` and `b[j..]` can be kept, in order.
pub open spec fn common(a: Seq<Seq<char>>, b: Seq<Seq<char>>, i: int, j: int) -> nat
    decreases a.len() - i, b.len() - j,
{
    if i < 0 || j < 0 || i >= a.len() || j >= b.len() {
        0
    } else if a[i] == b[j] {
        common(a, b, i + 1, j + 1) + 1
    } else {
        let x = common(a, b, i + 1, j);
        let y = common(a, b, i, j + 1);
        if x >= y {
            x
        } else {
            y
        }
    }
}

/// The steps from `a[i..]` to `b[j..]`: lines that are the same are kept; otherwise a line is
/// added if that loses no more common lines than removing one.
pub open spec fn steps(a: Seq<Seq<char>>, b: Seq<Seq<char>>, i: int, j: int) -> Seq<Edit>
    decreases a.len() - i, b.len() - j,
{
    if i < 0 || j < 0 || (i >= a.len() && j >= b.len()) {
        Seq::empty()
    } else if i < a.len() && j < b.len() && a[i] == b[j] {
        seq![Edit::Keep(a[i])] + steps(a, b, i + 1, j + 1)
    } else if j < b.len() && (i >= a.len() || common(a, b, i, j + 1) >= common(a, b, i + 1, j)) {
        seq![Edit::Add(b[j])] + steps(a, b, i, j + 1)
    } else {
        seq![Edit::Remove(a[i])] + steps(a, b, i + 1, j)
    }
}

/// The line that a step writes.
pub open spec fn step_text(e: Edit) -> Seq<char> {
    match e {
        Edit::Keep(l) => seq![' ', ' '] + l + seq!['\n'],
        Edit::Add(l) => seq!['+', ' '] + l + seq!['\n'],
        Edit::Remove(l) => seq!['-', ' '] + l + seq!['\n'],
    }
}

/// The lines that the steps write.
pub open spec fn steps_text(e: Seq<Edit>) -> Seq<char>
    decreases e.len(),
{
    if e.len() == 0 {
        Seq::empty()
    } else {
        step_text(e[0]) + steps_text(e.skip(1))
    }
}

/// The lines that the steps begin with.
pub open spec fn old_lines(e: Seq<Edit>) -> Seq<Seq<char>>
    decreases e.len(),
{
    if e.len() == 0 {
        Seq::empty()
    } else {
        match e[0] {
            Edit::Keep(l) => seq![l] + old_lines(e.skip(1)),
            Edit::Remove(l) => seq![l] + old_lines(e.skip(1)),
            Edit::Add(_) => old_lines(e.skip(1)),
        }
    }
}

/// The lines that the steps end with.
pub open spec fn new_lines(e: Seq<Edit>) -> Seq<Seq<char>>
    decreases e.len(),
{
    if e.len() == 0 {
        Seq::empty()
    } else {
        match e[0] {
            Edit::Keep(l) => seq![l] + new_lines(e.skip(1)),
            Edit::Add(l) => seq![l] + new_lines(e.skip(1)),
            Edit::Remove(_) => new_lines(e.skip(1)),
        }
    }
}

/// How many lines the steps keep.
pub open spec fn kept(e: Seq<Edit>) -> nat
    decreases e.len(),
{
    if e.len() == 0 {
        0
    } else {
        kept(e.skip(1)) + if e[0] is Keep {
            1nat
        } else {
            0
        }
    }
}

/// The steps lead from the one text to the other.
pub proof fn lemma_steps_lead(a: Seq<Seq<char>>, b: Seq<Seq<char>>, i: int, j: int)
    requires
        0 <= i <= a.len(),
        0 <= j <= b.len(),
    ensures
        old_lines(steps(a, b, i, j)) == a.skip(i),
        new_lines(steps(a, b, i, j)) == b.skip(j),
        kept(steps(a, b, i, j)) == common(a, b, i, j),
    decreases a.len() - i, b.len() - j,
{
    let e = steps(a, b, i, j);
    if i >= a.len() && j >= b.len() {
        assert(a.skip(i) =~= Seq::<Seq<char>>::empty());
        assert(b.skip(j) =~= Seq::<Seq<char>>::empty());
    } else if i < a.len() && j < b.len() && a[i] == b[j] {
        lemma_steps_lead(a, b, i + 1, j + 1);
        assert(e.skip(1) =~= steps(a, b, i + 1, j + 1));
        assert(a.skip(i) =~= seq![a[i]] + a.skip(i + 1));
        assert(b.skip(j) =~= seq![b[j]] + b.skip(j + 1));
    } else if j < b.len() && (i >= a.len() || common(a, b, i, j + 1) >= common(a, b, i + 1, j)) {
        lemma_steps_lead(a, b, i, j + 1);
        assert(e.skip(1) =~= steps(a, b, i, j + 1));
        assert(b.skip(j) =~= seq![b[j]] + b.skip(j + 1));
    } else {
        lemma_steps_lead(a, b, i + 1, j);
        assert(e.skip(1) =~= steps(a, b, i + 1, j));
        assert(a.skip(i) =~= seq![a[i]] + a.skip(i + 1));
    }
}

proof fn lemma_common_grows(a: Seq<Seq<char>>, b: Seq<Seq<char>>, i: int, j: int)
    requires
        0 <= i <= a.len(),
        0 <= j <= b.len(),
    ensures
        common(a, b, i + 1, j) <= common(a, b, i, j) <= common(a, b, i + 1, j) + 1,
        common(a, b, i, j + 1) <= common(a, b, i, j) <= common(a, b, i, j + 1) + 1,
        common(a, b, i, j) <= b.len() - j,
    decreases a.len() - i, b.len() - j,
{
    if i < a.len() && j < b.len() {
        lemma_common_grows(a, b, i + 1, j);
        lemma_common_grows(a, b, i, j + 1);
        lemma_common_grows(a, b, i + 1, j + 1);
    }
}

/// No other way from the one text to the other keeps more lines.
pub proof fn lemma_steps_keep_most(a: Seq<Seq<char>>, b: Seq<Seq<char>>, e: Seq<Edit>)
    requires
        old_lines(e) == a,
        new_lines(e) == b,
    ensures
        kept(e) <= kept(steps(a, b, 0, 0)),
{
    assert(a.skip(0) =~= a);
    assert(b.skip(0) =~= b);
    lemma_kept_at_most(a, b, 0, 0, e);
    lemma_steps_lead(a, b, 0, 0);
}

proof fn lemma_kept_at_most(a: Seq<Seq<char>>, b: Seq<Seq<char>>, i: int, j: int, e: Seq<Edit>)
    requires
        0 <= i <= a.len(),
        0 <= j <= b.len(),
        old_lines(e) == a.skip(i),
        new_lines(e) == b.skip(j),
    ensures
        kept(e) <= common(a, b, i, j),
    decreases e.len(),
{
    if e.len() > 0 {
        lemma_common_grows(a, b, i, j);
        let t = e.skip(1);
        match e[0] {
            Edit::Keep(l) => {
                assert(old_lines(e)[0] == l && new_lines(e)[0] == l);
                assert(old_lines(t) =~= old_lines(e).skip(1));
                assert(new_lines(t) =~= new_lines(e).skip(1));
                assert(a.skip(i).skip(1) =~= a.skip(i + 1));
                assert(b.skip(j).skip(1) =~= b.skip(j + 1));
                assert(a.skip(i).len() > 0 && b.skip(j).len() > 0);
                assert(a[i] == l && b[j] == l);
                lemma_kept_at_most(a, b, i + 1, j + 1, t);
            },
            Edit::Add(l) => {
                assert(new_lines(e)[0] == l);
                assert(new_lines(t) =~= new_lines(e).skip(1));
                assert(b.skip(j).skip(1) =~= b.skip(j + 1));
                assert(b.skip(j).len() > 0);
                lemma_kept_at_most(a, b, i, j + 1, t);
            },
            Edit::Remove(l) => {
                assert(old_lines(e)[0] == l);
                assert(old_lines(t) =~= old_lines(e).skip(1));
                assert(a.skip(i).skip(1) =~= a.skip(i + 1));
                assert(a.skip(i).len() > 0);
                lemma_kept_at_most(a, b, i + 1, j, t);
            },
        }
    }
}

/// The table of [`common`], filled from the last lines to the first: row `r` is that of the line
/// `a.len() - 1 - r`, and in it column `c` is that of the line `b.len() - 1 - c`.
spec fn filled(
    t: Seq<Vec<usize>>,
    a: Seq<Seq<char>>,
    b: Seq<Seq<char>>,
) -> bool {
    &&& forall|r: int| 0 <= r < t.len() ==> (#[trigger] t[r])@.len() == b.len()
    &&& forall|r: int, c: int|
        0 <= r < t.len() && 0 <= c < b.len() ==> #[trigger] t[r]@[c] == common(
            a,
            b,
            a.len() - 1 - r,
            b.len() - 1 - c,
        )
}

fn entry(
    t: &[Vec<usize>],
    i: usize,
    j: usize,
    n: usize,
    m: usize,
    Ghost(a): Ghost<Seq<Seq<char>>>,
    Ghost(b): Ghost<Seq<Seq<char>>>,
) -> (r: usize)
    requires
        n == a.len(),
        m == b.len(),
        filled(t@, a, b),
        i < n ==> n - 1 - i < t@.len(),
    ensures
        r == common(a, b, i as int, j as int),
{
    if i >= n || j >= m {
        0
    } else {
        let ghost x = t@[n - 1 - i]@[m - 1 - j];
        t[n - 1 - i][m - 1 - j]
    }
}

fn table(x: &[String], y: &[String]) -> (t: Vec<Vec<usize>>)
    ensures
        filled(t@, texts(x@), texts(y@)),
        t@.len() == x@.len(),
{
    let ghost a = texts(x@);
    let ghost b = texts(y@);
    let n: usize = x.len();
    let m: usize = y.len();
    let mut t: Vec<Vec<usize>> = Vec::new();
    while t.len() < n
        invariant
            a == texts(x@),
            b == texts(y@),
            n == a.len(),
            m == b.len(),
            t@.len() <= n,
            filled(t@, a, b),
        decreases n - t@.len(),
    {
        let i: usize = n - 1 - t.len();
        let mut row: Vec<usize> = Vec::new();
        while row.len() < m
            invariant
                a == texts(x@),
                b == texts(y@),
                n == a.len(),
                m == b.len(),
                i == n - 1 - t@.len(),
                i < n,
                filled(t@, a, b),
                row@.len() <= m,
                forall|c: int|
                    0 <= c < row@.len() ==> #[trigger] row@[c] == common(
                        a,
                        b,
                        i as int,
                        m - 1 - c,
                    ),
            decreases m - row@.len(),
        {
            let j: usize = m - 1 - row.len();
            proof {
                lemma_common_grows(a, b, i + 1, j + 1);
                lemma_common_grows(a, b, i as int, j as int);
                assert(a[i as int] == x@[i as int]@);
                assert(b[j as int] == y@[j as int]@);
            }
            let v: usize = if text::same(x[i].as_str(), y[j].as_str()) {
                entry(&t, i + 1, j + 1, n, m, Ghost(a), Ghost(b)) + 1
            } else {
                let p: usize = entry(&t, i + 1, j, n, m, Ghost(a), Ghost(b));
                let q: usize = if j + 1 >= m {
                    0
                } else {
                    proof {
                        assert(row@[m - 2 - j] == common(a, b, i as int, j + 1));
                    }
                    row[m - 2 - j]
                };
                if p >= q {
                    p
                } else {
                    q
                }
            };
            row.push(v);
        }
        let ghost before = t@;
        let ghost cells = row@;
        t.push(row);
        proof {
            assert forall|r: int, c: int| 0 <= r < t@.len() && 0 <= c < b.len() implies
                #[trigger] t@[r]@[c] == common(
                a,
                b,
                a.len() - 1 - r,
                b.len() - 1 - c,
            ) by {
                if r < before.len() {
                    assert(t@[r] == before[r]);
                    assert(before[r]@[c] == common(a, b, a.len() - 1 - r, b.len() - 1 - c));
                } else {
                    assert(t@[r]@ == cells);
                    assert(cells[c] == common(a, b, i as int, m - 1 - c));
                }
            }
        }
    }
    t
}

fn push_line(out: &mut String, mark: char, line: &str)
    ensures
        final(out)@ == old(out)@ + (seq![mark, ' '] + line@ + seq!['\n']),
{
    out.push(mark);
    out.push(' ');
    text::push_str(out, line);
    out.push('\n');
    proof {
        assert(out@ =~= old(out)@ + (seq![mark, ' '] + line@ + seq!['\n']));
    }
}

/// The lines of both texts: those in both behind two blanks, those of `after` alone behind `+`,
/// those of `before` alone behind `-`, in an order that keeps as many as can be kept.
pub fn diff(before: &str, after: &str) -> (out: String)
    ensures
        out@ == steps_text(steps(lines(before@), lines(after@), 0, 0)),
{
    let x = text::lines_of(before);
    let y = text::lines_of(after);
    let ghost a = lines(before@);
    let ghost b = lines(after@);
    let n: usize = x.len();
    let m: usize = y.len();
    proof {
        assert(n == a.len() && m == b.len());
    }
    let t = table(&x, &y);
    let mut i: usize = 0;
    let mut j: usize = 0;
    let mut out = String::new();
    proof {
        assert(out@ + steps_text(steps(a, b, 0, 0)) =~= steps_text(steps(a, b, 0, 0)));
    }
    while i < n || j < m
        invariant
            texts(x@) == a,
            texts(y@) == b,
            n == a.len(),
            m == b.len(),
            filled(t@, a, b),
            t@.len() == n,
            i <= n,
            j <= m,
            steps_text(steps(a, b, 0, 0)) == out@ + steps_text(steps(a, b, i as int, j as int)),
        decreases (n - i) + (m - j),
    {
        let ghost e = steps(a, b, i as int, j as int);
        let ghost was = out@;
        proof {
            assert(i < n ==> a[i as int] == x@[i as int]@);
            assert(j < m ==> b[j as int] == y@[j as int]@);
            assert(steps_text(e) == step_text(e[0]) + steps_text(e.skip(1)));
        }
        if i < n && j < m && text::same(x[i].as_str(), y[j].as_str()) {
            push_line(&mut out, ' ', x[i].as_str());
            proof {
                assert(e.skip(1) =~= steps(a, b, i + 1, j + 1));
                assert(was + (step_text(e[0]) + steps_text(e.skip(1))) =~= out@ + steps_text(
                    e.skip(1),
                ));
            }
            i += 1;
            j += 1;
        } else if j < m && (i == n || entry(&t, i, j + 1, n, m, Ghost(a), Ghost(b)) >= entry(
            &t,
            i + 1,
            j,
            n,
            m,
            Ghost(a),
            Ghost(b),
        )) {
            push_line(&mut out, '+', y[j].as_str());
            proof {
                assert(e.skip(1) =~= steps(a, b, i as int, j + 1));
                assert(was + (step_text(e[0]) + steps_text(e.skip(1))) =~= out@ + steps_text(
                    e.skip(1),
                ));
            }
            j += 1;
        } else {
            push_line(&mut out, '-', x[i].as_str());
            proof {
                assert(e.skip(1) =~= steps(a, b, i + 1, j as int));
                assert(was + (step_text(e[0]) + steps_text(e.skip(1))) =~= out@ + steps_text(
                    e.skip(1),
                ));
            }
            i += 1;
        }
    }
    proof {
        assert(steps(a, b, i as int, j as int) =~= Seq::<Edit>::empty());
        assert(out@ + Seq::<char>::empty() =~= out@);
    }
    out
}

/// A line is shown behind the sign for what becomes of it: a blank where it stays, a plus where it is new and
/// a minus where it goes.
pub proof fn lemma_how_a_step_is_shown(l: Seq<char>, e: Edit)
    ensures
        step_text(Edit::Keep(l))[0] == ' ',
        step_text(Edit::Add(l))[0] == '+',
        step_text(Edit::Remove(l))[0] == '-',
        step_text(Edit::Add(l)).subrange(2, 2 + l.len() as int) == l,
        step_text(Edit::Remove(l)).subrange(2, 2 + l.len() as int) == l,
        step_text(Edit::Keep(l)).subrange(2, 2 + l.len() as int) == l,
        step_text(e).last() == '\n',
{
    assert(step_text(Edit::Add(l)).subrange(2, 2 + l.len() as int) =~= l);
    assert(step_text(Edit::Remove(l)).subrange(2, 2 + l.len() as int) =~= l);
    assert(step_text(Edit::Keep(l)).subrange(2, 2 + l.len() as int) =~= l);
}

} // verus!
