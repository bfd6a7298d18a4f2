//! Quoting for the shell.

use crate::text;
use vstd::prelude::*;

verus! {

/// Whether `c` is an ASCII letter or digit.
pub open spec fn alphanumeric(c: char) -> bool {
    'a' <= c <= 'z' || 'A' <= c <= 'Z' || '0' <= c <= '9'
}

/// Whether `c` is an ASCII letter or digit.
pub fn is_alphanumeric(c: char) -> (r: bool)
    ensures
        r == alphanumeric(c),
{
    ('a' <= c && c <= 'z') || ('A' <= c && c <= 'Z') || ('0' <= c && c <= '9')
}

/// Whether every character of `s` is a letter, a digit or in `marks`.
pub open spec fn harmless(s: Seq<char>, marks: Seq<char>) -> bool {
    forall|i: int| 0 <= i < s.len() ==> alphanumeric(#[trigger] s[i]) || marks.contains(s[i])
}

/// `s` with each single quote ended, escaped and begun again.
pub open spec fn escaped(s: Seq<char>) -> Seq<char>
    decreases s.len(),
{
    if s.len() == 0 {
        s
    } else if s.last() == '\'' {
        escaped(s.drop_last()) + seq!['\'', '\\', '\'', '\'']
    } else {
        escaped(s.drop_last()).push(s.last())
    }
}

/// `s` as one word of a shell command: as it is where it is harmless, in single quotes otherwise.
pub open spec fn quoted(s: Seq<char>, marks: Seq<char>) -> Seq<char> {
    if harmless(s, marks) {
        s
    } else {
        seq!['\''] + escaped(s) + seq!['\'']
    }
}

/// `s` as one word of a shell command.
pub fn quote(s: &str, marks: &str) -> (out: String)
    ensures
        out@ == quoted(s@, marks@),
{
    let v = text::chars_of(s);
    let mut i: usize = 0;
    let mut safe: bool = true;
    while i < v.len()
        invariant
            v@ == s@,
            i <= v@.len(),
            safe == harmless(s@.take(i as int), marks@),
        decreases v@.len() - i,
    {
        let c: char = v[i];
        let ok: bool = is_alphanumeric(c) || text::has_char(marks, c);
        proof {
            let t = s@.take(i + 1);
            let u = s@.take(i as int);
            assert(forall|k: int| 0 <= k < i ==> t[k] == u[k]);
            assert(t[i as int] == c);
            if safe && ok {
                assert(harmless(t, marks@));
            } else if !safe {
                let k = choose|k: int|
                    0 <= k < u.len() && !(alphanumeric(#[trigger] u[k]) || marks@.contains(u[k]));
                assert(t[k] == u[k]);
                assert(!harmless(t, marks@));
            } else {
                assert(!(alphanumeric(t[i as int]) || marks@.contains(t[i as int])));
                assert(!harmless(t, marks@));
            }
        }
        safe = safe && ok;
        i += 1;
    }
    proof {
        assert(s@.take(i as int) =~= s@);
    }
    if safe {
        return text::string_of(&v);
    }
    let mut out = String::new();
    out.push('\'');
    let mut k: usize = 0;
    proof {
        assert(s@.take(0) =~= Seq::<char>::empty());
        assert(out@ =~= seq!['\''] + escaped(s@.take(0)));
    }
    while k < v.len()
        invariant
            v@ == s@,
            k <= v@.len(),
            out@ == seq!['\''] + escaped(s@.take(k as int)),
        decreases v@.len() - k,
    {
        proof {
            assert(s@.take(k + 1).drop_last() =~= s@.take(k as int));
            assert(s@.take(k + 1).last() == s@[k as int]);
        }
        if v[k] == '\'' {
            out.push('\'');
            out.push('\\');
            out.push('\'');
            out.push('\'');
        } else {
            out.push(v[k]);
        }
        proof {
            assert(out@ =~= seq!['\''] + escaped(s@.take(k + 1)));
        }
        k += 1;
    }
    proof {
        assert(s@.take(k as int) =~= s@);
    }
    out.push('\'');
    proof {
        assert(out@ =~= seq!['\''] + escaped(s@) + seq!['\'']);
    }
    out
}

/// What a POSIX shell makes of the rest of a word, `quoted` saying whether it stands between single
/// quotes: between them every character counts as it is; outside of them a backslash makes the next
/// one count as it is. Nothing where the word does not end with its quotes closed.
pub open spec fn word_value(t: Seq<char>, inside: bool) -> Option<Seq<char>>
    decreases t.len(),
{
    if t.len() == 0 {
        if inside {
            None
        } else {
            Some(Seq::empty())
        }
    } else if t[0] == '\'' {
        word_value(t.skip(1), !inside)
    } else if !inside && t[0] == '\\' {
        if t.len() == 1 {
            None
        } else {
            match word_value(t.skip(2), false) {
                Some(r) => Some(seq![t[1]] + r),
                None => None,
            }
        }
    } else {
        match word_value(t.skip(1), inside) {
            Some(r) => Some(seq![t[0]] + r),
            None => None,
        }
    }
}

proof fn lemma_escaped_value(s: Seq<char>, rest: Seq<char>)
    ensures
        word_value(escaped(s) + rest, true) == (match word_value(rest, true) {
            Some(r) => Some(s + r),
            None => None,
        }),
    decreases s.len(),
{
    if s.len() == 0 {
        assert(escaped(s) + rest =~= rest);
        if word_value(rest, true) is Some {
            assert(s + word_value(rest, true)->0 =~= word_value(rest, true)->0);
        }
    } else {
        let t = s.drop_last();
        let c = s.last();
        if c == '\'' {
            let tail = seq!['\'', '\\', '\'', '\''] + rest;
            assert(escaped(s) + rest =~= escaped(t) + tail);
            lemma_escaped_value(t, tail);
            assert(tail.skip(1) =~= seq!['\\', '\'', '\''] + rest);
            let t1 = tail.skip(1);
            assert(t1.skip(2) =~= seq!['\''] + rest);
            let t2 = t1.skip(2);
            assert(t2.skip(1) =~= rest);
            assert(word_value(t2, false) == word_value(rest, true));
            assert(word_value(tail, true) == word_value(t1, false));
            if word_value(rest, true) is Some {
                let r = word_value(rest, true)->0;
                assert(word_value(t1, false) == Some(seq!['\''] + r));
                assert(t + (seq!['\''] + r) =~= s + r);
            }
        } else {
            let tail = seq![c] + rest;
            assert(escaped(s) + rest =~= escaped(t) + tail);
            lemma_escaped_value(t, tail);
            assert(tail.skip(1) =~= rest);
            if word_value(rest, true) is Some {
                let r = word_value(rest, true)->0;
                assert(t + (seq![c] + r) =~= s + r);
            }
        }
    }
}

proof fn lemma_plain_value(s: Seq<char>)
    requires
        forall|i: int| 0 <= i < s.len() ==> (#[trigger] s[i]) != '\'' && s[i] != '\\',
    ensures
        word_value(s, false) == Some(s),
    decreases s.len(),
{
    if s.len() > 0 {
        let t = s.skip(1);
        assert forall|i: int| 0 <= i < t.len() implies (#[trigger] t[i]) != '\'' && t[i] != '\\' by {
            assert(t[i] == s[i + 1]);
        }
        lemma_plain_value(t);
        assert(s[0] != '\'' && s[0] != '\\');
        assert(seq![s[0]] + t =~= s);
    } else {
        assert(s =~= Seq::<char>::empty());
    }
}

/// A shell reads a quoted text back as the text, whatever it holds, provided that neither quotes nor
/// backslashes pass as harmless.
pub proof fn lemma_quoted_reads_back(s: Seq<char>, marks: Seq<char>)
    requires
        !marks.contains('\''),
        !marks.contains('\\'),
    ensures
        word_value(quoted(s, marks), false) == Some(s),
{
    if harmless(s, marks) {
        assert forall|i: int| 0 <= i < s.len() implies (#[trigger] s[i]) != '\'' && s[i] != '\\' by {
            assert(alphanumeric(s[i]) || marks.contains(s[i]));
        }
        lemma_plain_value(s);
    } else {
        let q = quoted(s, marks);
        let end = seq!['\''];
        assert(q.skip(1) =~= escaped(s) + end);
        lemma_escaped_value(s, end);
        assert(end.skip(1) =~= Seq::<char>::empty());
        assert(word_value(end.skip(1), false) == Some(Seq::<char>::empty()));
        assert(word_value(end, true) == Some(Seq::<char>::empty()));
        assert(s + Seq::<char>::empty() =~= s);
    }
}

} // verus!
