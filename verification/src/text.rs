//! Text as sequences of characters: the searching, splitting and trimming that the rest of the
//! crate is written with, each function stated over `Seq<char>`.

use vstd::prelude::*;

verus! {

/// `String::push` of std: the string gains one character at its end and nothing else changes.
pub assume_specification[ String::push ](s: &mut String, c: char)
    ensures
        final(s)@ == old(s)@.push(c),
;

/// The text that `Debug` of std writes for a string: between quotation marks, with escapes.
pub uninterp spec fn debug_text(s: Seq<char>) -> Seq<char>;

/// `Debug` of std's `str`, by `format!`.
#[verifier::external_body]
pub(crate) fn debug(s: &str) -> (out: String)
    ensures
        out@ == debug_text(s@),
{
    format!("{s:?}")
}

/// The texts of a sequence of strings.
pub open spec fn texts(v: Seq<String>) -> Seq<Seq<char>> {
    v.map_values(|s: String| s@)
}

/// The texts of a sequence of borrowed strings.
pub open spec fn strs(v: Seq<&str>) -> Seq<Seq<char>> {
    v.map_values(|s: &str| s@)
}

/// The text of an optional string.
pub open spec fn opt_text(o: Option<String>) -> Option<Seq<char>> {
    match o {
        Some(s) => Some(s@),
        None => None,
    }
}

/// The text of an optional borrowed string.
pub open spec fn opt_str(o: Option<&str>) -> Option<Seq<char>> {
    match o {
        Some(s) => Some(s@),
        None => None,
    }
}

/// The characters of `s`, in order.
pub fn chars_of(s: &str) -> (out: Vec<char>)
    ensures
        out@ == s@,
{
    let mut out: Vec<char> = Vec::new();
    for c in it: s.chars()
        invariant
            out@ == s@.take(it.index() as int),
            it.seq() == s@,
    {
        proof {
            assert(s@.take(it.index() + 1) =~= s@.take(it.index() as int).push(c));
        }
        out.push(c);
    }
    proof {
        assert(s@.take(s@.len() as int) =~= s@);
    }
    out
}

/// The string made of the characters `v[from..to]`.
pub fn string_of_range(v: &[char], from: usize, to: usize) -> (out: String)
    requires
        from <= to <= v@.len(),
    ensures
        out@ == v@.subrange(from as int, to as int),
{
    let mut out = String::new();
    let mut i: usize = from;
    while i < to
        invariant
            from <= i <= to <= v@.len(),
            out@ == v@.subrange(from as int, i as int),
        decreases to - i,
    {
        out.push(v[i]);
        proof {
            assert(v@.subrange(from as int, i + 1) =~= v@.subrange(from as int, i as int).push(
                v@[i as int],
            ));
        }
        i += 1;
    }
    out
}

/// The string made of the characters `v`.
pub fn string_of(v: &[char]) -> (out: String)
    ensures
        out@ == v@,
{
    let out = string_of_range(v, 0, v.len());
    proof {
        assert(v@.subrange(0, v@.len() as int) =~= v@);
    }
    out
}

/// Appends `t` to `s`.
pub fn push_str(s: &mut String, t: &str)
    ensures
        final(s)@ == old(s)@ + t@,
{
    for c in it: t.chars()
        invariant
            s@ == old(s)@ + t@.take(it.index() as int),
            it.seq() == t@,
    {
        proof {
            assert(t@.take(it.index() + 1) =~= t@.take(it.index() as int).push(c));
            assert(old(s)@ + t@.take(it.index() as int).push(c) =~= (old(s)@ + t@.take(
                it.index() as int,
            )).push(c));
        }
        s.push(c);
    }
    proof {
        assert(t@.take(t@.len() as int) =~= t@);
    }
}

/// `a` followed by `b`.
pub fn cat(a: &str, b: &str) -> (out: String)
    ensures
        out@ == a@ + b@,
{
    let mut out = a.to_owned();
    push_str(&mut out, b);
    out
}

/// `a`, `b` and `c` one after the other.
pub fn cat3(a: &str, b: &str, c: &str) -> (out: String)
    ensures
        out@ == a@ + b@ + c@,
{
    let mut out = cat(a, b);
    push_str(&mut out, c);
    out
}

/// Whether two character slices hold the same text.
pub fn same_chars(a: &[char], b: &[char]) -> (r: bool)
    ensures
        r == (a@ == b@),
{
    if a.len() != b.len() {
        return false;
    }
    let mut i: usize = 0;
    while i < a.len()
        invariant
            i <= a@.len(),
            a@.len() == b@.len(),
            a@.take(i as int) == b@.take(i as int),
        decreases a@.len() - i,
    {
        if a[i] != b[i] {
            proof {
                assert(a@[i as int] != b@[i as int]);
            }
            return false;
        }
        proof {
            assert(a@.take(i + 1) =~= a@.take(i as int).push(a@[i as int]));
            assert(b@.take(i + 1) =~= b@.take(i as int).push(b@[i as int]));
        }
        i += 1;
    }
    proof {
        assert(a@.take(i as int) =~= a@);
        assert(b@.take(i as int) =~= b@);
    }
    true
}

/// Whether two strings hold the same text.
pub fn same(a: &str, b: &str) -> (r: bool)
    ensures
        r == (a@ == b@),
{
    let x = chars_of(a);
    let y = chars_of(b);
    same_chars(&x, &y)
}

/// Whether two optional strings are equal.
pub fn same_opt(a: Option<&str>, b: Option<&str>) -> (r: bool)
    ensures
        r == (opt_str(a) == opt_str(b)),
{
    match (a, b) {
        (Some(x), Some(y)) => same(x, y),
        (None, None) => true,
        _ => false,
    }
}

/// Whether an optional string is there and holds the text `s`.
pub fn is_text(o: Option<&str>, s: &str) -> (r: bool)
    ensures
        r == (opt_str(o) == Some(s@)),
{
    match o {
        Some(t) => same(t, s),
        None => false,
    }
}

/// The first of two options that is there.
pub open spec fn either<A>(a: Option<A>, b: Option<A>) -> Option<A> {
    match a {
        Some(_) => a,
        None => b,
    }
}

/// What an option holds, or else `d`.
pub open spec fn or_else<A>(a: Option<A>, d: A) -> A {
    match a {
        Some(x) => x,
        None => d,
    }
}

/// A copy of an optional borrowed string.
pub fn owned_opt(o: Option<&str>) -> (r: Option<String>)
    ensures
        opt_text(r) == opt_str(o),
{
    match o {
        Some(s) => Some(s.to_owned()),
        None => None,
    }
}

/// Whether a string holds nothing.
pub fn is_empty(s: &str) -> (r: bool)
    ensures
        r == (s@.len() == 0),
{
    chars_of(s).len() == 0
}

/// A copy of an optional string.
pub fn copy_opt(o: &Option<String>) -> (r: Option<String>)
    ensures
        opt_text(r) == opt_text(*o),
{
    match o {
        Some(s) => Some(s.clone()),
        None => None,
    }
}

/// The text an optional string borrows.
pub fn borrow_opt(o: &Option<String>) -> (r: Option<&str>)
    ensures
        opt_str(r) == opt_text(*o),
{
    match o {
        Some(s) => Some(s.as_str()),
        None => None,
    }
}

/// Whether `v` holds the text `s`.
pub fn holds(v: &[String], s: &str) -> (r: bool)
    ensures
        r == texts(v@).contains(s@),
{
    let mut i: usize = 0;
    while i < v.len()
        invariant
            i <= v@.len(),
            forall|j: int| 0 <= j < i ==> texts(v@)[j] != s@,
        decreases v@.len() - i,
    {
        if same(v[i].as_str(), s) {
            proof {
                assert(texts(v@)[i as int] == s@);
            }
            return true;
        }
        i += 1;
    }
    false
}

/// The characters with the Unicode property White_Space.
pub open spec fn white(c: char) -> bool {
    let n = c as u32;
    ||| 0x09 <= n <= 0x0D
    ||| n == 0x20
    ||| n == 0x85
    ||| n == 0xA0
    ||| n == 0x1680
    ||| 0x2000 <= n <= 0x200A
    ||| n == 0x2028
    ||| n == 0x2029
    ||| n == 0x202F
    ||| n == 0x205F
    ||| n == 0x3000
}

/// Whether `c` is white space.
pub fn is_white(c: char) -> (r: bool)
    ensures
        r == white(c),
{
    let n: u32 = c as u32;
    (0x09 <= n && n <= 0x0D) || n == 0x20 || n == 0x85 || n == 0xA0 || n == 0x1680 || (0x2000 <= n
        && n <= 0x200A) || n == 0x2028 || n == 0x2029 || n == 0x202F || n == 0x205F || n == 0x3000
}

/// The characters of the Unicode category Cc.
pub open spec fn control(c: char) -> bool {
    (c as u32) < 0x20 || 0x7F <= (c as u32) <= 0x9F
}

/// Whether `c` is a control character.
pub fn is_control(c: char) -> (r: bool)
    ensures
        r == control(c),
{
    let n: u32 = c as u32;
    n < 0x20 || (0x7F <= n && n <= 0x9F)
}

/// `s` without the white space at its front.
pub open spec fn trimmed_start(s: Seq<char>) -> Seq<char>
    decreases s.len(),
{
    if s.len() > 0 && white(s[0]) {
        trimmed_start(s.skip(1))
    } else {
        s
    }
}

/// `s` without the white space at its end.
pub open spec fn trimmed_end(s: Seq<char>) -> Seq<char>
    decreases s.len(),
{
    if s.len() > 0 && white(s.last()) {
        trimmed_end(s.drop_last())
    } else {
        s
    }
}

/// `s` without the white space at either end.
pub open spec fn trimmed(s: Seq<char>) -> Seq<char> {
    trimmed_end(trimmed_start(s))
}

proof fn lemma_trimmed_start(s: Seq<char>, i: int)
    requires
        0 <= i <= s.len(),
        forall|j: int| 0 <= j < i ==> white(s[j]),
    ensures
        trimmed_start(s) == trimmed_start(s.skip(i)),
    decreases i,
{
    if i > 0 {
        lemma_trimmed_start(s.skip(1), i - 1);
        assert(s.skip(1).skip(i - 1) =~= s.skip(i));
    } else {
        assert(s.skip(0) =~= s);
    }
}

proof fn lemma_trimmed_end(s: Seq<char>, i: int)
    requires
        0 <= i <= s.len(),
        forall|j: int| i <= j < s.len() ==> white(s[j]),
    ensures
        trimmed_end(s) == trimmed_end(s.take(i)),
    decreases s.len() - i,
{
    if i < s.len() {
        lemma_trimmed_end(s.drop_last(), i);
        assert(s.drop_last().take(i) =~= s.take(i));
    } else {
        assert(s.take(i) =~= s);
    }
}

/// The bounds of what trimming keeps of `v[from..to]`: white space goes from the front when
/// `front` is set and from the end when `back` is.
fn trim_bounds(v: &[char], front: bool, back: bool) -> (r: (usize, usize))
    ensures
        r.0 <= r.1 <= v@.len(),
        v@.subrange(r.0 as int, r.1 as int) == {
            let a = if front {
                trimmed_start(v@)
            } else {
                v@
            };
            if back {
                trimmed_end(a)
            } else {
                a
            }
        },
{
    let n: usize = v.len();
    let mut i: usize = 0;
    if front {
        while i < n && is_white(v[i])
            invariant
                n == v@.len(),
                i <= n,
                forall|j: int| 0 <= j < i ==> white(v@[j]),
            decreases n - i,
        {
            i += 1;
        }
        proof {
            lemma_trimmed_start(v@, i as int);
        }
    } else {
        proof {
            assert(v@.skip(0) =~= v@);
        }
    }
    let ghost a = v@.skip(i as int);
    let mut k: usize = n;
    if back {
        while k > i && is_white(v[k - 1])
            invariant
                n == v@.len(),
                i <= k <= n,
                forall|j: int| k <= j < n ==> white(v@[j]),
            decreases k,
        {
            k -= 1;
        }
        proof {
            lemma_trimmed_end(a, k - i);
            assert(a.take(k - i) =~= v@.subrange(i as int, k as int));
            assert(k > i ==> a.take(k - i).last() == v@[k - 1]);
        }
    } else {
        proof {
            assert(v@.subrange(i as int, n as int) =~= a);
        }
    }
    (i, k)
}

/// `s` without the white space at either end.
pub fn trim(s: &str) -> (out: String)
    ensures
        out@ == trimmed(s@),
{
    let v = chars_of(s);
    let (i, k) = trim_bounds(&v, true, true);
    string_of_range(&v, i, k)
}

/// `s` without the white space at its front.
pub fn trim_start(s: &str) -> (out: String)
    ensures
        out@ == trimmed_start(s@),
{
    let v = chars_of(s);
    let (i, k) = trim_bounds(&v, true, false);
    string_of_range(&v, i, k)
}

/// `s` without the white space at its end.
pub fn trim_end(s: &str) -> (out: String)
    ensures
        out@ == trimmed_end(s@),
{
    let v = chars_of(s);
    let (i, k) = trim_bounds(&v, false, true);
    string_of_range(&v, i, k)
}

/// Whether the text `p` stands in `s` at `i`.
pub open spec fn occurs_at(s: Seq<char>, p: Seq<char>, i: int) -> bool {
    0 <= i && i + p.len() <= s.len() && s.subrange(i, i + p.len()) == p
}

/// Whether the text `p` stands anywhere in `s`.
pub open spec fn occurs(s: Seq<char>, p: Seq<char>) -> bool {
    exists|i: int| occurs_at(s, p, i)
}

/// Whether `s` begins with `p`.
pub open spec fn begins(s: Seq<char>, p: Seq<char>) -> bool {
    occurs_at(s, p, 0)
}

/// Whether `s` ends with `p`.
pub open spec fn finishes(s: Seq<char>, p: Seq<char>) -> bool {
    occurs_at(s, p, s.len() - p.len())
}

/// Whether `p` stands in `s` at `i`.
pub fn stands_at(s: &[char], p: &[char], i: usize) -> (r: bool)
    ensures
        r == occurs_at(s@, p@, i as int),
{
    if p.len() > s.len() || i > s.len() - p.len() {
        return false;
    }
    let mut k: usize = 0;
    let n: usize = s.len();
    while k < p.len()
        invariant
            k <= p@.len(),
            n == s@.len(),
            i + p@.len() <= s@.len(),
            forall|j: int| 0 <= j < k ==> s@[i + j] == p@[j],
        decreases p@.len() - k,
    {
        if s[i + k] != p[k] {
            proof {
                assert(s@.subrange(i as int, i + p@.len())[k as int] != p@[k as int]);
            }
            return false;
        }
        k += 1;
    }
    proof {
        assert(s@.subrange(i as int, i + p@.len()) =~= p@);
    }
    true
}

/// The first place at or after `from` where `p` stands in `s`.
pub fn find_from(s: &[char], p: &[char], from: usize) -> (r: Option<usize>)
    ensures
        match r {
            Some(i) => from <= i && occurs_at(s@, p@, i as int) && forall|j: int|
                from <= j < i ==> !occurs_at(s@, p@, j),
            None => forall|j: int| from <= j ==> !occurs_at(s@, p@, j),
        },
{
    if p.len() > s.len() {
        return None;
    }
    let last: usize = s.len() - p.len();
    let mut i: usize = from;
    while i <= last
        invariant
            last == s@.len() - p@.len(),
            from <= i,
            forall|j: int| from <= j < i ==> !occurs_at(s@, p@, j),
        decreases last + 1 - i,
    {
        if stands_at(s, p, i) {
            return Some(i);
        }
        if i == usize::MAX {
            return None;
        }
        i += 1;
    }
    None
}

/// Whether `s` begins with `p`.
pub fn starts_with(s: &str, p: &str) -> (r: bool)
    ensures
        r == begins(s@, p@),
{
    let x = chars_of(s);
    let y = chars_of(p);
    stands_at(&x, &y, 0)
}

/// Whether `s` ends with `p`.
pub fn ends_with(s: &str, p: &str) -> (r: bool)
    ensures
        r == finishes(s@, p@),
{
    let x = chars_of(s);
    let y = chars_of(p);
    if y.len() > x.len() {
        return false;
    }
    stands_at(&x, &y, x.len() - y.len())
}

/// Whether `p` stands anywhere in `s`.
pub fn contains(s: &str, p: &str) -> (r: bool)
    ensures
        r == occurs(s@, p@),
{
    let x = chars_of(s);
    let y = chars_of(p);
    match find_from(&x, &y, 0) {
        Some(i) => {
            assert(occurs_at(s@, p@, i as int));
            true
        },
        None => false,
    }
}

/// Whether the character `c` is in `s`.
pub fn has_char(s: &str, c: char) -> (r: bool)
    ensures
        r == s@.contains(c),
{
    let x = chars_of(s);
    let mut i: usize = 0;
    while i < x.len()
        invariant
            x@ == s@,
            i <= x@.len(),
            forall|j: int| 0 <= j < i ==> s@[j] != c,
        decreases x@.len() - i,
    {
        if x[i] == c {
            assert(s@[i as int] == c);
            return true;
        }
        i += 1;
    }
    false
}

/// What follows `p` in a text that begins with it.
pub open spec fn after_prefix(s: Seq<char>, p: Seq<char>) -> Option<Seq<char>> {
    if begins(s, p) {
        Some(s.skip(p.len() as int))
    } else {
        None
    }
}

/// What follows `p` in `s`, if `s` begins with `p`.
pub fn strip_prefix(s: &str, p: &str) -> (r: Option<String>)
    ensures
        opt_text(r) == after_prefix(s@, p@),
{
    let x = chars_of(s);
    let y = chars_of(p);
    if stands_at(&x, &y, 0) {
        let out = string_of_range(&x, y.len(), x.len());
        assert(out@ =~= s@.skip(p@.len() as int));
        Some(out)
    } else {
        None
    }
}

/// The pieces of `s` between the characters `c`.
pub open spec fn split(s: Seq<char>, c: char) -> Seq<Seq<char>>
    decreases s.len(),
{
    if s.len() == 0 {
        seq![Seq::<char>::empty()]
    } else {
        let r = split(s.drop_last(), c);
        if s.last() == c {
            r.push(Seq::empty())
        } else {
            r.drop_last().push(r.last().push(s.last()))
        }
    }
}

pub proof fn lemma_split_nonempty(s: Seq<char>, c: char)
    ensures
        split(s, c).len() >= 1,
    decreases s.len(),
{
    if s.len() > 0 {
        lemma_split_nonempty(s.drop_last(), c);
    }
}

/// The pieces of `s` between the characters `c`.
pub fn split_char(s: &str, c: char) -> (out: Vec<String>)
    ensures
        texts(out@) == split(s@, c),
{
    let x = chars_of(s);
    let mut out: Vec<String> = Vec::new();
    let mut cur = String::new();
    let mut i: usize = 0;
    proof {
        assert(texts(out@).push(cur@) =~= split(s@.take(0), c));
    }
    while i < x.len()
        invariant
            x@ == s@,
            i <= x@.len(),
            texts(out@).push(cur@) == split(s@.take(i as int), c),
        decreases x@.len() - i,
    {
        proof {
            assert(s@.take(i + 1).drop_last() =~= s@.take(i as int));
            assert(s@.take(i + 1).last() == s@[i as int]);
        }
        let ghost before = texts(out@).push(cur@);
        if x[i] == c {
            out.push(cur);
            cur = String::new();
            proof {
                assert(texts(out@) =~= before);
                assert(cur@ =~= Seq::<char>::empty());
            }
        } else {
            cur.push(x[i]);
            proof {
                assert(before.drop_last() =~= texts(out@));
            }
        }
        i += 1;
    }
    proof {
        assert(s@.take(i as int) =~= s@);
    }
    let ghost before = texts(out@).push(cur@);
    out.push(cur);
    proof {
        assert(texts(out@) =~= before);
    }
    out
}

/// The non-empty pieces of `s` between white space.
pub open spec fn words(s: Seq<char>) -> Seq<Seq<char>> {
    words_of(s, s.len() as int)
}

/// The words of the first `n` characters, the last of them possibly unfinished.
pub open spec fn words_of(s: Seq<char>, n: int) -> Seq<Seq<char>>
    decreases n,
{
    if n <= 0 || n > s.len() {
        Seq::empty()
    } else if white(s[n - 1]) {
        words_of(s, n - 1)
    } else if n >= 2 && !white(s[n - 2]) {
        let r = words_of(s, n - 1);
        r.drop_last().push(r.last().push(s[n - 1]))
    } else {
        words_of(s, n - 1).push(seq![s[n - 1]])
    }
}

/// The non-empty pieces of `s` between white space.
pub fn split_whitespace(s: &str) -> (out: Vec<String>)
    ensures
        texts(out@) == words(s@),
{
    let x = chars_of(s);
    let mut out: Vec<String> = Vec::new();
    let mut cur = String::new();
    let mut i: usize = 0;
    proof {
        assert(texts(out@) =~= words_of(s@, 0));
    }
    while i < x.len()
        invariant
            x@ == s@,
            i <= x@.len(),
            (i == 0 || white(s@[i - 1])) ==> cur@.len() == 0,
            (i > 0 && !white(s@[i - 1])) ==> cur@.len() > 0,
            cur@.len() == 0 ==> words_of(s@, i as int) == texts(out@),
            cur@.len() > 0 ==> words_of(s@, i as int) == texts(out@).push(cur@),
        decreases x@.len() - i,
    {
        let c: char = x[i];
        let ghost old_words = words_of(s@, i as int);
        if is_white(c) {
            if i > 0 && !is_white(x[i - 1]) {
                let ghost before = texts(out@).push(cur@);
                out.push(cur);
                cur = String::new();
                proof {
                    assert(texts(out@) =~= before);
                }
            }
            proof {
                assert(words_of(s@, i + 1) == old_words);
            }
        } else {
            let ghost was = cur@;
            cur.push(c);
            proof {
                if i > 0 && !white(s@[i - 1]) {
                    assert(old_words.drop_last() =~= texts(out@));
                    assert(old_words.last() == was);
                } else {
                    assert(cur@ =~= seq![c]);
                }
            }
        }
        i += 1;
    }
    if x.len() > 0 && !is_white(x[x.len() - 1]) {
        let ghost before = texts(out@).push(cur@);
        out.push(cur);
        proof {
            assert(texts(out@) =~= before);
        }
    }
    out
}

/// A line without the carriage return at its end.
pub open spec fn without_cr(s: Seq<char>) -> Seq<char> {
    if s.len() > 0 && s.last() == '\r' {
        s.drop_last()
    } else {
        s
    }
}

/// The lines of `s`: each ends at a line feed, which goes along with a carriage return before
/// it; an empty rest after the last line feed is no line.
pub open spec fn lines(s: Seq<char>) -> Seq<Seq<char>> {
    let p = split(s, '\n');
    let done = p.drop_last().map_values(|l: Seq<char>| without_cr(l));
    if p.last().len() == 0 {
        done
    } else {
        done.push(p.last())
    }
}

/// The lines of `s`.
pub fn lines_of(s: &str) -> (out: Vec<String>)
    ensures
        texts(out@) == lines(s@),
{
    let pieces = split_char(s, '\n');
    let ghost p = split(s@, '\n');
    proof {
        lemma_split_nonempty(s@, '\n');
        assert(p.len() == pieces@.len());
    }
    let n: usize = pieces.len() - 1;
    let mut out: Vec<String> = Vec::new();
    let mut i: usize = 0;
    while i < n
        invariant
            texts(pieces@) == p,
            n == pieces@.len() - 1,
            i <= n,
            texts(out@) == p.take(i as int).map_values(|l: Seq<char>| without_cr(l)),
        decreases n - i,
    {
        proof {
            assert(p[i as int] == pieces@[i as int]@);
        }
        let v = chars_of(pieces[i].as_str());
        let ghost before = texts(out@);
        if v.len() > 0 && v[v.len() - 1] == '\r' {
            let l = string_of_range(&v, 0, v.len() - 1);
            assert(l@ =~= without_cr(p[i as int]));
            out.push(l);
        } else {
            out.push(pieces[i].clone());
        }
        proof {
            assert(texts(out@) =~= before.push(without_cr(p[i as int])));
            assert(p.take(i + 1).map_values(|l: Seq<char>| without_cr(l)) =~= texts(out@));
        }
        i += 1;
    }
    proof {
        assert(p.take(n as int) =~= p.drop_last());
        assert(p.last() == pieces@[n as int]@);
    }
    let tail = chars_of(pieces[n].as_str());
    if tail.len() > 0 {
        let ghost before = texts(out@);
        out.push(pieces[n].clone());
        proof {
            assert(texts(out@) =~= before.push(p.last()));
        }
    }
    out
}

/// The pieces with `sep` between each two.
pub open spec fn joined(v: Seq<Seq<char>>, sep: Seq<char>) -> Seq<char>
    decreases v.len(),
{
    if v.len() == 0 {
        Seq::empty()
    } else if v.len() == 1 {
        v[0]
    } else {
        joined(v.drop_last(), sep) + sep + v.last()
    }
}

/// The strings with `sep` between each two.
pub fn join(v: &[String], sep: &str) -> (out: String)
    ensures
        out@ == joined(texts(v@), sep@),
{
    let mut out = String::new();
    let mut i: usize = 0;
    proof {
        assert(texts(v@).take(0) =~= Seq::<Seq<char>>::empty());
    }
    while i < v.len()
        invariant
            i <= v@.len(),
            out@ == joined(texts(v@).take(i as int), sep@),
        decreases v@.len() - i,
    {
        proof {
            assert(texts(v@).take(i + 1).drop_last() =~= texts(v@).take(i as int));
        }
        if i > 0 {
            push_str(&mut out, sep);
            push_str(&mut out, v[i].as_str());
        } else {
            out = v[i].clone();
            assert(texts(v@).take(i + 1)[0] == out@);
        }
        i += 1;
    }
    proof {
        assert(texts(v@).take(i as int) =~= texts(v@));
    }
    out
}

/// The two sides of the first `c` in `s`.
pub open spec fn parted(s: Seq<char>, c: char) -> Option<(Seq<char>, Seq<char>)> {
    if s.contains(c) {
        let i = s.index_of_first(c).unwrap();
        Some((s.take(i), s.skip(i + 1)))
    } else {
        None
    }
}

/// The two sides of the first `c` in `s`.
pub fn split_once(s: &str, c: char) -> (r: Option<(String, String)>)
    ensures
        match r {
            Some((a, b)) => parted(s@, c) == Some((a@, b@)),
            None => parted(s@, c) is None,
        },
{
    let x = chars_of(s);
    let mut i: usize = 0;
    while i < x.len()
        invariant
            x@ == s@,
            i <= x@.len(),
            forall|j: int| 0 <= j < i ==> s@[j] != c,
        decreases x@.len() - i,
    {
        if x[i] == c {
            let a = string_of_range(&x, 0, i);
            let b = string_of_range(&x, i + 1, x.len());
            proof {
                assert(s@[i as int] == c);
                s@.index_of_first_ensures(c);
                assert(s@.index_of_first(c) == Some(i as int));
                assert(a@ =~= s@.take(i as int));
                assert(b@ =~= s@.skip(i + 1));
            }
            return Some((a, b));
        }
        i += 1;
    }
    None
}

/// `c` in lower case if it is an ASCII letter.
pub open spec fn ascii_lower_char(c: char) -> char {
    if 'A' <= c <= 'Z' {
        ((c as u32) + 32) as char
    } else {
        c
    }
}

/// `c` in upper case if it is an ASCII letter.
pub open spec fn ascii_upper_char(c: char) -> char {
    if 'a' <= c <= 'z' {
        ((c as u32) - 32) as char
    } else {
        c
    }
}

/// `s` with each ASCII letter in lower case.
pub open spec fn ascii_lower(s: Seq<char>) -> Seq<char> {
    s.map_values(|c: char| ascii_lower_char(c))
}

/// `s` with each ASCII letter in upper case.
pub open spec fn ascii_upper(s: Seq<char>) -> Seq<char> {
    s.map_values(|c: char| ascii_upper_char(c))
}

/// `s` with each ASCII letter in lower case.
pub fn to_ascii_lowercase(s: &str) -> (out: String)
    ensures
        out@ == ascii_lower(s@),
{
    let x = chars_of(s);
    let mut out = String::new();
    let mut i: usize = 0;
    while i < x.len()
        invariant
            x@ == s@,
            i <= x@.len(),
            out@ == ascii_lower(s@).take(i as int),
        decreases x@.len() - i,
    {
        let c: char = x[i];
        if 'A' <= c && c <= 'Z' {
            let d: u8 = c as u8;
            out.push((d + 32u8) as char);
        } else {
            out.push(c);
        }
        proof {
            assert(ascii_lower(s@).take(i + 1) =~= ascii_lower(s@).take(i as int).push(
                ascii_lower_char(c),
            ));
        }
        i += 1;
    }
    proof {
        assert(ascii_lower(s@).take(i as int) =~= ascii_lower(s@));
    }
    out
}

/// `s` with each ASCII letter in upper case.
pub fn to_ascii_uppercase(s: &str) -> (out: String)
    ensures
        out@ == ascii_upper(s@),
{
    let x = chars_of(s);
    let mut out = String::new();
    let mut i: usize = 0;
    while i < x.len()
        invariant
            x@ == s@,
            i <= x@.len(),
            out@ == ascii_upper(s@).take(i as int),
        decreases x@.len() - i,
    {
        let c: char = x[i];
        if 'a' <= c && c <= 'z' {
            let d: u8 = c as u8;
            out.push((d - 32u8) as char);
        } else {
            out.push(c);
        }
        proof {
            assert(ascii_upper(s@).take(i + 1) =~= ascii_upper(s@).take(i as int).push(
                ascii_upper_char(c),
            ));
        }
        i += 1;
    }
    proof {
        assert(ascii_upper(s@).take(i as int) =~= ascii_upper(s@));
    }
    out
}

proof fn lemma_words_of_front(s: Seq<char>, a: Seq<char>, n: int)
    requires
        0 <= n <= a.len() <= s.len(),
        forall|i: int| 0 <= i < a.len() ==> s[i] == a[i],
    ensures
        words_of(s, n) == words_of(a, n),
    decreases n,
{
    if n > 0 {
        lemma_words_of_front(s, a, n - 1);
    }
}

proof fn lemma_word_begun(s: Seq<char>, n: int)
    requires
        0 < n <= s.len(),
        !white(s[n - 1]),
    ensures
        words_of(s, n).len() > 0,
    decreases n,
{
    if n >= 2 && !white(s[n - 2]) {
        lemma_word_begun(s, n - 1);
    }
}

proof fn lemma_words_after_blank(a: Seq<char>, b: Seq<char>, k: int)
    requires
        0 <= k <= b.len(),
    ensures
        words_of(a + seq![' '] + b, a.len() + 1 + k) == words(a) + words_of(b, k),
    decreases k,
{
    let s = a + seq![' '] + b;
    let n = a.len() + 1 + k;
    if k == 0 {
        lemma_words_of_front(s, a, a.len() as int);
        assert(s[a.len() as int] == ' ');
        assert(words(a) + words_of(b, 0) =~= words(a));
    } else {
        lemma_words_after_blank(a, b, k - 1);
        assert(s[n - 1] == b[k - 1]);
        if white(b[k - 1]) {
        } else if k >= 2 && !white(b[k - 2]) {
            assert(s[n - 2] == b[k - 2]);
            lemma_word_begun(b, k - 1);
            let w = words_of(b, k - 1);
            assert((words(a) + w).drop_last().push((words(a) + w).last().push(b[k - 1]))
                =~= words(a) + w.drop_last().push(w.last().push(b[k - 1])));
        } else {
            if k == 1 {
                assert(s[n - 2] == ' ');
            } else {
                assert(s[n - 2] == b[k - 2]);
            }
            assert((words(a) + words_of(b, k - 1)).push(seq![b[k - 1]]) =~= words(a) + words_of(
                b,
                k - 1,
            ).push(seq![b[k - 1]]));
        }
    }
}

/// The words of two texts with a blank between them are the words of each.
pub proof fn lemma_words_joined(a: Seq<char>, b: Seq<char>)
    ensures
        words(a + seq![' '] + b) == words(a) + words(b),
{
    lemma_words_after_blank(a, b, b.len() as int);
}

proof fn lemma_one_word(s: Seq<char>, n: int)
    requires
        0 < n <= s.len(),
        forall|i: int| 0 <= i < n ==> !white(#[trigger] s[i]),
    ensures
        words_of(s, n) == seq![s.take(n)],
    decreases n,
{
    if n == 1 {
        assert(words_of(s, 0) =~= Seq::<Seq<char>>::empty());
        assert(s.take(1) =~= seq![s[0]]);
        assert(words_of(s, 1) =~= seq![s.take(1)]);
    } else {
        lemma_one_word(s, n - 1);
        assert(!white(s[n - 2]));
        assert(s.take(n - 1).push(s[n - 1]) =~= s.take(n));
        assert(words_of(s, n) =~= seq![s.take(n)]);
    }
}

/// A text without white space is one word.
pub proof fn lemma_word(s: Seq<char>)
    requires
        s.len() > 0,
        forall|i: int| 0 <= i < s.len() ==> !white(#[trigger] s[i]),
    ensures
        words(s) == seq![s],
{
    lemma_one_word(s, s.len() as int);
    assert(s.take(s.len() as int) =~= s);
}

/// Whether `s` can be a word: it is not empty and holds no white space.
pub open spec fn is_word(s: Seq<char>) -> bool {
    s.len() > 0 && forall|i: int| 0 <= i < s.len() ==> !white(#[trigger] s[i])
}

proof fn lemma_words_of_are_words(s: Seq<char>, n: int)
    requires
        0 <= n <= s.len(),
    ensures
        forall|k: int| 0 <= k < words_of(s, n).len() ==> is_word(#[trigger] words_of(s, n)[k]),
    decreases n,
{
    if n > 0 {
        lemma_words_of_are_words(s, n - 1);
        let r = words_of(s, n - 1);
        let all = words_of(s, n);
        if white(s[n - 1]) {
        } else if n >= 2 && !white(s[n - 2]) {
            lemma_word_begun(s, n - 1);
            let last = r.last().push(s[n - 1]);
            assert(is_word(r[r.len() - 1]));
            assert forall|i: int| 0 <= i < last.len() implies !white(#[trigger] last[i]) by {
                if i < r.last().len() {
                    assert(last[i] == r.last()[i]);
                }
            }
            assert forall|k: int| 0 <= k < all.len() implies is_word(#[trigger] all[k]) by {
                if k < r.len() - 1 {
                    assert(all[k] == r[k]);
                }
            }
        } else {
            assert forall|k: int| 0 <= k < all.len() implies is_word(#[trigger] all[k]) by {
                if k < r.len() {
                    assert(all[k] == r[k]);
                } else {
                    assert(all[k] == seq![s[n - 1]]);
                }
            }
        }
    }
}

/// The words of a text are words.
pub proof fn lemma_words_are_words(s: Seq<char>)
    ensures
        forall|k: int| 0 <= k < words(s).len() ==> is_word(#[trigger] words(s)[k]),
{
    lemma_words_of_are_words(s, s.len() as int);
}

/// Words that are joined with blanks are the words of what they make.
pub proof fn lemma_joined_words(v: Seq<Seq<char>>)
    requires
        forall|k: int| 0 <= k < v.len() ==> is_word(#[trigger] v[k]),
    ensures
        words(joined(v, seq![' '])) == v,
    decreases v.len(),
{
    if v.len() == 0 {
        assert(words(Seq::<char>::empty()) =~= v);
    } else if v.len() == 1 {
        assert(is_word(v[0]));
        lemma_word(v[0]);
        assert(seq![v[0]] =~= v);
    } else {
        let t = v.drop_last();
        assert forall|k: int| 0 <= k < t.len() implies is_word(#[trigger] t[k]) by {
            assert(t[k] == v[k]);
        }
        lemma_joined_words(t);
        assert(is_word(v[v.len() - 1]));
        lemma_word(v.last());
        lemma_words_joined(joined(t, seq![' ']), v.last());
        assert(t + seq![v.last()] =~= v);
    }
}

/// A text without a separator is one piece.
pub proof fn lemma_split_whole(s: Seq<char>, c: char)
    requires
        !s.contains(c),
    ensures
        split(s, c) == seq![s],
    decreases s.len(),
{
    if s.len() > 0 {
        let t = s.drop_last();
        assert forall|i: int| 0 <= i < t.len() implies t[i] != c by {
            assert(s[i] == t[i]);
            assert(s.contains(s[i]));
        }
        lemma_split_whole(t, c);
        assert(s[s.len() - 1] != c) by {
            assert(s.contains(s[s.len() - 1]));
        }
        assert(t.push(s.last()) =~= s);
        assert(split(s, c) =~= seq![s]);
    } else {
        assert(s =~= Seq::<char>::empty());
        assert(split(s, c) =~= seq![s]);
    }
}

/// One line, ended by a line feed, is read as that line.
pub proof fn lemma_one_line(s: Seq<char>)
    requires
        !s.contains('\n'),
        s.len() > 0,
        s.last() != '\r',
    ensures
        lines(s.push('\n')) == seq![s],
{
    lemma_split_whole(s, '\n');
    let t = s.push('\n');
    assert(t.drop_last() =~= s);
    let p = split(t, '\n');
    assert(p =~= seq![s, Seq::<char>::empty()]);
    assert(p.drop_last() =~= seq![s]);
    assert(lines(t) =~= seq![s]);
}

/// The first place from `i` on where `p` stands in `s`.
pub open spec fn first_at(s: Seq<char>, p: Seq<char>, i: int) -> Option<int>
    decreases s.len() + 1 - i,
{
    if i < 0 || i > s.len() {
        None
    } else if occurs_at(s, p, i) {
        Some(i)
    } else {
        first_at(s, p, i + 1)
    }
}

proof fn lemma_first_at(s: Seq<char>, p: Seq<char>, from: int, i: int)
    requires
        0 <= from <= i <= s.len(),
        forall|j: int| from <= j < i ==> !occurs_at(s, p, j),
    ensures
        first_at(s, p, from) == first_at(s, p, i),
    decreases i - from,
{
    if from < i {
        assert(!occurs_at(s, p, from));
        lemma_first_at(s, p, from + 1, i);
    }
}

/// The two sides of the first `p` in `s`.
pub open spec fn parted_by(s: Seq<char>, p: Seq<char>) -> Option<(Seq<char>, Seq<char>)> {
    match first_at(s, p, 0) {
        Some(i) => Some((s.take(i), s.skip(i + p.len()))),
        None => None,
    }
}

/// The two sides of the first `p` in `s`.
pub fn split_once_by(s: &str, p: &str) -> (r: Option<(String, String)>)
    ensures
        match r {
            Some((a, b)) => parted_by(s@, p@) == Some((a@, b@)),
            None => parted_by(s@, p@) is None,
        },
{
    let v = chars_of(s);
    let w = chars_of(p);
    let n: usize = v.len();
    match find_from(&v, &w, 0) {
        Some(i) => {
            let a = string_of_range(&v, 0, i);
            let b = string_of_range(&v, i + w.len(), n);
            proof {
                lemma_first_at(s@, p@, 0, i as int);
                assert(a@ =~= s@.take(i as int));
                assert(b@ =~= s@.skip(i + p@.len()));
            }
            Some((a, b))
        },
        None => {
            proof {
                lemma_first_at(s@, p@, 0, s@.len() as int);
                assert(!occurs_at(s@, p@, s@.len() as int));
                assert(first_at(s@, p@, s@.len() as int + 1) is None);
            }
            None
        },
    }
}

/// `s` with spaces behind it up to `n` characters.
pub open spec fn widened(s: Seq<char>, n: nat) -> Seq<char> {
    if s.len() < n {
        s + Seq::new((n - s.len()) as nat, |i: int| ' ')
    } else {
        s
    }
}

/// `s` with spaces behind it up to `n` characters.
pub fn widen(s: &str, n: usize) -> (out: String)
    ensures
        out@ == widened(s@, n as nat),
{
    let mut k: usize = chars_of(s).len();
    let mut out = s.to_owned();
    proof {
        assert(out@ =~= s@ + Seq::new((k - s@.len()) as nat, |i: int| ' '));
    }
    while k < n
        invariant
            s@.len() <= k,
            k <= n || k == s@.len(),
            out@ == s@ + Seq::new((k - s@.len()) as nat, |i: int| ' '),
        decreases n - k,
    {
        let ghost was = out@;
        out.push(' ');
        k += 1;
        proof {
            assert(out@ =~= s@ + Seq::new((k - s@.len()) as nat, |i: int| ' '));
        }
    }
    proof {
        assert(out@ =~= widened(s@, n as nat));
    }
    out
}

proof fn lemma_start_trimmed(s: Seq<char>) -> (i: int)
    ensures
        0 <= i <= s.len(),
        trimmed_start(s) == s.skip(i),
        forall|k: int| 0 <= k < i ==> white(#[trigger] s[k]),
        i < s.len() ==> !white(s[i]),
    decreases s.len(),
{
    if s.len() > 0 && white(s[0]) {
        let j = lemma_start_trimmed(s.skip(1));
        assert(s.skip(1).skip(j) =~= s.skip(j + 1));
        assert forall|k: int| 0 <= k < j + 1 implies white(#[trigger] s[k]) by {
            if k > 0 {
                assert(s[k] == s.skip(1)[k - 1]);
            }
        }
        j + 1
    } else {
        assert(s.skip(0) =~= s);
        0
    }
}

proof fn lemma_end_trimmed(s: Seq<char>) -> (j: int)
    ensures
        0 <= j <= s.len(),
        trimmed_end(s) == s.take(j),
        forall|k: int| j <= k < s.len() ==> white(#[trigger] s[k]),
        j > 0 ==> !white(s[j - 1]),
    decreases s.len(),
{
    if s.len() > 0 && white(s.last()) {
        let j = lemma_end_trimmed(s.drop_last());
        assert(s.drop_last().take(j) =~= s.take(j));
        assert forall|k: int| j <= k < s.len() implies white(#[trigger] s[k]) by {
            if k < s.len() - 1 {
                assert(s[k] == s.drop_last()[k]);
            }
        }
        j
    } else {
        assert(s.take(s.len() as int) =~= s);
        s.len() as int
    }
}

/// Trimming takes off the white space at both ends and nothing else: what is left is a piece of the text,
/// round which there is white space only, and which neither begins nor ends with any. A text without white
/// space at its ends stays as it is, and what was trimmed stays as it is.
pub proof fn lemma_trimmed(s: Seq<char>)
    ensures
        exists|i: int, j: int|
            {
                &&& 0 <= i <= j <= s.len()
                &&& trimmed(s) == #[trigger] s.subrange(i, j)
                &&& forall|k: int| 0 <= k < i || j <= k < s.len() ==> white(#[trigger] s[k])
            },
        trimmed(s).len() > 0 ==> !white(trimmed(s)[0]) && !white(trimmed(s).last()),
        s.len() > 0 && !white(s[0]) && !white(s.last()) ==> trimmed(s) == s,
        trimmed(s).len() == 0 <==> forall|k: int| 0 <= k < s.len() ==> white(#[trigger] s[k]),
        is_word(s) ==> trimmed(s) == s,
{
    let i = lemma_start_trimmed(s);
    let t = s.skip(i);
    let j = lemma_end_trimmed(t);
    assert(t.take(j) =~= s.subrange(i, i + j));
    assert forall|k: int| 0 <= k < i || i + j <= k < s.len() implies white(#[trigger] s[k]) by {
        if k >= i + j {
            assert(s[k] == t[k - i]);
        }
    }
    if j > 0 {
        assert(t[0] == s[i]);
        assert(t[j - 1] == s[i + j - 1]);
    }
    if s.len() > 0 && !white(s[0]) && !white(s.last()) {
        assert(i == 0);
        assert(t =~= s);
        assert(t[t.len() - 1] == s.last());
        assert(j == s.len());
        assert(t.take(j) =~= s);
    }
    if trimmed(s).len() == 0 {
        assert(j == 0);
    }
    if forall|k: int| 0 <= k < s.len() ==> white(#[trigger] s[k]) {
        if j > 0 {
            assert(white(s[i + j - 1]));
        }
    }
    if is_word(s) {
        assert(!white(s[0]) && !white(s[s.len() - 1]));
    }
}

/// A blank, a tab and the ends of lines are white space; letters, digits, quotes and dashes are none.
pub proof fn lemma_white(c: char)
    ensures
        c == ' ' || c == '\t' || c == '\n' || c == '\r' ==> white(c),
        '!' <= c <= '~' ==> !white(c),
{
}

/// A text of more than one line is split at the first end of a line: its first piece stands before it.
pub proof fn lemma_split_first(d: Seq<char>, c: char, rest: Seq<char>)
    requires
        !d.contains(c),
    ensures
        split(d + seq![c] + rest, c).len() >= 2,
        split(d + seq![c] + rest, c)[0] == d,
    decreases rest.len(),
{
    let s = d + seq![c] + rest;
    if rest.len() == 0 {
        assert(s.drop_last() =~= d);
        lemma_split_whole(d, c);
        assert(s.last() == c);
    } else {
        lemma_split_first(d, c, rest.drop_last());
        assert(s.drop_last() =~= d + seq![c] + rest.drop_last());
    }
}

/// The first line of a text is what stands before its first end of a line, without a carriage return.
pub proof fn lemma_lines_begin(d: Seq<char>, rest: Seq<char>)
    requires
        !d.contains('\n'),
    ensures
        lines(d + seq!['\n'] + rest).len() >= 1,
        lines(d + seq!['\n'] + rest)[0] == without_cr(d),
{
    lemma_split_first(d, '\n', rest);
    let p = split(d + seq!['\n'] + rest, '\n');
    let done = p.drop_last().map_values(|l: Seq<char>| without_cr(l));
    assert(done[0] == without_cr(d));
}

pub(crate) proof fn lemma_trimmed_cr(s: Seq<char>)
    ensures
        trimmed(without_cr(s)) == trimmed(s),
{
    if s.len() > 0 && s.last() == '\r' {
        lemma_end_dropped(s);
    }
}

proof fn lemma_end_dropped(s: Seq<char>)
    requires
        s.len() > 0,
        white(s.last()),
    ensures
        trimmed(s.drop_last()) == trimmed(s),
    decreases s.len(),
{
    let d = s.drop_last();
    if white(s[0]) {
        if s.len() == 1 {
            assert(s.skip(1) =~= Seq::<char>::empty());
            assert(d =~= Seq::<char>::empty());
        } else {
            lemma_end_dropped(s.skip(1));
            assert(s.skip(1).drop_last() =~= d.skip(1));
            assert(d[0] == s[0]);
        }
    } else {
        assert(s.len() > 1);
        assert(d[0] == s[0]);
    }
}

/// Splitting what is put together with the sign between gives the pieces of both.
pub proof fn lemma_split_joined(a: Seq<char>, c: char, b: Seq<char>)
    ensures
        split(a + seq![c] + b, c) == split(a, c) + split(b, c),
    decreases b.len(),
{
    let s = a + seq![c] + b;
    lemma_split_nonempty(a, c);
    lemma_split_nonempty(b, c);
    if b.len() == 0 {
        assert(s.drop_last() =~= a);
        assert(s.last() == c);
        assert(split(a, c).push(Seq::empty()) =~= split(a, c) + split(b, c));
    } else {
        let d = b.drop_last();
        lemma_split_joined(a, c, d);
        lemma_split_nonempty(d, c);
        assert(s.drop_last() =~= a + seq![c] + d);
        assert(s.last() == b.last());
        let r = split(a, c) + split(d, c);
        if b.last() == c {
            assert(r.push(Seq::empty()) =~= split(a, c) + split(d, c).push(Seq::empty()));
        } else {
            assert(r.last() == split(d, c).last());
            assert(r.drop_last().push(r.last().push(b.last())) =~= split(a, c) + split(
                d,
                c,
            ).drop_last().push(split(d, c).last().push(b.last())));
        }
    }
}

/// What stands before and after the first such sign is what was put there.
pub proof fn lemma_parted(a: Seq<char>, c: char, b: Seq<char>)
    requires
        !a.contains(c),
    ensures
        parted(a + seq![c] + b, c) == Some((a, b)),
        parted(a, c) is None,
{
    let s = a + seq![c] + b;
    assert(s[a.len() as int] == c);
    assert(s.contains(c));
    s.index_of_first_ensures(c);
    let i = s.index_of_first(c).unwrap();
    assert forall|k: int| 0 <= k < a.len() implies #[trigger] s[k] != c by {
        assert(s[k] == a[k]);
        assert(a.contains(a[k]));
    }
    assert(i == a.len());
    assert(s.take(i) =~= a);
    assert(s.skip(i + 1) =~= b);
}

/// A text begins with what it was begun with and ends with what it was ended with, and what is behind the
/// beginning is the rest.
pub proof fn lemma_begin_and_end(p: Seq<char>, s: Seq<char>)
    ensures
        begins(p + s, p),
        finishes(p + s, s),
        occurs(p + s, p),
        occurs(p + s, s),
        after_prefix(p + s, p) == Some(s),
        begins(s, p) ==> s == p + s.skip(p.len() as int),
        finishes(s, p) ==> s == s.take(s.len() - p.len()) + p,
{
    let t = p + s;
    assert(t.subrange(0, p.len() as int) =~= p);
    assert(t.subrange(p.len() as int, t.len() as int) =~= s);
    assert(t.skip(p.len() as int) =~= s);
    assert(occurs_at(t, p, 0));
    assert(occurs_at(t, s, p.len() as int));
    if begins(s, p) {
        assert(s =~= s.subrange(0, p.len() as int) + s.skip(p.len() as int));
    }
    if finishes(s, p) {
        assert(s =~= s.take(s.len() - p.len()) + s.subrange(s.len() - p.len(), s.len() as int));
    }
}

/// What stands before and behind the first such piece is what was put there.
pub proof fn lemma_parted_by(a: Seq<char>, p: Seq<char>, b: Seq<char>)
    requires
        p.len() > 0,
        !a.contains(p[0]),
    ensures
        parted_by(a + p + b, p) == Some((a, b)),
{
    let s = a + p + b;
    lemma_found_first(a, p, b, 0);
    assert(s.take(a.len() as int) =~= a);
    assert(s.skip(a.len() + p.len() as int) =~= b);
}

proof fn lemma_found_first(a: Seq<char>, p: Seq<char>, b: Seq<char>, i: int)
    requires
        p.len() > 0,
        !a.contains(p[0]),
        0 <= i <= a.len(),
    ensures
        first_at(a + p + b, p, i) == Some(a.len() as int),
    decreases a.len() - i,
{
    let s = a + p + b;
    if i == a.len() {
        assert(s.subrange(i, i + p.len()) =~= p);
    } else {
        if occurs_at(s, p, i) {
            assert(s.subrange(i, i + p.len())[0] == p[0]);
            assert(a[i] == p[0]);
        }
        lemma_found_first(a, p, b, i + 1);
    }
}

/// A text that was split is whole again when its pieces are put together with the sign between.
pub proof fn lemma_pieces_put_together(s: Seq<char>, c: char)
    ensures
        joined(split(s, c), seq![c]) == s,
        forall|i: int| 0 <= i < split(s, c).len() ==> !(#[trigger] split(s, c)[i]).contains(c),
    decreases s.len(),
{
    lemma_split_nonempty(s, c);
    if s.len() == 0 {
        assert(split(s, c)[0] =~= s);
    } else {
        let d = s.drop_last();
        let r = split(d, c);
        lemma_pieces_put_together(d, c);
        lemma_split_nonempty(d, c);
        let v = split(s, c);
        if s.last() == c {
            assert(v.drop_last() =~= r);
            assert(joined(v, seq![c]) =~= d + seq![c] + Seq::<char>::empty());
            assert(d + seq![c] + Seq::<char>::empty() =~= s);
            assert forall|i: int| 0 <= i < v.len() implies !(#[trigger] v[i]).contains(c) by {
                if i < r.len() {
                    assert(v[i] == r[i]);
                }
            }
        } else {
            assert(v.drop_last() =~= r.drop_last());
            assert(v.last() == r.last().push(s.last()));
            if v.len() > 1 {
                assert(joined(v, seq![c]) =~= joined(r, seq![c]).push(s.last()));
            } else {
                assert(r.len() == 1);
                assert(joined(r, seq![c]) == r[0]);
            }
            assert(d.push(s.last()) =~= s);
            assert forall|i: int| 0 <= i < v.len() implies !(#[trigger] v[i]).contains(c) by {
                if i < r.len() - 1 {
                    assert(v[i] == r[i]);
                } else {
                    let last = r[r.len() - 1];
                    assert(!last.contains(c));
                    if v[i].contains(c) {
                        let k = v[i].index_of(c);
                        if k < last.len() {
                            assert(last[k] == c);
                        }
                    }
                }
            }
        }
    }
}

/// Of the letters from A to Z each becomes its small one, or the other way round, and nothing else changes.
pub proof fn lemma_letters_of_either_case(c: char)
    ensures
        'A' <= c <= 'Z' ==> 'a' <= ascii_lower_char(c) <= 'z' && ascii_upper_char(ascii_lower_char(c)) == c,
        'a' <= c <= 'z' ==> 'A' <= ascii_upper_char(c) <= 'Z' && ascii_lower_char(ascii_upper_char(c)) == c,
        !('A' <= c <= 'Z') ==> ascii_lower_char(c) == c,
        !('a' <= c <= 'z') ==> ascii_upper_char(c) == c,
{
}

/// A text that is widened begins as it was, goes on with blanks, and is as wide as was asked, or wider where
/// it was so before.
pub proof fn lemma_widened(s: Seq<char>, n: nat)
    ensures
        widened(s, n).len() >= n,
        widened(s, n).len() == s.len() || widened(s, n).len() == n,
        widened(s, n).take(s.len() as int) == s,
        forall|i: int| s.len() <= i < widened(s, n).len() ==> (#[trigger] widened(s, n)[i]) == ' ',
{
    assert(widened(s, n).take(s.len() as int) =~= s);
}

/// White space at the start goes, up to the first character that is none.
pub proof fn lemma_start_goes(blank: Seq<char>, s: Seq<char>)
    requires
        forall|i: int| 0 <= i < blank.len() ==> white(#[trigger] blank[i]),
        s.len() > 0 ==> !white(s[0]),
    ensures
        trimmed_start(blank + s) == s,
    decreases blank.len(),
{
    if blank.len() == 0 {
        assert(blank + s =~= s);
    } else {
        let b = blank.skip(1);
        assert forall|i: int| 0 <= i < b.len() implies white(#[trigger] b[i]) by {
            assert(b[i] == blank[i + 1]);
        }
        lemma_start_goes(b, s);
        assert((blank + s).skip(1) =~= b + s);
        assert((blank + s)[0] == blank[0]);
        assert(white(blank[0]));
    }
}

} // verus!
