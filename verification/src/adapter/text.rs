//! Reading a screen: what an agent without hooks is doing can only be guessed from the last lines
//! that it printed.
//!
//! Only the last [`TAIL_LINES`] lines that are not empty count, and a prompt counts only at the end
//! of its line with nothing but options below it: what `cat` printed an hour ago is no question.

use crate::status::{Detected, DetectionResult, Status};
use crate::text::{
    self, control, finishes, lines, occurs, opt_text, strs, texts, trimmed, trimmed_end,
    trimmed_start,
};
use vstd::prelude::*;

verus! {

/// How many lines from the end of the screen count.
pub const TAIL_LINES: usize = 8;

/// The escape character.
pub const ESC: char = '\u{1b}';

/// The bell character.
pub const BEL: char = '\u{7}';

/// What follows a control sequence: it ends with its first character from `@` to `~`.
pub open spec fn after_csi(s: Seq<char>) -> Seq<char>
    decreases s.len(),
{
    if s.len() == 0 {
        s
    } else if '\u{40}' <= s[0] <= '\u{7e}' {
        s.skip(1)
    } else {
        after_csi(s.skip(1))
    }
}

/// What follows an operating system command: it ends with a bell, or with an escape and a
/// backslash.
pub open spec fn after_osc(s: Seq<char>, prev: char) -> Seq<char>
    decreases s.len(),
{
    if s.len() == 0 {
        s
    } else if s[0] == BEL || (prev == ESC && s[0] == '\\') {
        s.skip(1)
    } else {
        after_osc(s.skip(1), s[0])
    }
}

proof fn lemma_after(s: Seq<char>, prev: char)
    ensures
        after_csi(s).len() <= s.len(),
        after_osc(s, prev).len() <= s.len(),
    decreases s.len(),
{
    if s.len() > 0 {
        lemma_after(s.skip(1), s[0]);
    }
}

/// `s` without escape sequences and without control characters other than line feeds and tabs.
pub open spec fn stripped(s: Seq<char>) -> Seq<char>
    decreases s.len(),
    via stripped_ends
{
    if s.len() == 0 {
        s
    } else if s[0] == ESC {
        if s.len() == 1 {
            Seq::empty()
        } else if s[1] == '[' {
            stripped(after_csi(s.skip(2)))
        } else if s[1] == ']' {
            stripped(after_osc(s.skip(2), '\0'))
        } else {
            stripped(s.skip(2))
        }
    } else if plain(s[0]) {
        seq![s[0]] + stripped(s.skip(1))
    } else {
        stripped(s.skip(1))
    }
}

#[via_fn]
proof fn stripped_ends(s: Seq<char>) {
    if s.len() >= 2 {
        lemma_after(s.skip(2), '\0');
    }
}

/// Whether `c` is no control character other than a line feed or a tab.
pub open spec fn plain(c: char) -> bool {
    c == '\n' || c == '\t' || !control(c)
}

/// Of what stripping leaves, line feeds and tabs are the only control characters.
pub proof fn lemma_stripped_is_plain(s: Seq<char>)
    ensures
        forall|i: int| 0 <= i < stripped(s).len() ==> plain(#[trigger] stripped(s)[i]),
    decreases s.len(),
{
    if s.len() > 0 {
        if s[0] == ESC {
            if s.len() >= 2 {
                lemma_after(s.skip(2), '\0');
                let r = if s[1] == '[' {
                    after_csi(s.skip(2))
                } else if s[1] == ']' {
                    after_osc(s.skip(2), '\0')
                } else {
                    s.skip(2)
                };
                lemma_stripped_is_plain(r);
                assert(stripped(s) == stripped(r));
            } else {
                assert(stripped(s).len() == 0);
            }
        } else {
            let t = stripped(s.skip(1));
            lemma_stripped_is_plain(s.skip(1));
            assert forall|i: int| 0 <= i < stripped(s).len() implies plain(
                #[trigger] stripped(s)[i],
            ) by {
                if plain(s[0]) {
                    assert(stripped(s) == seq![s[0]] + t);
                    if i > 0 {
                        assert(stripped(s)[i] == t[i - 1]);
                    }
                }
            }
        }
    }
}

/// Stripping leaves text without control characters as it is, so stripping twice is stripping
/// once.
pub proof fn lemma_stripped_keeps_plain(s: Seq<char>)
    requires
        forall|i: int| 0 <= i < s.len() ==> plain(#[trigger] s[i]),
    ensures
        stripped(s) == s,
    decreases s.len(),
{
    if s.len() > 0 {
        let t = s.skip(1);
        assert forall|i: int| 0 <= i < t.len() implies plain(#[trigger] t[i]) by {
            assert(t[i] == s[i + 1]);
        }
        lemma_stripped_keeps_plain(t);
        assert(plain(s[0]));
        assert(stripped(s) =~= s);
    }
}

fn skip_csi(v: &[char], from: usize) -> (i: usize)
    requires
        from <= v@.len(),
    ensures
        from <= i <= v@.len(),
        v@.skip(i as int) == after_csi(v@.skip(from as int)),
{
    let mut i: usize = from;
    while i < v.len()
        invariant
            from <= i <= v@.len(),
            after_csi(v@.skip(i as int)) == after_csi(v@.skip(from as int)),
        decreases v@.len() - i,
    {
        let c: char = v[i];
        proof {
            assert(v@.skip(i as int).skip(1) =~= v@.skip(i + 1));
        }
        if '\u{40}' <= c && c <= '\u{7e}' {
            return i + 1;
        }
        i += 1;
    }
    i
}

fn skip_osc(v: &[char], from: usize) -> (i: usize)
    requires
        from <= v@.len(),
    ensures
        from <= i <= v@.len(),
        v@.skip(i as int) == after_osc(v@.skip(from as int), '\0'),
{
    let mut i: usize = from;
    let mut prev: char = '\0';
    while i < v.len()
        invariant
            from <= i <= v@.len(),
            after_osc(v@.skip(i as int), prev) == after_osc(v@.skip(from as int), '\0'),
        decreases v@.len() - i,
    {
        let c: char = v[i];
        proof {
            assert(v@.skip(i as int).skip(1) =~= v@.skip(i + 1));
        }
        if c == BEL || (prev == ESC && c == '\\') {
            return i + 1;
        }
        prev = c;
        i += 1;
    }
    i
}

/// `s` without escape sequences and without control characters other than line feeds and tabs.
pub fn strip_ansi(s: &str) -> (out: String)
    ensures
        out@ == stripped(s@),
{
    let v = text::chars_of(s);
    let mut out = String::new();
    let mut i: usize = 0;
    proof {
        assert(s@.skip(0) =~= s@);
        assert(out@ + stripped(s@) =~= stripped(s@));
    }
    while i < v.len()
        invariant
            v@ == s@,
            i <= v@.len(),
            stripped(s@) == out@ + stripped(s@.skip(i as int)),
        decreases v@.len() - i,
    {
        let c: char = v[i];
        let ghost rest = s@.skip(i as int);
        let ghost was = out@;
        if c == ESC {
            if i + 1 == v.len() {
                i = i + 1;
                proof {
                    assert(s@.skip(i as int) =~= Seq::<char>::empty());
                }
            } else {
                proof {
                    assert(rest.skip(2) =~= s@.skip(i + 2));
                    assert(rest[1] == s@[i + 1]);
                }
                if v[i + 1] == '[' {
                    i = skip_csi(&v, i + 2);
                } else if v[i + 1] == ']' {
                    i = skip_osc(&v, i + 2);
                } else {
                    i = i + 2;
                }
            }
        } else {
            proof {
                assert(rest.skip(1) =~= s@.skip(i + 1));
            }
            if c == '\n' || c == '\t' || !text::is_control(c) {
                out.push(c);
                proof {
                    assert(was + (seq![c] + stripped(s@.skip(i + 1))) =~= out@ + stripped(
                        s@.skip(i + 1),
                    ));
                }
            }
            i += 1;
        }
    }
    proof {
        assert(s@.skip(i as int) =~= Seq::<char>::empty());
        assert(out@ + stripped(s@.skip(i as int)) =~= out@);
    }
    out
}

/// The lines that hold more than white space, each without the white space around it.
pub open spec fn filled_lines(ls: Seq<Seq<char>>) -> Seq<Seq<char>>
    decreases ls.len(),
{
    if ls.len() == 0 {
        ls
    } else {
        let r = filled_lines(ls.drop_last());
        let l = trimmed(ls.last());
        if l.len() == 0 {
            r
        } else {
            r.push(l)
        }
    }
}

/// The last `n` of `s`, or all of them.
pub open spec fn last_of(s: Seq<Seq<char>>, n: int) -> Seq<Seq<char>> {
    if s.len() <= n {
        s
    } else {
        s.skip(s.len() - n)
    }
}

/// The last `n` lines of a screen that are not empty.
pub open spec fn screen_tail(screen: Seq<char>, n: int) -> Seq<Seq<char>> {
    last_of(filled_lines(lines(stripped(screen))), n)
}

/// The last `n` lines of `screen` that are not empty, without escape sequences and without the
/// white space around them, in the order of the screen.
pub fn tail_lines(screen: &str, n: usize) -> (out: Vec<String>)
    ensures
        texts(out@) == screen_tail(screen@, n as int),
{
    let clean = strip_ansi(screen);
    let all = text::lines_of(clean.as_str());
    let ghost ls = texts(all@);
    let mut filled: Vec<String> = Vec::new();
    let mut i: usize = 0;
    proof {
        assert(ls.take(0) =~= Seq::<Seq<char>>::empty());
        assert(texts(filled@) =~= filled_lines(ls.take(0)));
    }
    while i < all.len()
        invariant
            ls == texts(all@),
            i <= all@.len(),
            texts(filled@) == filled_lines(ls.take(i as int)),
        decreases all@.len() - i,
    {
        let l = text::trim(all[i].as_str());
        proof {
            assert(ls.take(i + 1).drop_last() =~= ls.take(i as int));
            assert(ls.take(i + 1).last() == all@[i as int]@);
        }
        let empty: bool = text::chars_of(l.as_str()).len() == 0;
        if !empty {
            let ghost was = texts(filled@);
            let ghost lv = l@;
            filled.push(l);
            proof {
                assert(texts(filled@) =~= was.push(lv));
            }
        }
        i += 1;
    }
    proof {
        assert(ls.take(i as int) =~= ls);
    }
    let ghost f = texts(filled@);
    let start: usize = if filled.len() <= n {
        0
    } else {
        filled.len() - n
    };
    let mut out: Vec<String> = Vec::new();
    let mut k: usize = start;
    while k < filled.len()
        invariant
            f == texts(filled@),
            start <= k <= filled@.len(),
            texts(out@) == f.subrange(start as int, k as int),
        decreases filled@.len() - k,
    {
        let ghost was = texts(out@);
        out.push(filled[k].clone());
        proof {
            assert(texts(out@) =~= was.push(f[k as int]));
            assert(f.subrange(start as int, k + 1) =~= f.subrange(start as int, k as int).push(
                f[k as int],
            ));
        }
        k += 1;
    }
    proof {
        assert(f.subrange(start as int, f.len() as int) =~= last_of(f, n as int));
    }
    out
}

/// The first `max` characters of `s`.
pub open spec fn clipped(s: Seq<char>, max: int) -> Seq<char> {
    if s.len() <= max {
        s
    } else {
        s.take(max)
    }
}

/// The first `max` characters of `s`.
pub fn clip(s: &str, max: usize) -> (out: String)
    ensures
        out@ == clipped(s@, max as int),
{
    let v = text::chars_of(s);
    if v.len() <= max {
        text::string_of(&v)
    } else {
        let out = text::string_of_range(&v, 0, max);
        proof {
            assert(out@ =~= s@.take(max as int));
        }
        out
    }
}

/// The last line of `screen` that is not empty, at most `max_chars` characters of it.
pub fn last_line(screen: &str, max_chars: usize) -> (r: Option<String>)
    ensures
        opt_text(r) == {
            let t = screen_tail(screen@, 1);
            if t.len() == 0 {
                None
            } else {
                Some(clipped(t.last(), max_chars as int))
            }
        },
{
    let t = tail_lines(screen, 1);
    if t.len() == 0 {
        None
    } else {
        proof {
            assert(texts(t@).last() == t@[t@.len() - 1]@);
        }
        Some(clip(t[t.len() - 1].as_str(), max_chars))
    }
}

/// What `str::to_lowercase` of std makes of a text.
pub uninterp spec fn lower_case(s: Seq<char>) -> Seq<char>;

/// `str::to_lowercase` of std: the text in lower case, by the Unicode rules; of ASCII text, the
/// letters in lower case and all else unchanged.
pub assume_specification[ str::to_lowercase ](s: &str) -> (r: String)
    ensures
        r@ == lower_case(s@),
        (forall|i: int| 0 <= i < s@.len() ==> (#[trigger] s@[i]) < '\u{80}') ==> r@
            == text::ascii_lower(s@),
;

/// The ends of a line, in lower case, that ask for an answer.
pub open spec fn waiting_ends() -> Seq<Seq<char>> {
    seq![
        "[y/n]"@,
        "(y/n)"@,
        "[y/n]:"@,
        "(y/n):"@,
        "do you want to proceed?"@,
        "would you like"@,
        "approve"@,
        "allow"@,
        "continue?"@,
        "press enter"@,
        "press enter to continue"@,
        "press enter to continue..."@,
    ]
}

fn waiting_suffixes() -> (v: Vec<&'static str>)
    ensures
        strs(v@) == waiting_ends(),
{
    let v: Vec<&'static str> = vec![
        "[y/n]",
        "(y/n)",
        "[y/n]:",
        "(y/n):",
        "do you want to proceed?",
        "would you like",
        "approve",
        "allow",
        "continue?",
        "press enter",
        "press enter to continue",
        "press enter to continue...",
    ];
    proof {
        assert(strs(v@) =~= waiting_ends());
    }
    v
}

/// The words of a line that asks for something secret.
pub open spec fn secret_words() -> Seq<Seq<char>> {
    seq!["password"@, "passphrase"@, "passcode"@]
}

/// Whether a line in lower case asks for something secret: it holds one of the words and ends with
/// a colon.
pub open spec fn secret_prompt(lower: Seq<char>) -> bool {
    finishes(trimmed_end(lower), seq![':']) && exists|i: int|
        0 <= i < secret_words().len() && occurs(lower, #[trigger] secret_words()[i])
}

/// `s` without the characters at its end that `end` accepts.
pub open spec fn without_end(s: Seq<char>, end: spec_fn(char) -> bool) -> Seq<char>
    decreases s.len(),
{
    if s.len() > 0 && end(s.last()) {
        without_end(s.drop_last(), end)
    } else {
        s
    }
}

/// The characters that do not count at the end of a prompt: blanks and colons.
pub open spec fn is_filler(c: char) -> bool {
    c == ' ' || c == ':' || c == '\u{a0}'
}

/// Whether a line in lower case ends with one of [`waiting_ends`], fillers aside.
pub open spec fn asks(line: Seq<char>) -> bool {
    exists|i: int|
        0 <= i < waiting_ends().len() && ends_so(line, #[trigger] waiting_ends()[i])
}

/// Whether `line` ends with `end`, fillers at the end of the line and colons at the end of `end`
/// aside.
pub open spec fn ends_so(line: Seq<char>, end: Seq<char>) -> bool {
    finishes(without_end(line, |c: char| is_filler(c)), without_end(end, |c: char| c == ':'))
        || finishes(line, end)
}

/// Whether a line is one of the options below a question.
pub open spec fn option_line(line: Seq<char>) -> bool {
    let t = trimmed_start(line);
    t.len() > 0 && ('0' <= t[0] <= '9' || t[0] == '❯' || t[0] == '>' || t[0] == '○' || t[0] == '●'
        || t[0] == '◯' || t[0] == '◉' || t[0] == '[' || t[0] == '(' || t[0] == '-' || t[0] == '*'
        || t[0] == '•')
}

/// Whether all lines from `i` on are options.
pub open spec fn options_from(tail: Seq<Seq<char>>, i: int) -> bool {
    forall|k: int| i <= k < tail.len() ==> option_line(#[trigger] tail[k])
}

/// The last of the first `n` lines that asks and has only options below it.
pub open spec fn asking_line(
    tail: Seq<Seq<char>>,
    lower: Seq<Seq<char>>,
    n: int,
) -> Option<int>
    decreases n,
{
    if n <= 0 {
        None
    } else if asks(lower[n - 1]) && options_from(tail, n) {
        Some(n - 1)
    } else {
        asking_line(tail, lower, n - 1)
    }
}

/// What the last lines of a screen say, `lower` being the same lines in lower case.
pub open spec fn detected(tail: Seq<Seq<char>>, lower: Seq<Seq<char>>) -> Option<Detected> {
    if tail.len() == 0 {
        None
    } else if secret_prompt(lower.last()) {
        Some(Detected { status: Status::Waiting, confidence: 80, reason: "secret"@ })
    } else {
        match asking_line(tail, lower, tail.len() as int) {
            Some(i) => Some(
                Detected {
                    status: Status::Waiting,
                    confidence: 80,
                    reason: "prompt: "@ + clipped(tail[i], 80),
                },
            ),
            None => if finishes(lower.last(), seq!['?']) {
                Some(
                    Detected {
                        status: Status::Waiting,
                        confidence: 70,
                        reason: "question: "@ + clipped(tail.last(), 80),
                    },
                )
            } else {
                None
            },
        }
    }
}

fn is_secret_prompt(lower: &str) -> (r: bool)
    ensures
        r == secret_prompt(lower@),
{
    let t = text::trim_end(lower);
    proof {
        reveal_strlit(":");
        assert(":"@ =~= seq![':']);
        assert(secret_words()[0] == "password"@ && secret_words()[1] == "passphrase"@
            && secret_words()[2] == "passcode"@);
    }
    text::ends_with(t.as_str(), ":") && (text::contains(lower, "password") || text::contains(
        lower,
        "passphrase",
    ) || text::contains(lower, "passcode"))
}

fn drop_fillers(s: &str) -> (out: String)
    ensures
        out@ == without_end(s@, |c: char| is_filler(c)),
{
    let v = text::chars_of(s);
    let mut n: usize = v.len();
    proof {
        assert(v@.take(n as int) =~= v@);
    }
    while n > 0 && (v[n - 1] == ' ' || v[n - 1] == ':' || v[n - 1] == '\u{a0}')
        invariant
            v@ == s@,
            n <= v@.len(),
            without_end(s@, |c: char| is_filler(c)) == without_end(
                s@.take(n as int),
                |c: char| is_filler(c),
            ),
        decreases n,
    {
        proof {
            assert(s@.take(n as int).drop_last() =~= s@.take(n - 1));
        }
        n -= 1;
    }
    proof {
        assert(n > 0 ==> s@.take(n as int).last() == s@[n - 1]);
        assert(s@.subrange(0, n as int) =~= s@.take(n as int));
    }
    text::string_of_range(&v, 0, n)
}

fn drop_colons(s: &str) -> (out: String)
    ensures
        out@ == without_end(s@, |c: char| c == ':'),
{
    let v = text::chars_of(s);
    let mut n: usize = v.len();
    proof {
        assert(v@.take(n as int) =~= v@);
    }
    while n > 0 && v[n - 1] == ':'
        invariant
            v@ == s@,
            n <= v@.len(),
            without_end(s@, |c: char| c == ':') == without_end(
                s@.take(n as int),
                |c: char| c == ':',
            ),
        decreases n,
    {
        proof {
            assert(s@.take(n as int).drop_last() =~= s@.take(n - 1));
        }
        n -= 1;
    }
    proof {
        assert(n > 0 ==> s@.take(n as int).last() == s@[n - 1]);
        assert(s@.subrange(0, n as int) =~= s@.take(n as int));
    }
    text::string_of_range(&v, 0, n)
}

fn does_ask(line: &str) -> (r: bool)
    ensures
        r == asks(line@),
{
    let bare = drop_fillers(line);
    let ends = waiting_suffixes();
    let mut i: usize = 0;
    while i < ends.len()
        invariant
            strs(ends@) == waiting_ends(),
            bare@ == without_end(line@, |c: char| is_filler(c)),
            i <= ends@.len(),
            forall|k: int| 0 <= k < i ==> !ends_so(line@, #[trigger] waiting_ends()[k]),
        decreases ends@.len() - i,
    {
        let end: &'static str = ends[i];
        proof {
            assert(strs(ends@)[i as int] == end@);
        }
        let short = drop_colons(end);
        if text::ends_with(bare.as_str(), short.as_str()) || text::ends_with(line, end) {
            proof {
                assert(ends_so(line@, waiting_ends()[i as int]));
            }
            return true;
        }
        i += 1;
    }
    false
}

fn is_option_line(line: &str) -> (r: bool)
    ensures
        r == option_line(line@),
{
    let t = text::trim_start(line);
    let v = text::chars_of(t.as_str());
    if v.len() == 0 {
        return false;
    }
    let c: char = v[0];
    ('0' <= c && c <= '9') || c == '❯' || c == '>' || c == '○' || c == '●' || c == '◯' || c == '◉'
        || c == '[' || c == '(' || c == '-' || c == '*' || c == '•'
}

/// What the last lines of a screen say, `lower` being the same lines in lower case: nothing, or
/// that the session waits for an answer.
pub fn detect_in(tail: &[&str], lower: &[String]) -> (r: Option<DetectionResult>)
    requires
        tail@.len() == lower@.len(),
    ensures
        match r {
            Some(d) => detected(strs(tail@), texts(lower@)) == Some(d@),
            None => detected(strs(tail@), texts(lower@)) is None,
        },
{
    let ghost t = strs(tail@);
    let ghost l = texts(lower@);
    let n: usize = tail.len();
    if n == 0 {
        return None;
    }
    proof {
        assert(l.last() == lower@[n - 1]@);
        assert(t.last() == tail@[n - 1]@);
    }
    if is_secret_prompt(lower[n - 1].as_str()) {
        return Some(
            DetectionResult {
                status: Status::Waiting,
                confidence: 80,
                reason: "secret".to_owned(),
            },
        );
    }
    let mut i: usize = n;
    let mut open: bool = true;
    while i > 0
        invariant
            t == strs(tail@),
            l == texts(lower@),
            n == tail@.len(),
            n == lower@.len(),
            n > 0,
            i <= n,
            !secret_prompt(l.last()),
            open == options_from(t, i as int),
            asking_line(t, l, n as int) == asking_line(t, l, i as int),
        decreases i,
    {
        proof {
            assert(l[i - 1] == lower@[i - 1]@);
            assert(t[i - 1] == tail@[i - 1]@);
        }
        if open && does_ask(lower[i - 1].as_str()) {
            let c = clip(tail[i - 1], 80);
            return Some(
                DetectionResult {
                    status: Status::Waiting,
                    confidence: 80,
                    reason: text::cat("prompt: ", c.as_str()),
                },
            );
        }
        let opt: bool = is_option_line(tail[i - 1]);
        proof {
            if open && opt {
                assert(options_from(t, i - 1));
            } else {
                if !opt {
                    assert(!option_line(t[i - 1]));
                } else {
                    let k = choose|k: int| i <= k < t.len() && !option_line(#[trigger] t[k]);
                    assert(!option_line(t[k]));
                }
                assert(!options_from(t, i - 1));
            }
        }
        open = open && opt;
        i -= 1;
    }
    proof {
        reveal_strlit("?");
        assert("?"@ =~= seq!['?']);
    }
    if text::ends_with(lower[n - 1].as_str(), "?") {
        let c = clip(tail[n - 1], 80);
        return Some(
            DetectionResult {
                status: Status::Waiting,
                confidence: 70,
                reason: text::cat("question: ", c.as_str()),
            },
        );
    }
    None
}

/// The lines in lower case.
pub open spec fn lowered(tail: Seq<Seq<char>>) -> Seq<Seq<char>> {
    tail.map_values(|s: Seq<char>| lower_case(s))
}

/// What the last lines of a screen say: nothing, or that the session waits for an answer.
pub fn detect(tail: &[&str]) -> (r: Option<DetectionResult>)
    ensures
        match r {
            Some(d) => detected(strs(tail@), lowered(strs(tail@))) == Some(d@),
            None => detected(strs(tail@), lowered(strs(tail@))) is None,
        },
{
    let mut lower: Vec<String> = Vec::new();
    let ghost t = strs(tail@);
    let mut i: usize = 0;
    while i < tail.len()
        invariant
            t == strs(tail@),
            i <= tail@.len(),
            texts(lower@) == lowered(t).take(i as int),
        decreases tail@.len() - i,
    {
        let ghost was = texts(lower@);
        lower.push(tail[i].to_lowercase());
        proof {
            assert(texts(lower@) =~= was.push(lower_case(t[i as int])));
            assert(lowered(t).take(i + 1) =~= lowered(t).take(i as int).push(lowered(t)[i as int]));
        }
        i += 1;
    }
    proof {
        assert(lowered(t).take(i as int) =~= lowered(t));
    }
    detect_in(tail, &lower)
}

proof fn lemma_plain_stays(p: Seq<char>, s: Seq<char>)
    requires
        forall|i: int| 0 <= i < p.len() ==> plain(#[trigger] p[i]),
    ensures
        stripped(p + s) == p + stripped(s),
    decreases p.len(),
{
    if p.len() == 0 {
        assert(p + s =~= s);
        assert(p + stripped(s) =~= stripped(s));
    } else {
        let q = p.skip(1);
        assert forall|i: int| 0 <= i < q.len() implies plain(#[trigger] q[i]) by {
            assert(q[i] == p[i + 1]);
        }
        lemma_plain_stays(q, s);
        assert((p + s).skip(1) =~= q + s);
        assert((p + s)[0] == p[0]);
        assert(plain(p[0]));
        assert(!plain(ESC));
        assert(seq![p[0]] + (q + stripped(s)) =~= p + stripped(s));
    }
}

proof fn lemma_csi_goes(params: Seq<char>, end: char, s: Seq<char>)
    requires
        forall|i: int| 0 <= i < params.len() ==> !('\u{40}' <= #[trigger] params[i] <= '\u{7e}'),
        '\u{40}' <= end <= '\u{7e}',
    ensures
        after_csi(params + seq![end] + s) == s,
    decreases params.len(),
{
    let all = params + seq![end] + s;
    if params.len() == 0 {
        assert(all[0] == end);
        assert(all.skip(1) =~= s);
    } else {
        let q = params.skip(1);
        assert forall|i: int| 0 <= i < q.len() implies !('\u{40}' <= #[trigger] q[i] <= '\u{7e}') by {
            assert(q[i] == params[i + 1]);
        }
        lemma_csi_goes(q, end, s);
        assert(all[0] == params[0]);
        assert(all.skip(1) =~= q + seq![end] + s);
    }
}

proof fn lemma_osc_goes(title: Seq<char>, prev: char, s: Seq<char>)
    requires
        forall|i: int| 0 <= i < title.len() ==> #[trigger] title[i] != BEL && title[i] != ESC,
        prev != ESC,
    ensures
        after_osc(title + seq![BEL] + s, prev) == s,
    decreases title.len(),
{
    let all = title + seq![BEL] + s;
    if title.len() == 0 {
        assert(all[0] == BEL);
        assert(all.skip(1) =~= s);
    } else {
        let q = title.skip(1);
        assert forall|i: int| 0 <= i < q.len() implies #[trigger] q[i] != BEL && q[i] != ESC by {
            assert(q[i] == title[i + 1]);
        }
        lemma_osc_goes(q, title[0], s);
        assert(all[0] == title[0]);
        assert(all.skip(1) =~= q + seq![BEL] + s);
    }
}

/// What is written on a screen stays, and what steers it goes: a sequence with its parameters up to the
/// character that ends it, and a title up to the bell.
pub proof fn lemma_only_steering_goes(
    before: Seq<char>,
    params: Seq<char>,
    end: char,
    title: Seq<char>,
    rest: Seq<char>,
)
    requires
        forall|i: int| 0 <= i < before.len() ==> plain(#[trigger] before[i]),
        forall|i: int| 0 <= i < params.len() ==> !('\u{40}' <= #[trigger] params[i] <= '\u{7e}'),
        '\u{40}' <= end <= '\u{7e}',
        forall|i: int| 0 <= i < title.len() ==> #[trigger] title[i] != BEL && title[i] != ESC,
    ensures
        stripped(before + (seq![ESC, '['] + (params + seq![end] + rest))) == before + stripped(rest),
        stripped(before + (seq![ESC, ']'] + (title + seq![BEL] + rest))) == before + stripped(rest),
{
    let a = seq![ESC, '['] + (params + seq![end] + rest);
    let b = seq![ESC, ']'] + (title + seq![BEL] + rest);
    lemma_csi_goes(params, end, rest);
    lemma_osc_goes(title, '\0', rest);
    assert(a.skip(2) =~= params + seq![end] + rest);
    assert(b.skip(2) =~= title + seq![BEL] + rest);
    assert(a[0] == ESC && a[1] == '[' && b[0] == ESC && b[1] == ']');
    lemma_plain_stays(before, a);
    lemma_plain_stays(before, b);
}

proof fn lemma_filled_lines(ls: Seq<Seq<char>>)
    ensures
        forall|i: int|
            0 <= i < filled_lines(ls).len() ==> (#[trigger] filled_lines(ls)[i]).len() > 0,
    decreases ls.len(),
{
    if ls.len() > 0 {
        let r = filled_lines(ls.drop_last());
        lemma_filled_lines(ls.drop_last());
        assert forall|i: int| 0 <= i < filled_lines(ls).len() implies (
        #[trigger] filled_lines(ls)[i]).len() > 0 by {
            if i < r.len() {
                assert(filled_lines(ls)[i] == r[i]);
            }
        }
    }
}

/// The end of a screen is at most so many lines, none of them empty, and the last ones that there are.
pub proof fn lemma_screen_tail(screen: Seq<char>, n: int, m: int)
    requires
        0 <= n <= m,
    ensures
        screen_tail(screen, n).len() <= n,
        forall|i: int|
            0 <= i < screen_tail(screen, n).len() ==> (#[trigger] screen_tail(screen, n)[i]).len() > 0,
        screen_tail(screen, n).len() < n ==> screen_tail(screen, n) == screen_tail(screen, m),
        screen_tail(screen, m).len() >= n ==> screen_tail(screen, n) == screen_tail(screen, m).skip(
            screen_tail(screen, m).len() - n,
        ),
{
    let all = filled_lines(lines(stripped(screen)));
    lemma_filled_lines(lines(stripped(screen)));
    assert forall|i: int| 0 <= i < screen_tail(screen, n).len() implies (
    #[trigger] screen_tail(screen, n)[i]).len() > 0 by {
        if all.len() > n {
            assert(screen_tail(screen, n)[i] == all[i + all.len() - n]);
        }
    }
    if screen_tail(screen, m).len() >= n {
        assert(screen_tail(screen, n) =~= screen_tail(screen, m).skip(
            screen_tail(screen, m).len() - n,
        ));
    }
}

proof fn lemma_finishes(p: Seq<char>, e: Seq<char>)
    ensures
        finishes(p + e, e),
{
    let s = p + e;
    assert(s.subrange(s.len() - e.len(), s.len() as int) =~= e);
}

proof fn lemma_asking_line(tail: Seq<Seq<char>>, lower: Seq<Seq<char>>, n: int)
    requires
        0 <= n <= tail.len(),
    ensures
        match asking_line(tail, lower, n) {
            Some(k) => 0 <= k < n && asks(lower[k]) && options_from(tail, k + 1),
            None => forall|k: int|
                0 <= k < n ==> !(asks(#[trigger] lower[k]) && options_from(tail, k + 1)),
        },
    decreases n,
{
    if n > 0 {
        lemma_asking_line(tail, lower, n - 1);
    }
}

/// A screen is taken to wait exactly where its last line asks for a secret or ends with a question mark, or
/// where a line asks and only options stand below it; it is never taken for anything else. A secret is told
/// without what the line says.
pub proof fn lemma_when_a_screen_waits(tail: Seq<Seq<char>>, lower: Seq<Seq<char>>)
    requires
        tail.len() > 0,
        lower.len() == tail.len(),
    ensures
        detected(tail, lower) is Some <==> {
            ||| secret_prompt(lower.last())
            ||| finishes(lower.last(), seq!['?'])
            ||| exists|k: int|
                0 <= k < tail.len() && asks(#[trigger] lower[k]) && options_from(tail, k + 1)
        },
        detected(tail, lower) matches Some(d) ==> d.status == Status::Waiting,
        secret_prompt(lower.last()) ==> detected(tail, lower)->0.reason == "secret"@,
        asks(lower.last()) ==> detected(tail, lower)->0.confidence == 80,
        detected(Seq::empty(), Seq::empty()) is None,
{
    lemma_asking_line(tail, lower, tail.len() as int);
    if asks(lower.last()) {
        let k = tail.len() - 1;
        assert(asks(lower[k]) && options_from(tail, k + 1));
    }
    if let Some(k) = asking_line(tail, lower, tail.len() as int) {
        assert(asks(lower[k]));
    }
}

/// Whatever stands before it, a line that ends with one of these asks, and one that ends with the word for a
/// secret and a colon asks for one.
pub proof fn lemma_lines_that_ask(p: Seq<char>)
    ensures
        asks(p + "[y/n]"@),
        asks(p + "(y/n)"@),
        asks(p + "[y/n]:"@),
        asks(p + "(y/n):"@),
        asks(p + "do you want to proceed?"@),
        asks(p + "continue?"@),
        asks(p + "press enter"@),
        asks(p + "press enter to continue"@),
        asks(p + "press enter to continue..."@),
        secret_prompt(p + "password:"@),
        secret_prompt(p + "passphrase:"@),
        secret_prompt(p + "passcode:"@),
{
    let w = waiting_ends();
    lemma_finishes(p, "[y/n]"@);
    assert(ends_so(p + "[y/n]"@, w[0]));
    lemma_finishes(p, "(y/n)"@);
    assert(ends_so(p + "(y/n)"@, w[1]));
    lemma_finishes(p, "[y/n]:"@);
    assert(ends_so(p + "[y/n]:"@, w[2]));
    lemma_finishes(p, "(y/n):"@);
    assert(ends_so(p + "(y/n):"@, w[3]));
    lemma_finishes(p, "do you want to proceed?"@);
    assert(ends_so(p + "do you want to proceed?"@, w[4]));
    lemma_finishes(p, "continue?"@);
    assert(ends_so(p + "continue?"@, w[8]));
    lemma_finishes(p, "press enter"@);
    assert(ends_so(p + "press enter"@, w[9]));
    lemma_finishes(p, "press enter to continue"@);
    assert(ends_so(p + "press enter to continue"@, w[10]));
    lemma_finishes(p, "press enter to continue..."@);
    assert(ends_so(p + "press enter to continue..."@, w[11]));
    reveal_strlit("password");
    reveal_strlit("passphrase");
    reveal_strlit("passcode");
    reveal_strlit("password:");
    reveal_strlit("passphrase:");
    reveal_strlit("passcode:");
    lemma_secret_line(p, "password"@, 0);
    assert("password"@.push(':') =~= "password:"@);
    lemma_secret_line(p, "passphrase"@, 1);
    assert("passphrase"@.push(':') =~= "passphrase:"@);
    lemma_secret_line(p, "passcode"@, 2);
    assert("passcode"@.push(':') =~= "passcode:"@);
}

proof fn lemma_secret_line(p: Seq<char>, word: Seq<char>, i: int)
    requires
        0 <= i < secret_words().len(),
        word == secret_words()[i],
    ensures
        secret_prompt(p + word.push(':')),
{
    let s = p + word.push(':');
    assert(s.last() == ':');
    assert(trimmed_end(s) == s);
    assert(s =~= (p + word) + seq![':']);
    lemma_finishes(p + word, seq![':']);
    assert(s.subrange(p.len() as int, p.len() + word.len() as int) =~= word);
    assert(text::occurs_at(s, word, p.len() as int));
    assert(occurs(s, secret_words()[i]));
}

/// An option is a line whose first character that is no white space is a digit, or one of the signs that
/// stand before options; a line that begins with a letter is none.
pub proof fn lemma_which_lines_are_options(blank: Seq<char>, c: char, rest: Seq<char>)
    requires
        forall|i: int| 0 <= i < blank.len() ==> text::white(#[trigger] blank[i]),
        !text::white(c),
    ensures
        '0' <= c <= '9' ==> option_line(blank + seq![c] + rest),
        c == '❯' || c == '>' || c == '-' || c == '*' || c == '[' || c == '(' || c == '○' || c == '●' || c
            == '•' || c == '◯' || c == '◉' ==> option_line(blank + seq![c] + rest),
        'a' <= c <= 'z' || 'A' <= c <= 'Z' || c == '$' || c == '#' ==> !option_line(blank + seq![c] + rest),
        !option_line(blank),
{
    text::lemma_start_goes(blank, seq![c] + rest);
    assert(blank + seq![c] + rest =~= blank + (seq![c] + rest));
    assert((seq![c] + rest)[0] == c);
    let none = Seq::<char>::empty();
    text::lemma_start_goes(blank, none);
    assert(blank + none =~= blank);
}

/// A question is less sure than a prompt: it counts for 70 of a hundred, and everything else that is found
/// for 80.
pub proof fn lemma_how_sure_it_is(tail: Seq<Seq<char>>, lower: Seq<Seq<char>>)
    requires
        tail.len() > 0,
        lower.len() == tail.len(),
    ensures
        detected(tail, lower) matches Some(d) ==> d.confidence == (if secret_prompt(lower.last())
            || exists|k: int| 0 <= k < tail.len() && asks(#[trigger] lower[k]) && options_from(tail, k + 1) {
            80int
        } else {
            70
        }),
{
    lemma_asking_line(tail, lower, tail.len() as int);
    if let Some(k) = asking_line(tail, lower, tail.len() as int) {
        assert(asks(lower[k]));
    }
}

proof fn lemma_fillers_go(s: Seq<char>, fill: Seq<char>)
    requires
        s.len() > 0 ==> !is_filler(s.last()),
        forall|i: int| 0 <= i < fill.len() ==> is_filler(#[trigger] fill[i]),
    ensures
        without_end(s + fill, |c: char| is_filler(c)) == s,
    decreases fill.len(),
{
    let end = |c: char| is_filler(c);
    if fill.len() == 0 {
        assert(s + fill =~= s);
    } else {
        let f = fill.drop_last();
        assert forall|i: int| 0 <= i < f.len() implies is_filler(#[trigger] f[i]) by {
            assert(f[i] == fill[i]);
        }
        lemma_fillers_go(s, f);
        assert((s + fill).drop_last() =~= s + f);
        assert((s + fill).last() == fill[fill.len() - 1]);
        assert(end((s + fill).last()));
    }
}

/// A line asks also where only blanks and colons stand behind the question.
pub proof fn lemma_blanks_behind_a_question(p: Seq<char>, fill: Seq<char>)
    requires
        forall|i: int| 0 <= i < fill.len() ==> #[trigger] fill[i] == ' ' || fill[i] == ':',
    ensures
        asks(p + "[y/n]"@ + fill),
        asks(p + "continue?"@ + fill),
{
    assert forall|i: int| 0 <= i < fill.len() implies is_filler(#[trigger] fill[i]) by {
    }
    reveal_strlit("[y/n]");
    reveal_strlit("continue?");
    let w = waiting_ends();
    let colon = |c: char| c == ':';
    let a = p + "[y/n]"@;
    assert(a.last() == ']');
    lemma_fillers_go(a, fill);
    assert(without_end("[y/n]"@, colon) == "[y/n]"@);
    lemma_finishes(p, "[y/n]"@);
    assert(ends_so(a + fill, w[0]));
    let b = p + "continue?"@;
    assert(b.last() == '?');
    lemma_fillers_go(b, fill);
    assert(without_end("continue?"@, colon) == "continue?"@);
    lemma_finishes(p, "continue?"@);
    assert(ends_so(b + fill, w[8]));
}

/// What is found is told with the line that it was found on, cut off after 80 characters.
pub proof fn lemma_what_is_told_of_a_screen(tail: Seq<Seq<char>>, lower: Seq<Seq<char>>)
    requires
        tail.len() > 0,
        lower.len() == tail.len(),
        !secret_prompt(lower.last()),
        tail.last().len() <= 80,
    ensures
        asks(lower.last()) ==> detected(tail, lower)->0.reason == "prompt: "@ + tail.last(),
        finishes(lower.last(), seq!['?']) && (forall|k: int|
            0 <= k < tail.len() ==> !asks(#[trigger] lower[k])) ==> detected(tail, lower)->0.reason
            == "question: "@ + tail.last(),
        forall|s: Seq<char>| s.len() > 80 ==> #[trigger] clipped(s, 80) == s.take(80),
{
    lemma_asking_line(tail, lower, tail.len() as int);
}

} // verus!
