//! Recorded reports played back: what each line does, and whether what came of it is what was expected.

use crate::adapter::registry::Host;
use crate::adapter::AgentHooks;
use crate::api::sessions::{status_text, status_word};
use crate::json::Json;
use crate::num;
use crate::status::{happenings, AgoraEvent, Happening, Source, Status};
use crate::text::{self, opt_str, opt_text};
use vstd::prelude::*;

verus! {

/// What is concluded of a session; how sure that is is in per cent.
#[derive(Debug, PartialEq, Eq)]
pub struct Assessment {
    pub status: Status,
    pub source: Source,
    pub confidence: u8,
    pub reason: Option<String>,
}

/// The model of an [`Assessment`].
pub struct Conclusion {
    pub status: Status,
    pub source: Source,
    pub confidence: nat,
    pub reason: Option<Seq<char>>,
}

impl View for Assessment {
    type V = Conclusion;

    open spec fn view(&self) -> Conclusion {
        Conclusion {
            status: self.status,
            source: self.source,
            confidence: self.confidence as nat,
            reason: opt_text(self.reason),
        }
    }
}

impl Assessment {
    fn duplicate(&self) -> (r: Assessment)
        ensures
            r@ == self@,
    {
        Assessment {
            status: self.status,
            source: self.source,
            confidence: self.confidence,
            reason: text::copy_opt(&self.reason),
        }
    }
}

/// What is expected after a line; how sure it must at least be is in per cent.
#[derive(Debug, PartialEq, Eq)]
pub struct Expect {
    pub status: Status,
    pub source: Option<Source>,
    pub min_confidence: Option<u8>,
    pub detail: Option<String>,
    /// Nothing where it is not looked at; otherwise what it must be, which may be nothing.
    pub prompt: Option<Option<String>>,
}

/// A line of a recording.
#[derive(Debug, PartialEq, Eq)]
pub struct Line {
    /// What the host reported.
    pub payload: Option<Json>,
    /// The question that was answered here.
    pub respond: Option<String>,
    /// When, in seconds.
    pub at: Option<i64>,
    /// Whether the report is one that is held.
    pub hold: Option<bool>,
    pub expect: Option<Expect>,
}

/// Why a recording does not play.
#[allow(inconsistent_fields)]
#[derive(Debug, PartialEq, Eq)]
pub enum ReplayError {
    Parse { line: usize, source: String },
    Empty { line: usize },
    Hold { line: usize, expected: bool, actual: bool },
    Mismatch { line: usize, what: &'static str, expected: String, actual: Assessment },
}

/// The model of a [`ReplayError`].
#[allow(inconsistent_fields)]
pub enum Miss {
    Parse { line: nat, source: Seq<char> },
    Empty { line: nat },
    Hold { line: nat, expected: bool, actual: bool },
    Mismatch { line: nat, what: Seq<char>, expected: Seq<char>, actual: Conclusion },
}

impl View for ReplayError {
    type V = Miss;

    open spec fn view(&self) -> Miss {
        match self {
            ReplayError::Parse { line, source } => Miss::Parse {
                line: *line as nat,
                source: source@,
            },
            ReplayError::Empty { line } => Miss::Empty { line: *line as nat },
            ReplayError::Hold { line, expected, actual } => Miss::Hold {
                line: *line as nat,
                expected: *expected,
                actual: *actual,
            },
            ReplayError::Mismatch { line, what, expected, actual } => Miss::Mismatch {
                line: *line as nat,
                what: what@,
                expected: expected@,
                actual: actual@,
            },
        }
    }
}

/// Whether a line is played: it is neither blank nor a remark.
pub open spec fn played(raw: Seq<char>) -> bool {
    text::trimmed(raw).len() > 0 && !(text::trimmed_start(raw).len() > 0 && text::trimmed_start(
        raw,
    )[0] == '#')
}

/// The lines that are played, with their numbers from 1 on.
pub open spec fn numbered(lines: Seq<Seq<char>>) -> Seq<(nat, Seq<char>)>
    decreases lines.len(),
{
    if lines.len() == 0 {
        Seq::empty()
    } else if played(lines.last()) {
        numbered(lines.drop_last()).push((lines.len(), lines.last()))
    } else {
        numbered(lines.drop_last())
    }
}

/// The models of numbered lines.
pub open spec fn numbered_texts(v: Seq<(usize, String)>) -> Seq<(nat, Seq<char>)> {
    v.map_values(|p: (usize, String)| (p.0 as nat, p.1@))
}

fn is_played(raw: &str) -> (r: bool)
    ensures
        r == played(raw@),
{
    if text::is_empty(text::trim(raw).as_str()) {
        return false;
    }
    let s = text::trim_start(raw);
    let v = text::chars_of(s.as_str());
    !(v.len() > 0 && v[0] == '#')
}

/// The lines of a recording that are played, with their numbers from 1 on.
pub fn lines_to_play(text: &str) -> (out: Vec<(usize, String)>)
    ensures
        numbered_texts(out@) == numbered(text::lines(text@)),
{
    let lines = text::lines_of(text);
    let ghost all = text::lines(text@);
    let mut out: Vec<(usize, String)> = Vec::new();
    let mut i: usize = 0;
    proof {
        assert(all.take(0) =~= Seq::<Seq<char>>::empty());
        assert(numbered_texts(out@) =~= numbered(all.take(0)));
    }
    while i < lines.len()
        invariant
            text::texts(lines@) == all,
            i <= lines@.len(),
            numbered_texts(out@) == numbered(all.take(i as int)),
        decreases lines@.len() - i,
    {
        proof {
            assert(all.take(i + 1).drop_last() =~= all.take(i as int));
            assert(all.take(i + 1).last() == lines@[i as int]@);
            assert(all.take(i + 1).len() == i + 1);
        }
        if is_played(lines[i].as_str()) {
            let ghost was = numbered_texts(out@);
            out.push((i + 1, lines[i].clone()));
            proof {
                assert(numbered_texts(out@) =~= was.push(((i + 1) as nat, lines@[i as int]@)));
            }
        }
        i += 1;
    }
    proof {
        assert(all.take(i as int) =~= all);
    }
    out
}

/// The time of a line: its own, or that of the line before.
pub fn time_of(line: &Line, now: i64) -> (r: i64)
    ensures
        r == text::or_else(line.at, now),
{
    match line.at {
        Some(t) => t,
        None => now,
    }
}

/// What a line does: what the report means, or that a question was answered.
pub open spec fn effect(host: Host, number: nat, line: Line) -> Result<Seq<Happening>, Miss> {
    match line.payload {
        Some(payload) => {
            let held = host.holding(payload@) is Some;
            if line.hold is Some && line.hold->0 != held {
                Err(Miss::Hold { line: number, expected: line.hold->0, actual: held })
            } else {
                Ok(host.meaning(payload@))
            }
        },
        None => match opt_text(line.respond) {
            Some(id) => Ok(seq![Happening::DecisionResolved(Some(id))]),
            None => Err(Miss::Empty { line: number }),
        },
    }
}

/// What a line does, whose number is `number`.
pub fn events_of(host: Host, number: usize, line: &Line) -> (r: Result<Vec<AgoraEvent>, ReplayError>)
    ensures
        match r {
            Ok(v) => effect(host, number as nat, *line) == Ok::<Seq<Happening>, Miss>(
                happenings(v@),
            ),
            Err(e) => effect(host, number as nat, *line) == Err::<Seq<Happening>, Miss>(e@),
        },
{
    match &line.payload {
        Some(payload) => {
            let held = host.hold_key(payload).is_some();
            match line.hold {
                Some(expected) => {
                    if expected != held {
                        return Err(ReplayError::Hold { line: number, expected, actual: held });
                    }
                },
                None => {},
            }
            Ok(host.parse(payload))
        },
        None => match &line.respond {
            Some(id) => {
                let e = AgoraEvent::DecisionResolved(Some(id.clone()));
                let v = vec![e];
                proof {
                    assert(happenings(v@) =~= seq![Happening::DecisionResolved(Some(id@))]);
                }
                Ok(v)
            },
            None => Err(ReplayError::Empty { line: number }),
        },
    }
}

/// The word for what a state was concluded from.
pub open spec fn source_text(s: Source) -> Seq<char> {
    match s {
        Source::Process => "Process"@,
        Source::Hook => "Hook"@,
        Source::Text => "Text"@,
    }
}

fn source_word(s: Source) -> (r: &'static str)
    ensures
        r@ == source_text(s),
{
    match s {
        Source::Process => "Process",
        Source::Hook => "Hook",
        Source::Text => "Text",
    }
}

/// An optional text as it is shown to those who look into it.
pub open spec fn shown(o: Option<Seq<char>>) -> Seq<char> {
    match o {
        Some(s) => "Some("@ + text::debug_text(s) + ")"@,
        None => "None"@,
    }
}

fn show(o: Option<&str>) -> (out: String)
    ensures
        out@ == shown(opt_str(o)),
{
    match o {
        Some(s) => text::cat3("Some(", text::debug(s).as_str(), ")"),
        None => "None".to_owned(),
    }
}

/// What was expected of a text, and what came instead.
pub open spec fn expected_text(want: Seq<char>, got: Option<Seq<char>>) -> Seq<char> {
    want + " (got "@ + shown(got) + ")"@
}

fn expected_of(want: &str, got: Option<&str>) -> (out: String)
    ensures
        out@ == expected_text(want@, opt_str(got)),
{
    let g = show(got);
    let mut out = text::cat3(want, " (got ", g.as_str());
    text::push_str(&mut out, ")");
    out
}

/// A share of a hundred as a fraction: as many decimal places as it takes.
pub open spec fn fraction(percent: nat) -> Seq<char> {
    let whole = num::decimal(percent / 100);
    if percent % 100 == 0 {
        whole
    } else if percent % 10 == 0 {
        whole + "."@ + num::decimal(percent % 100 / 10)
    } else {
        whole + "."@ + num::padded(percent % 100, 2)
    }
}

fn fraction_of(percent: u8) -> (out: String)
    ensures
        out@ == fraction(percent as nat),
{
    let whole = num::to_decimal((percent / 100) as u64);
    let rest: u64 = (percent % 100) as u64;
    if rest == 0 {
        whole
    } else if rest % 10 == 0 {
        text::cat3(whole.as_str(), ".", num::to_decimal(rest / 10).as_str())
    } else {
        text::cat3(whole.as_str(), ".", num::to_padded(rest, 2).as_str())
    }
}

/// The first thing that is not as expected, and what was: the state, what it was concluded from, how sure
/// it is, the detail, the prompt. `detail` and `prompt` are what the session shows.
pub open spec fn miss(
    expect: Expect,
    current: Conclusion,
    detail: Option<Seq<char>>,
    prompt: Option<Seq<char>>,
) -> Option<(Seq<char>, Seq<char>)> {
    if current.status != expect.status {
        Some(("status"@, status_text(expect.status)))
    } else if expect.source is Some && current.source != expect.source->0 {
        Some(("source"@, source_text(expect.source->0)))
    } else if expect.min_confidence is Some && current.confidence < expect.min_confidence->0 {
        Some(("confidence"@, "≥ "@ + fraction(expect.min_confidence->0 as nat)))
    } else if expect.detail is Some && detail != Some(expect.detail->0@) {
        Some(("detail"@, expected_text(text::debug_text(expect.detail->0@), detail)))
    } else if expect.prompt is Some && prompt != opt_text(expect.prompt->0) {
        Some(("prompt"@, expected_text(shown(opt_text(expect.prompt->0)), prompt)))
    } else {
        None
    }
}

fn first_miss(
    expect: &Expect,
    current: &Assessment,
    detail: Option<&str>,
    prompt: Option<&str>,
) -> (r: Option<(&'static str, String)>)
    ensures
        match r {
            Some((what, want)) => miss(*expect, current@, opt_str(detail), opt_str(prompt)) == Some(
                (what@, want@),
            ),
            None => miss(*expect, current@, opt_str(detail), opt_str(prompt)) is None,
        },
{
    if current.status != expect.status {
        return Some(("status", status_word(expect.status).to_owned()));
    }
    match expect.source {
        Some(src) => {
            if current.source != src {
                return Some(("source", source_word(src).to_owned()));
            }
        },
        None => {},
    }
    match expect.min_confidence {
        Some(min) => {
            if current.confidence < min {
                return Some(
                    ("confidence", text::cat("≥ ", fraction_of(min).as_str())),
                );
            }
        },
        None => {},
    }
    match &expect.detail {
        Some(d) => {
            if !text::is_text(detail, d.as_str()) {
                return Some(
                    ("detail", expected_of(text::debug(d.as_str()).as_str(), detail)),
                );
            }
        },
        None => {},
    }
    match &expect.prompt {
        Some(p) => {
            if !text::same_opt(prompt, text::borrow_opt(p)) {
                return Some(
                    ("prompt", expected_of(show(text::borrow_opt(p)).as_str(), prompt)),
                );
            }
        },
        None => {},
    }
    None
}

/// Whether what came of a line, whose number is `number`, is what was expected.
pub fn check(
    number: usize,
    line: &Line,
    current: &Assessment,
    detail: Option<&str>,
    prompt: Option<&str>,
) -> (r: Result<(), ReplayError>)
    ensures
        match r {
            Ok(()) => line.expect matches Some(x) ==> miss(
                x,
                current@,
                opt_str(detail),
                opt_str(prompt),
            ) is None,
            Err(e) => line.expect matches Some(x) && (miss(
                x,
                current@,
                opt_str(detail),
                opt_str(prompt),
            ) matches Some((what, want)) && e@ == (Miss::Mismatch {
                line: number as nat,
                what,
                expected: want,
                actual: current@,
            })),
        },
{
    match &line.expect {
        Some(x) => match first_miss(x, current, detail, prompt) {
            Some((what, expected)) => Err(
                ReplayError::Mismatch {
                    line: number,
                    what,
                    expected,
                    actual: current.duplicate(),
                },
            ),
            None => Ok(()),
        },
        None => Ok(()),
    }
}

/// What came of a line: what is concluded after it, and what the session shows.
#[derive(Debug, PartialEq, Eq)]
pub struct Outcome {
    pub current: Assessment,
    pub detail: Option<String>,
    pub prompt: Option<String>,
}

/// Why a line does not play, where it does not: it cannot be read, it does nothing, or what came of it is
/// not what was expected.
pub open spec fn fault(
    host: Host,
    number: nat,
    read: Result<Line, String>,
    outcome: Outcome,
) -> Option<Miss> {
    match read {
        Err(source) => Some(Miss::Parse { line: number, source: source@ }),
        Ok(line) => match effect(host, number, line) {
            Err(m) => Some(m),
            Ok(_) => match line.expect {
                Some(x) => match miss(
                    x,
                    outcome.current@,
                    opt_text(outcome.detail),
                    opt_text(outcome.prompt),
                ) {
                    Some((what, expected)) => Some(
                        Miss::Mismatch { line: number, what, expected, actual: outcome.current@ },
                    ),
                    None => None,
                },
                None => None,
            },
        },
    }
}

/// Why a recording does not play, from the line `i` on.
pub open spec fn first_fault(
    host: Host,
    lines: Seq<(usize, Result<Line, String>)>,
    outcomes: Seq<Outcome>,
    i: int,
) -> Option<Miss>
    decreases lines.len() - i,
{
    if i < 0 || i >= lines.len() {
        None
    } else {
        text::either(
            fault(host, lines[i].0 as nat, lines[i].1, outcomes[i]),
            first_fault(host, lines, outcomes, i + 1),
        )
    }
}

/// Plays a recording: says what was concluded after each line, or the first thing that is not as expected.
/// `lines` are those that are played, with their numbers, as they were read or why they could not be, and
/// `outcomes` what came of each.
pub fn replay(
    host: Host,
    lines: &[(usize, Result<Line, String>)],
    outcomes: &[Outcome],
) -> (r: Result<Vec<Assessment>, ReplayError>)
    requires
        lines@.len() == outcomes@.len(),
    ensures
        match r {
            Ok(v) => first_fault(host, lines@, outcomes@, 0) is None && v@.map_values(
                |a: Assessment| a@,
            ) == outcomes@.map_values(|o: Outcome| o.current@),
            Err(e) => first_fault(host, lines@, outcomes@, 0) == Some(e@),
        },
{
    let mut out: Vec<Assessment> = Vec::new();
    let mut i: usize = 0;
    let ghost want = outcomes@.map_values(|o: Outcome| o.current@);
    proof {
        assert(out@.map_values(|a: Assessment| a@) =~= want.take(0));
    }
    while i < lines.len()
        invariant
            i <= lines@.len(),
            lines@.len() == outcomes@.len(),
            want == outcomes@.map_values(|o: Outcome| o.current@),
            out@.map_values(|a: Assessment| a@) == want.take(i as int),
            first_fault(host, lines@, outcomes@, 0) == first_fault(
                host,
                lines@,
                outcomes@,
                i as int,
            ),
        decreases lines@.len() - i,
    {
        let number: usize = lines[i].0;
        let o = &outcomes[i];
        let line = match &lines[i].1 {
            Ok(line) => line,
            Err(source) => {
                return Err(ReplayError::Parse { line: number, source: source.clone() });
            },
        };
        match events_of(host, number, line) {
            Ok(_) => {},
            Err(e) => {
                return Err(e);
            },
        }
        match check(
            number,
            line,
            &o.current,
            text::borrow_opt(&o.detail),
            text::borrow_opt(&o.prompt),
        ) {
            Ok(()) => {},
            Err(e) => {
                return Err(e);
            },
        }
        let ghost was = out@.map_values(|a: Assessment| a@);
        let a = o.current.duplicate();
        out.push(a);
        proof {
            assert(out@.map_values(|a: Assessment| a@) =~= was.push(a@));
            assert(want.take(i + 1) =~= want.take(i as int).push(want[i as int]));
        }
        i += 1;
    }
    proof {
        assert(want.take(i as int) =~= want);
    }
    Ok(out)
}

/// What was expected is missed exactly where something that was asked for is not so: the state always, and
/// the rest where it was asked for. More confidence than was asked for is no miss.
pub proof fn lemma_when_an_expectation_is_missed(
    expect: Expect,
    current: Conclusion,
    detail: Option<Seq<char>>,
    prompt: Option<Seq<char>>,
)
    ensures
        miss(expect, current, detail, prompt) is None <==> {
            &&& current.status == expect.status
            &&& expect.source matches Some(s) ==> s == current.source
            &&& expect.min_confidence matches Some(n) ==> n <= current.confidence
            &&& expect.detail matches Some(d) ==> detail == Some(d@)
            &&& expect.prompt matches Some(p) ==> prompt == opt_text(p)
        },
        current.status != expect.status ==> (miss(expect, current, detail, prompt)->0).0 == "status"@,
{
}

/// The lines that are played are those with something on them that is no comment, each with its number.
pub proof fn lemma_lines_that_are_played(lines: Seq<Seq<char>>, k: int)
    requires
        0 <= k < lines.len(),
    ensures
        numbered(lines).contains(((k + 1) as nat, lines[k])) <==> played(lines[k]),
        numbered(lines).len() <= lines.len(),
        forall|m: int|
            0 <= m < numbered(lines).len() ==> 1 <= (#[trigger] numbered(lines)[m]).0 <= lines.len(),
    decreases lines.len(),
{
    let w = lines.drop_last();
    let l = lines.last();
    let r = numbered(w);
    let x = ((k + 1) as nat, lines[k]);
    if w.len() > 0 {
        lemma_lines_that_are_played(w, if k < w.len() {
            k
        } else {
            0
        });
    }
    crate::hook::holds::lemma_push_has(r, (lines.len(), l), x);
    if k < w.len() {
        assert(w[k] == lines[k]);
    } else if r.contains(x) {
        let m = r.index_of(x);
        assert(r[m].0 <= w.len());
    }
}

/// A line without a fault was read, has the effect of its report or of its answer, and met what it expects.
pub proof fn lemma_a_line_without_fault(
    host: Host,
    number: nat,
    read: Result<Line, String>,
    outcome: Outcome,
)
    ensures
        fault(host, number, read, outcome) is None ==> {
            &&& read is Ok
            &&& read->Ok_0.payload is Some || read->Ok_0.respond is Some
            &&& read->Ok_0.payload matches Some(p) ==> effect(host, number, read->Ok_0) == Ok::<
                Seq<Happening>,
                Miss,
            >(host.meaning(p@)) && (read->Ok_0.hold matches Some(h) ==> h == (host.holding(
                p@,
            ) is Some))
            &&& read->Ok_0.expect matches Some(x) ==> x.status == outcome.current@.status
        },
{
}

/// A line is played where its first character that is no white space is there and is no hash.
pub proof fn lemma_which_lines_are_played(blank: Seq<char>, c: char, rest: Seq<char>)
    requires
        forall|i: int| 0 <= i < blank.len() ==> text::white(#[trigger] blank[i]),
        !text::white(c),
    ensures
        played(blank + seq![c] + rest) <==> c != '#',
        !played(blank),
{
    let s = blank + seq![c] + rest;
    assert(text::trimmed(blank).len() == 0) by {
        text::lemma_trimmed(blank);
    }
    assert(s[blank.len() as int] == c);
    assert(text::trimmed(s).len() > 0) by {
        text::lemma_trimmed(s);
    }
    text::lemma_start_goes(blank, seq![c] + rest);
    assert(s =~= blank + (seq![c] + rest));
    assert((seq![c] + rest)[0] == c);
}

/// A part of a hundred is told as a whole number where it is one, and with a point otherwise.
pub proof fn lemma_how_a_fraction_is_told(n: nat)
    ensures
        fraction(n * 100) == num::decimal(n),
        n < 100 && n % 10 == 0 && n > 0 ==> fraction(n) == "0."@ + num::decimal(n / 10),
        n % 100 != 0 ==> fraction(n).contains('.'),
{
    reveal_strlit(".");
    reveal_strlit("0.");
    assert("."@ =~= seq!['.']);
    assert(n * 100 / 100 == n && n * 100 % 100 == 0);
    if n < 100 {
        assert(num::decimal(0) =~= seq!['0']);
        assert(seq!['0'] + "."@ =~= "0."@);
    }
    if n % 100 != 0 {
        let w = num::decimal(n / 100);
        assert(fraction(n)[w.len() as int] == '.');
    }
}

/// A report has the effect that its host gives it, whatever else the line says; but where the line says
/// whether it is held, and that is not so, it is at fault. A line with neither a report nor an answer is
/// empty.
pub proof fn lemma_what_a_line_does(host: Host, number: nat, line: Line)
    ensures
        line.payload matches Some(p) ==> (effect(host, number, line) is Ok <==> (line.hold is None
            || line.hold == Some(host.holding(p@) is Some))),
        line.payload is Some && effect(host, number, line) is Ok ==> effect(host, number, line)->Ok_0
            == host.meaning(line.payload->0@),
        line.payload is None ==> (line.respond matches Some(id) ==> effect(host, number, line) == Ok::<
            Seq<Happening>,
            Miss,
        >(seq![Happening::DecisionResolved(Some(id@))])),
        line.payload is None && line.respond is None ==> effect(host, number, line) == Err::<
            Seq<Happening>,
            Miss,
        >(Miss::Empty { line: number }),
{
}

} // verus!
