//! Recording: each event of a hook as one line of a file that can be replayed.
//!
//! The file's first line says when the recording began; times are counted from it, and it is the salt of
//! what is scrubbed, so that all processes that write to the file agree.

use crate::adapter::registry::Host;
use crate::adapter::scrub::{scrub, scrubbed};
use crate::adapter::AgentHooks;
use crate::codec::{self, compact_text, normal};
use crate::json::{self, Json, JsonView, Numeral};
use crate::num::{self, decimal, unsigned};
use crate::text::{self, after_prefix, begins, lines, texts, words};
use vstd::prelude::*;

verus! {

/// The variable that turns recording on: its value is the file.
pub const ENV: &'static str = "AGORA_HOOK_RECORD";

/// What the line begins with that says when a recording began.
pub const HEADER_PREFIX: &'static str = "# recorded";

/// The line that says when a recording began.
pub open spec fn header_text(
    host: Seq<char>,
    t0: nat,
    version: Seq<char>,
    local: Seq<char>,
) -> Seq<char> {
    HEADER_PREFIX@ + " host="@ + host + " t0="@ + decimal(t0) + " agora="@ + version + " local="@
        + local + "\n"@
}

/// The line that says when a recording began.
pub fn header_line(host: Host, now_ms: u64, version: &str, local: &str) -> (out: String)
    ensures
        out@ == header_text(host.host_text(), now_ms as nat, version@, local@),
{
    let mut s = text::cat3(HEADER_PREFIX, " host=", host.host());
    text::push_str(&mut s, " t0=");
    text::push_str(&mut s, num::to_decimal(now_ms).as_str());
    text::push_str(&mut s, " agora=");
    text::push_str(&mut s, version);
    text::push_str(&mut s, " local=");
    text::push_str(&mut s, local);
    text::push_str(&mut s, "\n");
    s
}

/// What follows `t0=` in the first of the words from `i` on that begins so.
pub open spec fn t0_word(ws: Seq<Seq<char>>, i: int) -> Option<Seq<char>>
    decreases ws.len() - i,
{
    if i < 0 || i >= ws.len() {
        None
    } else {
        match after_prefix(ws[i], "t0="@) {
            Some(v) => Some(v),
            None => t0_word(ws, i + 1),
        }
    }
}

/// The time that a line gives as the beginning of the recording.
pub open spec fn line_t0(line: Seq<char>) -> Option<nat> {
    if begins(line, HEADER_PREFIX@) {
        match t0_word(words(line), 0) {
            Some(v) => unsigned(v, u64::MAX as nat),
            None => None,
        }
    } else {
        None
    }
}

/// The time that the first of the lines from `i` on gives that gives one.
pub open spec fn first_t0(ls: Seq<Seq<char>>, i: int) -> Option<nat>
    decreases ls.len() - i,
{
    if i < 0 || i >= ls.len() {
        None
    } else {
        match line_t0(ls[i]) {
            Some(t) => Some(t),
            None => first_t0(ls, i + 1),
        }
    }
}

fn read_line_t0(line: &str) -> (r: Option<u64>)
    ensures
        match r {
            Some(t) => line_t0(line@) == Some(t as nat),
            None => line_t0(line@) is None,
        },
{
    if !text::starts_with(line, HEADER_PREFIX) {
        return None;
    }
    let ws = text::split_whitespace(line);
    let ghost w = texts(ws@);
    let mut i: usize = 0;
    while i < ws.len()
        invariant
            w == texts(ws@),
            w == words(line@),
            begins(line@, HEADER_PREFIX@),
            i <= ws@.len(),
            t0_word(w, 0) == t0_word(w, i as int),
        decreases ws@.len() - i,
    {
        proof {
            assert(w[i as int] == ws@[i as int]@);
        }
        match text::strip_prefix(ws[i].as_str(), "t0=") {
            Some(v) => {
                return num::parse_unsigned(v.as_str(), u64::MAX);
            },
            None => {},
        }
        i += 1;
    }
    None
}

/// When a recording began, by the text of its file.
pub fn read_t0(content: &str) -> (r: Option<u64>)
    ensures
        match r {
            Some(t) => first_t0(lines(content@), 0) == Some(t as nat),
            None => first_t0(lines(content@), 0) is None,
        },
{
    let ls = text::lines_of(content);
    let ghost l = texts(ls@);
    let mut i: usize = 0;
    while i < ls.len()
        invariant
            l == texts(ls@),
            l == lines(content@),
            i <= ls@.len(),
            first_t0(l, 0) == first_t0(l, i as int),
        decreases ls@.len() - i,
    {
        proof {
            assert(l[i as int] == ls@[i as int]@);
        }
        match read_line_t0(ls[i].as_str()) {
            Some(t) => {
                return Some(t);
            },
            None => {},
        }
        i += 1;
    }
    None
}

/// The line of an event, as a value: when it came, in seconds from the beginning; whether it asks to be
/// held; and what is left of it when it is scrubbed.
pub open spec fn line_json(host: Host, payload: JsonView, t0: u64, now_ms: u64) -> JsonView {
    let at = if now_ms >= t0 {
        (now_ms - t0) / 1000
    } else {
        0
    };
    JsonView::Object(
        seq![
            ("at"@, JsonView::Int(at)),
            ("hold"@, JsonView::Bool(host.holding(payload) is Some)),
            ("payload"@, scrubbed("payload"@, payload, decimal(t0 as nat))),
        ],
    )
}

/// The line of an event, as a value.
pub fn record_json(host: Host, payload: &Json, t0: u64, now_ms: u64) -> (r: Json)
    ensures
        r@ == line_json(host, payload@, t0, now_ms),
{
    let at: u64 = if now_ms >= t0 {
        (now_ms - t0) / 1000
    } else {
        0
    };
    let salt = num::to_decimal(t0);
    let hold: bool = host.hold_key(payload).is_some();
    let r = json::with(
        json::with(
            json::with(Json::Object(Vec::new()), "at", Json::Number(Numeral::Unsigned(at))),
            "hold",
            Json::Bool(hold),
        ),
        "payload",
        scrub(payload, salt.as_str()),
    );
    proof {
        assert(r@->Object_0 =~= line_json(host, payload@, t0, now_ms)->Object_0);
    }
    r
}

/// The line of an event.
pub fn record_line(host: Host, payload: &Json, t0: u64, now_ms: u64) -> (out: String)
    ensures
        out@ == compact_text(normal(line_json(host, payload@, t0, now_ms))).push('\n'),
{
    let j = record_json(host, payload, t0, now_ms);
    let mut s = codec::compact(&j);
    s.push('\n');
    s
}

/// The time that the first line of a recording was written with is read back from it.
pub proof fn lemma_header_reads_back(
    host: Seq<char>,
    t0: u64,
    version: Seq<char>,
    local: Seq<char>,
)
    requires
        forall|i: int| 0 <= i < host.len() ==> !text::white(#[trigger] host[i]),
        !version.contains('\n'),
        !local.contains('\n'),
        local.len() > 0,
        local.last() != '\r',
    ensures
        first_t0(lines(header_text(host, t0 as nat, version, local)), 0) == Some(t0 as nat),
{
    reveal_strlit("# recorded");
    reveal_strlit(" host=");
    reveal_strlit(" t0=");
    reveal_strlit("t0=");
    reveal_strlit(" agora=");
    reveal_strlit(" local=");
    reveal_strlit("\n");
    let d = decimal(t0 as nat);
    num::lemma_decimal(t0 as nat);
    let w0 = seq!['#'];
    let w1 = seq!['r', 'e', 'c', 'o', 'r', 'd', 'e', 'd'];
    let w2 = seq!['h', 'o', 's', 't', '='] + host;
    let w3 = seq!['t', '0', '='] + d;
    let rest = seq!['a', 'g', 'o', 'r', 'a', '='] + version + " local="@ + local;
    let line = w0 + seq![' '] + (w1 + seq![' '] + (w2 + seq![' '] + (w3 + seq![' '] + rest)));
    assert(header_text(host, t0 as nat, version, local) =~= line.push('\n'));
    assert forall|i: int| 0 <= i < w2.len() implies !text::white(#[trigger] w2[i]) by {
        if i >= 5 {
            assert(w2[i] == host[i - 5]);
        }
    }
    assert forall|i: int| 0 <= i < w3.len() implies !text::white(#[trigger] w3[i]) by {
        if i >= 3 {
            assert(w3[i] == d[i - 3]);
            assert(num::digit(d[i - 3]));
        }
    }
    text::lemma_word(w0);
    text::lemma_word(w1);
    text::lemma_word(w2);
    text::lemma_word(w3);
    text::lemma_words_joined(w3, rest);
    text::lemma_words_joined(w2, w3 + seq![' '] + rest);
    text::lemma_words_joined(w1, w2 + seq![' '] + (w3 + seq![' '] + rest));
    text::lemma_words_joined(w0, w1 + seq![' '] + (w2 + seq![' '] + (w3 + seq![' '] + rest)));
    let ws = words(line);
    assert(ws[0] == w0 && ws[1] == w1 && ws[2] == w2 && ws[3] == w3);
    assert(!begins(w0, "t0="@));
    assert(!begins(w1, "t0="@)) by {
        assert(w1[0] != "t0="@[0]);
        assert(w1.subrange(0, 3)[0] == w1[0]);
    }
    assert(!begins(w2, "t0="@)) by {
        assert(w2[0] != "t0="@[0]);
        assert(w2.subrange(0, 3)[0] == w2[0]);
    }
    assert(begins(w3, "t0="@)) by {
        assert(w3.subrange(0, 3) =~= "t0="@);
    }
    assert(w3.skip(3) =~= d);
    assert(t0_word(ws, 3) == Some(d));
    assert(t0_word(ws, 2) == Some(d));
    assert(t0_word(ws, 1) == Some(d));
    assert(t0_word(ws, 0) == Some(d));
    assert(num::digit(d[0]));
    assert(num::without_plus(d) == d);
    assert(line.subrange(0, 10) =~= HEADER_PREFIX@);
    assert(line_t0(line) == Some(t0 as nat));
    assert(!line.contains('\n')) by {
        assert forall|i: int| 0 <= i < line.len() implies line[i] != '\n' by {
            let base = 2 + 9 + w2.len() + 1 + w3.len() + 1;
            if i < 2 {
            } else if i < 11 {
                assert(i < 10 ==> line[i] == w1[i - 2]);
            } else if i < 11 + w2.len() {
                assert(line[i] == w2[i - 11]);
                assert(!text::white(w2[i - 11]));
            } else if i == 11 + w2.len() {
            } else if i < 12 + w2.len() + w3.len() {
                assert(line[i] == w3[i - 12 - w2.len()]);
                assert(!text::white(w3[i - 12 - w2.len()]));
            } else if i < base {
            } else {
                let j = i - base;
                assert(line[i] == rest[j]);
                if j < 6 {
                } else if j < 6 + version.len() {
                    assert(rest[j] == version[j - 6]);
                    assert(version.contains(version[j - 6]));
                } else if j < 13 + version.len() {
                    assert(rest[j] == " local="@[j - 6 - version.len()]);
                } else {
                    assert(rest[j] == local[j - 13 - version.len()]);
                    assert(local.contains(local[j - 13 - version.len()]));
                }
            }
        }
    }
    assert(line.last() == local.last());
    text::lemma_one_line(line);
}

/// What is recorded of a report is when it came, in whole seconds since the recording began, and whether it
/// is one that is held; what it says is told without what is private in it.
pub proof fn lemma_what_is_recorded(host: Host, payload: JsonView, t0: u64, now: u64)
    ensures
        json::member(line_json(host, payload, t0, now), "at"@) == Some(
            JsonView::Int(
                if now >= t0 {
                    (now - t0) / 1000
                } else {
                    0
                },
            ),
        ),
        json::member(line_json(host, payload, t0, now), "hold"@) == Some(
            JsonView::Bool(host.holding(payload) is Some),
        ),
        json::member(line_json(host, payload, t0, now), "payload"@) == Some(
            scrubbed("payload"@, payload, decimal(t0 as nat)),
        ),
{
    reveal_strlit("at");
    reveal_strlit("hold");
    reveal_strlit("payload");
    assert("at"@.len() == 2);
    assert("hold"@.len() == 4);
    assert("payload"@.len() == 7);
    reveal_with_fuel(json::find, 4);
}

} // verus!
