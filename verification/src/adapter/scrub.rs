//! Recording without secrets: what goes into a recording keeps its keys, its structure and its enums,
//! and loses all else.
//!
//! Every string is replaced by its key's class: an id by a placeholder of the same shape, a path by a
//! placeholder path, an enum that is one token by itself, and anything else by its key in angle
//! brackets. Placeholders depend on the value and on the recording's salt, so that within a recording
//! the same id is still the same, and between two nothing can be matched.

use crate::digest::{self, sha256};
use crate::json::{self, member_views, views, Json, JsonView};
use crate::num::{self, hex};
use crate::quote::{alphanumeric, is_alphanumeric};
use crate::text::{self, begins, finishes, same, strs};
use vstd::prelude::*;
use vstd::utf8::encode_utf8;

verus! {

/// The keys whose values are enums.
pub const ENUM_KEYS: [&'static str; 31] = [
    "hook_event_name",
    "hookEventName",
    "source",
    "permission_mode",
    "permissionMode",
    "notification_type",
    "notificationType",
    "reason",
    "tool_name",
    "toolName",
    "error_type",
    "errorType",
    "error",
    "matcher",
    "level",
    "effort",
    "behavior",
    "model",
    "trigger",
    "stop_reason",
    "stopReason",
    "status",
    "kind",
    "type",
    "decision",
    "subagent_type",
    "subagentType",
    "agent_type",
    "agentType",
    "role",
    "mode",
];

/// The keys whose values are paths.
pub const PATH_KEYS: [&'static str; 14] = [
    "cwd",
    "transcript_path",
    "transcriptPath",
    "workspaceRoot",
    "workspace_root",
    "project_dir",
    "projectDir",
    "file_path",
    "filePath",
    "path",
    "root",
    "dir",
    "directory",
    "home",
];

/// Whether `s` is one of `list`.
pub fn is_one_of(list: &[&str], s: &str) -> (r: bool)
    ensures
        r == strs(list@).contains(s@),
{
    let mut i: usize = 0;
    while i < list.len()
        invariant
            i <= list@.len(),
            forall|k: int| 0 <= k < i ==> #[trigger] strs(list@)[k] != s@,
        decreases list@.len() - i,
    {
        if same(list[i], s) {
            proof {
                assert(strs(list@)[i as int] == s@);
            }
            return true;
        }
        i += 1;
    }
    false
}

/// Whether the value of a key is an id.
pub open spec fn id_key(key: Seq<char>) -> bool {
    key == "id"@ || key == "uuid"@ || finishes(key, "_id"@) || finishes(key, "Id"@)
}

fn is_id_key(key: &str) -> (r: bool)
    ensures
        r == id_key(key@),
{
    same(key, "id") || same(key, "uuid") || text::ends_with(key, "_id") || text::ends_with(key, "Id")
}

/// Whether `c` may stand in a token.
pub open spec fn token_char(c: char) -> bool {
    alphanumeric(c) || c == '_' || c == '-' || c == '.' || c == ':'
}

/// Whether `s` is one token.
pub open spec fn token(s: Seq<char>) -> bool {
    0 < s.len() <= 64 && forall|i: int| 0 <= i < s.len() ==> token_char(#[trigger] s[i])
}

fn is_token(s: &str) -> (r: bool)
    ensures
        r == token(s@),
{
    let v = text::chars_of(s);
    if v.len() == 0 || v.len() > 64 {
        return false;
    }
    let mut i: usize = 0;
    while i < v.len()
        invariant
            v@ == s@,
            i <= v@.len(),
            forall|k: int| 0 <= k < i ==> token_char(#[trigger] s@[k]),
        decreases v@.len() - i,
    {
        let c: char = v[i];
        if !(is_alphanumeric(c) || c == '_' || c == '-' || c == '.' || c == ':') {
            proof {
                assert(!token_char(s@[i as int]));
            }
            return false;
        }
        i += 1;
    }
    true
}

/// Whether `c` is a hexadecimal digit.
pub open spec fn any_hex(c: char) -> bool {
    '0' <= c <= '9' || 'a' <= c <= 'f' || 'A' <= c <= 'F'
}

/// Whether `c` may stand at the place `i` of a UUID.
pub open spec fn fits_uuid(c: char, i: int) -> bool {
    if i == 8 || i == 13 || i == 18 || i == 23 {
        c == '-'
    } else {
        any_hex(c)
    }
}

/// Whether `s` has the shape of a UUID.
pub open spec fn uuid_shaped(s: Seq<char>) -> bool {
    s.len() == 36 && forall|i: int| 0 <= i < 36 ==> fits_uuid(#[trigger] s[i], i)
}

/// Whether `s` has the shape of a UUID.
pub fn is_uuid(s: &str) -> (r: bool)
    ensures
        r == uuid_shaped(s@),
{
    let v = text::chars_of(s);
    if v.len() != 36 {
        return false;
    }
    let mut i: usize = 0;
    while i < 36
        invariant
            v@ == s@,
            v@.len() == 36,
            i <= 36,
            forall|k: int| 0 <= k < i ==> fits_uuid(#[trigger] s@[k], k),
        decreases 36 - i,
    {
        let c: char = v[i];
        let ok: bool = if i == 8 || i == 13 || i == 18 || i == 23 {
            c == '-'
        } else {
            ('0' <= c && c <= '9') || ('a' <= c && c <= 'f') || ('A' <= c && c <= 'F')
        };
        if !ok {
            proof {
                assert(!fits_uuid(s@[i as int], i as int));
            }
            return false;
        }
        i += 1;
    }
    true
}

/// The bytes that the placeholder of a value is computed from.
pub open spec fn salted(salt: Seq<char>, value: Seq<char>) -> Seq<u8> {
    encode_utf8(salt) + seq![0u8] + encode_utf8(value)
}

/// The hash of a value in a recording, in hexadecimal.
pub open spec fn digest_text(salt: Seq<char>, value: Seq<char>) -> Seq<char> {
    hex(sha256(salted(salt, value)))
}

fn digest_of(salt: &str, value: &str) -> (out: String)
    ensures
        out@ == digest_text(salt@, value@),
        out@.len() == 64,
{
    let mut b: Vec<u8> = Vec::new();
    b.extend_from_slice(salt.as_bytes());
    b.push(0);
    b.extend_from_slice(value.as_bytes());
    proof {
        assert(b@ =~= salted(salt@, value@));
    }
    let h = digest::hash(&b);
    proof {
        num::lemma_hex_len(h@);
    }
    num::to_hex(&h)
}

/// Where the first underscore or hyphen stands, counted from `i`.
pub open spec fn first_joint(s: Seq<char>, i: int) -> Option<int>
    decreases s.len() - i,
{
    if i < 0 || i >= s.len() {
        None
    } else if s[i] == '_' || s[i] == '-' {
        Some(i)
    } else {
        first_joint(s, i + 1)
    }
}

/// The prefix of an id that belongs to its shape: at most 12 characters up to the first underscore or
/// hyphen, with only letters and digits before it.
pub open spec fn id_prefix(s: Seq<char>) -> Option<Seq<char>> {
    match first_joint(s, 0) {
        Some(i) => if i < 12 && forall|k: int| 0 <= k < i ==> alphanumeric(#[trigger] s[k]) {
            Some(s.take(i + 1))
        } else {
            None
        },
        None => None,
    }
}

/// What stands for an id whose hash is `h`.
pub open spec fn id_stand_in(value: Seq<char>, h: Seq<char>) -> Seq<char> {
    if uuid_shaped(value) {
        h.subrange(0, 8) + seq!['-'] + h.subrange(8, 12) + seq!['-'] + h.subrange(12, 16)
            + seq!['-'] + h.subrange(16, 20) + seq!['-'] + h.subrange(20, 32)
    } else {
        match id_prefix(value) {
            Some(p) => p + h.subrange(0, 8),
            None => "id-"@ + h.subrange(0, 8),
        }
    }
}

/// What stands for a path whose hash is `h`.
pub open spec fn path_stand_in(value: Seq<char>, h: Seq<char>) -> Seq<char> {
    if begins(value, seq!['~']) {
        "~/redacted/"@ + h.subrange(0, 8)
    } else {
        "/redacted/"@ + h.subrange(0, 8)
    }
}

/// What stands for an id whose hash is `h`.
pub fn id_placeholder(value: &str, h: &str) -> (out: String)
    requires
        h@.len() >= 32,
    ensures
        out@ == id_stand_in(value@, h@),
{
    let hv = text::chars_of(h);
    if is_uuid(value) {
        let mut out = text::string_of_range(&hv, 0, 8);
        out.push('-');
        text::push_str(&mut out, text::string_of_range(&hv, 8, 12).as_str());
        out.push('-');
        text::push_str(&mut out, text::string_of_range(&hv, 12, 16).as_str());
        out.push('-');
        text::push_str(&mut out, text::string_of_range(&hv, 16, 20).as_str());
        out.push('-');
        text::push_str(&mut out, text::string_of_range(&hv, 20, 32).as_str());
        proof {
            assert(out@ =~= id_stand_in(value@, h@));
        }
        return out;
    }
    let short = text::string_of_range(&hv, 0, 8);
    let v = text::chars_of(value);
    let mut i: usize = 0;
    let mut plain: bool = true;
    while i < v.len()
        invariant
            v@ == value@,
            i <= v@.len(),
            !uuid_shaped(value@),
            short@ == h@.subrange(0, 8),
            first_joint(value@, 0) == first_joint(value@, i as int),
            plain == (forall|k: int| 0 <= k < i ==> alphanumeric(#[trigger] value@[k])),
        decreases v@.len() - i,
    {
        let c: char = v[i];
        if c == '_' || c == '-' {
            if i < 12 && plain {
                let p = text::string_of_range(&v, 0, i + 1);
                proof {
                    assert(p@ =~= value@.take(i + 1));
                }
                return text::cat(p.as_str(), short.as_str());
            }
            return text::cat("id-", short.as_str());
        }
        plain = plain && is_alphanumeric(c);
        i += 1;
    }
    text::cat("id-", short.as_str())
}

/// What stands for a path whose hash is `h`.
pub fn path_placeholder(value: &str, h: &str) -> (out: String)
    requires
        h@.len() >= 8,
    ensures
        out@ == path_stand_in(value@, h@),
{
    let hv = text::chars_of(h);
    let short = text::string_of_range(&hv, 0, 8);
    proof {
        reveal_strlit("~");
        assert("~"@ =~= seq!['~']);
    }
    if text::starts_with(value, "~") {
        text::cat("~/redacted/", short.as_str())
    } else {
        text::cat("/redacted/", short.as_str())
    }
}

/// What becomes of a string under a key.
pub open spec fn scrubbed_str(key: Seq<char>, value: Seq<char>, salt: Seq<char>) -> Seq<char> {
    let h = digest_text(salt, value);
    if id_key(key) {
        id_stand_in(value, h)
    } else if strs(PATH_KEYS@).contains(key) || begins(value, seq!['/']) || begins(
        value,
        seq!['~'],
    ) {
        path_stand_in(value, h)
    } else if strs(ENUM_KEYS@).contains(key) && token(value) {
        value
    } else {
        seq!['<'] + key + seq!['>']
    }
}

fn scrub_str(key: &str, value: &str, salt: &str) -> (out: String)
    ensures
        out@ == scrubbed_str(key@, value@, salt@),
{
    proof {
        reveal_strlit("~");
        assert("~"@ =~= seq!['~']);
        reveal_strlit("/");
        assert("/"@ =~= seq!['/']);
    }
    if is_id_key(key) {
        let h = digest_of(salt, value);
        return id_placeholder(value, h.as_str());
    }
    let paths: [&'static str; 14] = PATH_KEYS;
    let enums: [&'static str; 31] = ENUM_KEYS;
    if is_one_of(paths.as_slice(), key) || text::starts_with(value, "/") || text::starts_with(
        value,
        "~",
    ) {
        let h = digest_of(salt, value);
        return path_placeholder(value, h.as_str());
    }
    if is_one_of(enums.as_slice(), key) && is_token(value) {
        return value.to_owned();
    }
    let mut out = String::new();
    out.push('<');
    text::push_str(&mut out, key);
    out.push('>');
    proof {
        assert(out@ =~= seq!['<'] + key@ + seq!['>']);
    }
    out
}

/// What becomes of a value under a key.
pub open spec fn scrubbed(key: Seq<char>, v: JsonView, salt: Seq<char>) -> JsonView
    decreases v,
{
    match v {
        JsonView::Str(s) => JsonView::Str(scrubbed_str(key, s, salt)),
        JsonView::Array(items) => JsonView::Array(scrubbed_all(key, items, salt)),
        JsonView::Object(m) => JsonView::Object(scrubbed_members(m, salt)),
        _ => v,
    }
}

/// What becomes of the values of an array under a key.
pub open spec fn scrubbed_all(key: Seq<char>, items: Seq<JsonView>, salt: Seq<char>) -> Seq<JsonView>
    decreases items,
{
    if items.len() == 0 {
        Seq::empty()
    } else {
        scrubbed_all(key, items.drop_last(), salt).push(scrubbed(key, items.last(), salt))
    }
}

/// What becomes of the members of an object.
pub open spec fn scrubbed_members(m: Seq<(Seq<char>, JsonView)>, salt: Seq<char>) -> Seq<
    (Seq<char>, JsonView),
>
    decreases m,
{
    if m.len() == 0 {
        Seq::empty()
    } else {
        scrubbed_members(m.drop_last(), salt).push(
            (m.last().0, scrubbed(m.last().0, m.last().1, salt)),
        )
    }
}

fn scrub_value(key: &str, value: &Json, salt: &str) -> (r: Json)
    ensures
        r@ == scrubbed(key@, value@, salt@),
    decreases *value,
{
    match value {
        Json::Str(s) => Json::Str(scrub_str(key, s.as_str(), salt)),
        Json::Array(items) => {
            let mut out: Vec<Json> = Vec::new();
            let ghost all = views(items@);
            let mut i: usize = 0;
            proof {
                json::lemma_views(items@);
                assert(all.take(0) =~= Seq::<JsonView>::empty());
                assert(views(out@) =~= scrubbed_all(key@, all.take(0), salt@));
            }
            while i < items.len()
                invariant
                    *value == Json::Array(*items),
                    all == views(items@),
                    all.len() == items@.len(),
                    forall|k: int|
                        0 <= k < items@.len() ==> #[trigger] all[k] == json::view_of(items@[k]),
                    i <= items@.len(),
                    views(out@) == scrubbed_all(key@, all.take(i as int), salt@),
                decreases items@.len() - i,
            {
                proof {
                    assert(decreases_to!(*value => value->Array_0));
                    assert(decreases_to!(items@ => items@[i as int]));
                    assert(all.take(i + 1).drop_last() =~= all.take(i as int));
                    assert(all.take(i + 1).last() == all[i as int]);
                }
                let c = scrub_value(key, &items[i], salt);
                let ghost was = out@;
                out.push(c);
                proof {
                    assert(out@.drop_last() =~= was);
                }
                i += 1;
            }
            proof {
                assert(all.take(i as int) =~= all);
            }
            Json::Array(out)
        },
        Json::Object(m) => {
            let mut out: Vec<(String, Json)> = Vec::new();
            let ghost all = member_views(m@);
            let mut i: usize = 0;
            proof {
                json::lemma_member_views(m@);
                assert(all.take(0) =~= Seq::<(Seq<char>, JsonView)>::empty());
                assert(member_views(out@) =~= scrubbed_members(all.take(0), salt@));
            }
            while i < m.len()
                invariant
                    *value == Json::Object(*m),
                    all == member_views(m@),
                    all.len() == m@.len(),
                    forall|k: int|
                        0 <= k < m@.len() ==> #[trigger] all[k] == (
                            m@[k].0@,
                            json::view_of(m@[k].1),
                        ),
                    i <= m@.len(),
                    member_views(out@) == scrubbed_members(all.take(i as int), salt@),
                decreases m@.len() - i,
            {
                proof {
                    assert(decreases_to!(*value => value->Object_0));
                    assert(decreases_to!(m@ => m@[i as int]));
                    assert(decreases_to!(m@[i as int] => m@[i as int].1));
                    assert(all.take(i + 1).drop_last() =~= all.take(i as int));
                    assert(all.take(i + 1).last() == all[i as int]);
                }
                let c = scrub_value(m[i].0.as_str(), &m[i].1, salt);
                let ghost was = out@;
                out.push((m[i].0.clone(), c));
                proof {
                    assert(out@.drop_last() =~= was);
                }
                i += 1;
            }
            proof {
                assert(all.take(i as int) =~= all);
            }
            Json::Object(out)
        },
        _ => {
            proof {
                json::lemma_kinds(*value);
            }
            json::copy(value)
        },
    }
}

/// What goes into a recording of a payload, `salt` being the recording's.
pub fn scrub(payload: &Json, salt: &str) -> (r: Json)
    ensures
        r@ == scrubbed("payload"@, payload@, salt@),
{
    scrub_value("payload", payload, salt)
}

/// Whether two values have the same structure: the same keys and lengths, and the same leaves but for
/// what the strings say.
pub open spec fn same_shape(a: JsonView, b: JsonView) -> bool
    decreases a,
{
    match (a, b) {
        (JsonView::Str(_), JsonView::Str(_)) => true,
        (JsonView::Array(x), JsonView::Array(y)) => x.len() == y.len() && forall|i: int|
            0 <= i < x.len() ==> same_shape(#[trigger] x[i], y[i]),
        (JsonView::Object(x), JsonView::Object(y)) => x.len() == y.len() && forall|i: int|
            0 <= i < x.len() ==> (#[trigger] x[i]).0 == y[i].0 && same_shape(x[i].1, y[i].1),
        _ => a == b,
    }
}

/// Scrubbing changes nothing but what strings say.
pub proof fn lemma_scrubbing_keeps_shape(key: Seq<char>, v: JsonView, salt: Seq<char>)
    ensures
        same_shape(v, scrubbed(key, v, salt)),
    decreases v, 1nat,
{
    match v {
        JsonView::Array(items) => {
            lemma_items_keep_shape(key, items, salt);
        },
        JsonView::Object(m) => {
            lemma_members_keep_shape(m, salt);
        },
        _ => {},
    }
}

proof fn lemma_items_keep_shape(key: Seq<char>, items: Seq<JsonView>, salt: Seq<char>)
    ensures
        scrubbed_all(key, items, salt).len() == items.len(),
        forall|i: int|
            0 <= i < items.len() ==> same_shape(
                #[trigger] items[i],
                scrubbed_all(key, items, salt)[i],
            ),
    decreases items, 0nat,
{
    if items.len() > 0 {
        lemma_items_keep_shape(key, items.drop_last(), salt);
        lemma_scrubbing_keeps_shape(key, items.last(), salt);
        assert forall|i: int| 0 <= i < items.len() implies same_shape(
            #[trigger] items[i],
            scrubbed_all(key, items, salt)[i],
        ) by {
            if i < items.len() - 1 {
                assert(items.drop_last()[i] == items[i]);
            }
        }
    }
}

proof fn lemma_members_keep_shape(m: Seq<(Seq<char>, JsonView)>, salt: Seq<char>)
    ensures
        scrubbed_members(m, salt).len() == m.len(),
        forall|i: int|
            0 <= i < m.len() ==> (#[trigger] m[i]).0 == scrubbed_members(m, salt)[i].0
                && same_shape(m[i].1, scrubbed_members(m, salt)[i].1),
    decreases m, 0nat,
{
    if m.len() > 0 {
        lemma_members_keep_shape(m.drop_last(), salt);
        lemma_scrubbing_keeps_shape(m.last().0, m.last().1, salt);
        assert forall|i: int| 0 <= i < m.len() implies (#[trigger] m[i]).0 == scrubbed_members(
            m,
            salt,
        )[i].0 && same_shape(m[i].1, scrubbed_members(m, salt)[i].1) by {
            if i < m.len() - 1 {
                assert(m.drop_last()[i] == m[i]);
            }
        }
    }
}

/// Within a recording an id has one placeholder, under whichever key it stands.
pub proof fn lemma_ids_still_match(k1: Seq<char>, k2: Seq<char>, value: Seq<char>, salt: Seq<char>)
    requires
        id_key(k1),
        id_key(k2),
    ensures
        scrubbed_str(k1, value, salt) == scrubbed_str(k2, value, salt),
{
}

/// What a free text says does not get into a recording: whatever it is, its key stands in its place.
pub proof fn lemma_free_text_is_gone(
    key: Seq<char>,
    a: Seq<char>,
    b: Seq<char>,
    salt: Seq<char>,
)
    requires
        !id_key(key),
        !strs(PATH_KEYS@).contains(key),
        !strs(ENUM_KEYS@).contains(key),
        !begins(a, seq!['/']) && !begins(a, seq!['~']),
        !begins(b, seq!['/']) && !begins(b, seq!['~']),
    ensures
        scrubbed_str(key, a, salt) == scrubbed_str(key, b, salt),
{
}

/// The placeholder of a UUID has the shape of one.
pub proof fn lemma_uuid_keeps_shape(value: Seq<char>, bytes: Seq<u8>)
    requires
        uuid_shaped(value),
        bytes.len() == 32,
    ensures
        uuid_shaped(id_stand_in(value, hex(bytes))),
{
    let h = hex(bytes);
    num::lemma_hex_len(bytes);
    assert forall|i: int| 0 <= i < 64 implies any_hex(#[trigger] h[i]) by {
        lemma_hex_digits(bytes, i);
    }
    let s = id_stand_in(value, h);
    assert forall|i: int| 0 <= i < 36 implies fits_uuid(#[trigger] s[i], i) by {
        if i != 8 && i != 13 && i != 18 && i != 23 {
            let k = if i < 8 {
                i
            } else if i < 13 {
                i - 1
            } else if i < 18 {
                i - 2
            } else if i < 23 {
                i - 3
            } else {
                i - 4
            };
            assert(s[i] == h[k]);
        }
    }
}

proof fn lemma_hex_digits(b: Seq<u8>, i: int)
    requires
        0 <= i < 2 * b.len(),
    ensures
        hex(b).len() == 2 * b.len(),
        any_hex(hex(b)[i]),
    decreases b.len(),
{
    num::lemma_hex_len(b);
    num::lemma_hex_len(b.drop_last());
    if i < 2 * (b.len() - 1) {
        lemma_hex_digits(b.drop_last(), i);
    }
}

/// Under a name for one of a few words such a word stays; what names a path, or looks like one, is told as a
/// path and no more; and whatever else there is, is told by its name alone.
pub proof fn lemma_what_is_told_of_a_text(key: Seq<char>, value: Seq<char>, salt: Seq<char>)
    requires
        !id_key(key),
    ensures
        ({
            let path = strs(PATH_KEYS@).contains(key) || begins(value, seq!['/']) || begins(
                value,
                seq!['~'],
            );
            let r = scrubbed_str(key, value, salt);
            &&& !path && strs(ENUM_KEYS@).contains(key) && token(value) ==> r == value
            &&& !path && !(strs(ENUM_KEYS@).contains(key) && token(value)) ==> r == seq!['<'] + key
                + seq!['>']
            &&& path && !begins(value, seq!['~']) ==> begins(r, "/redacted/"@)
            &&& path && begins(value, seq!['~']) ==> begins(r, "~/redacted/"@)
        }),
{
    let h = digest_text(salt, value);
    let a = "~/redacted/"@;
    let b = "/redacted/"@;
    assert((a + h.subrange(0, 8)).subrange(0, a.len() as int) =~= a);
    assert((b + h.subrange(0, 8)).subrange(0, b.len() as int) =~= b);
}

/// A word is at most 64 letters, digits, underscores, dashes, dots and colons: nothing with white space or a
/// slash in it is one.
pub proof fn lemma_words_have_no_blanks(s: Seq<char>)
    ensures
        token(s) ==> s.len() <= 64 && !s.contains(' ') && !s.contains('/') && !s.contains('\n')
            && !s.contains('@') && !s.contains('='),
{
    if token(s) {
        assert forall|c: char| s.contains(c) implies token_char(c) by {
            let i = s.index_of(c);
            assert(token_char(s[i]));
        }
    }
}

/// What a name ends with says whether it names an id.
pub proof fn lemma_names_of_ids(p: Seq<char>, key: Seq<char>)
    ensures
        id_key(p + "_id"@),
        id_key(p + "Id"@),
        id_key("id"@) && id_key("uuid"@),
        id_key(key) ==> key.len() >= 2 && key.last() == 'd',
{
    text::lemma_begin_and_end(p, "_id"@);
    text::lemma_begin_and_end(p, "Id"@);
    reveal_strlit("_id");
    reveal_strlit("Id");
    reveal_strlit("id");
    reveal_strlit("uuid");
    if finishes(key, "_id"@) {
        text::lemma_begin_and_end("_id"@, key);
    }
    if finishes(key, "Id"@) {
        text::lemma_begin_and_end("Id"@, key);
    }
}

/// Of an id the few letters that say what it names stay, and what follows them is told as something else.
pub proof fn lemma_what_stays_of_an_id(kind: Seq<char>, joint: char, rest: Seq<char>, h: Seq<char>)
    requires
        joint == '_' || joint == '-',
        forall|i: int| 0 <= i < kind.len() ==> alphanumeric(#[trigger] kind[i]),
        h.len() >= 32,
    ensures
        ({
            let value = kind + seq![joint] + rest;
            !uuid_shaped(value) ==> id_stand_in(value, h) == (if kind.len() < 12 {
                kind + seq![joint] + h.subrange(0, 8)
            } else {
                "id-"@ + h.subrange(0, 8)
            })
        }),
{
    let value = kind + seq![joint] + rest;
    lemma_joint(value, 0, kind.len() as int);
    assert(value.take(kind.len() as int + 1) =~= kind + seq![joint]);
    assert forall|k: int| 0 <= k < kind.len() implies alphanumeric(#[trigger] value[k]) by {
        assert(value[k] == kind[k]);
    }
}

proof fn lemma_joint(s: Seq<char>, i: int, k: int)
    requires
        0 <= i <= k < s.len(),
        s[k] == '_' || s[k] == '-',
        forall|m: int| i <= m < k ==> alphanumeric(#[trigger] s[m]),
    ensures
        first_joint(s, i) == Some(k),
    decreases k - i,
{
    if i < k {
        assert(alphanumeric(s[i]));
        lemma_joint(s, i + 1, k);
    }
}

} // verus!
