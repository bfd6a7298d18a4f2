//! JSON values as plain data.

use crate::order;
use crate::text;
use vstd::prelude::*;

verus! {

#[verifier::external_type_specification]
#[verifier::external_body]
pub struct ExNumber(serde_json::Number);

/// `Clone` of `serde_json::Number`: the copy is the same number.
pub assume_specification[ <serde_json::Number as Clone>::clone ](n: &serde_json::Number) -> (r:
    serde_json::Number)
    ensures
        r == *n,
;

/// Whether `==` of `serde_json::Number` holds of two numbers.
pub uninterp spec fn equal_numbers(a: serde_json::Number, b: serde_json::Number) -> bool;

/// `==` of `serde_json::Number`; a number is equal to itself.
#[verifier::external_body]
fn numbers_are_equal(a: &serde_json::Number, b: &serde_json::Number) -> (r: bool)
    ensures
        r == equal_numbers(*a, *b),
        *a == *b ==> r,
{
    a == b
}

/// A JSON number.
#[derive(Debug, PartialEq, Eq)]
pub enum Numeral {
    /// A non-negative integer.
    Unsigned(u64),
    /// A negative integer.
    Negative(i64),
    /// A number that is no integer of 64 bits; it is carried along as it was read.
    Other(serde_json::Number),
}

/// A JSON value. The members of an object stand in the order of their names.
#[derive(Debug, PartialEq, Eq)]
pub enum Json {
    Null,
    Bool(bool),
    Number(Numeral),
    Str(String),
    Array(Vec<Json>),
    Object(Vec<(String, Json)>),
}

/// The model of a JSON value.
pub enum JsonView {
    Null,
    Bool(bool),
    Int(int),
    OtherNumber(serde_json::Number),
    Str(Seq<char>),
    Array(Seq<JsonView>),
    Object(Seq<(Seq<char>, JsonView)>),
}

impl View for Numeral {
    type V = JsonView;

    open spec fn view(&self) -> JsonView {
        match self {
            Numeral::Unsigned(n) => JsonView::Int(*n as int),
            Numeral::Negative(n) => JsonView::Int(*n as int),
            Numeral::Other(n) => JsonView::OtherNumber(*n),
        }
    }
}

/// The models of the values of an array.
pub open spec fn views(v: Seq<Json>) -> Seq<JsonView>
    decreases v,
{
    if v.len() == 0 {
        Seq::empty()
    } else {
        views(v.drop_last()).push(view_of(v.last()))
    }
}

/// The models of the members of an object.
pub open spec fn member_views(v: Seq<(String, Json)>) -> Seq<(Seq<char>, JsonView)>
    decreases v,
{
    if v.len() == 0 {
        Seq::empty()
    } else {
        member_views(v.drop_last()).push((v.last().0@, view_of(v.last().1)))
    }
}

/// The model of a value.
pub open spec fn view_of(j: Json) -> JsonView
    decreases j,
{
    match j {
        Json::Null => JsonView::Null,
        Json::Bool(b) => JsonView::Bool(b),
        Json::Number(n) => n@,
        Json::Str(s) => JsonView::Str(s@),
        Json::Array(v) => JsonView::Array(views(v@)),
        Json::Object(v) => JsonView::Object(member_views(v@)),
    }
}

impl View for Json {
    type V = JsonView;

    open spec fn view(&self) -> JsonView {
        view_of(*self)
    }
}

pub proof fn lemma_views(v: Seq<Json>)
    ensures
        views(v).len() == v.len(),
        forall|i: int| 0 <= i < v.len() ==> #[trigger] views(v)[i] == view_of(v[i]),
    decreases v.len(),
{
    if v.len() > 0 {
        lemma_views(v.drop_last());
    }
}

pub proof fn lemma_member_views(v: Seq<(String, Json)>)
    ensures
        member_views(v).len() == v.len(),
        forall|i: int|
            0 <= i < v.len() ==> #[trigger] member_views(v)[i] == (v[i].0@, view_of(v[i].1)),
    decreases v.len(),
{
    if v.len() > 0 {
        lemma_member_views(v.drop_last());
    }
}

/// Where the first member with the name `k` stands, counted from `i`.
pub open spec fn find(m: Seq<(Seq<char>, JsonView)>, k: Seq<char>, i: int) -> Option<int>
    decreases m.len() - i,
{
    if i < 0 || i >= m.len() {
        None
    } else if m[i].0 == k {
        Some(i)
    } else {
        find(m, k, i + 1)
    }
}

/// The value of the member `k`, where `v` is an object that has one.
pub open spec fn member(v: JsonView, k: Seq<char>) -> Option<JsonView> {
    match v {
        JsonView::Object(m) => match find(m, k, 0) {
            Some(i) => Some(m[i].1),
            None => None,
        },
        _ => None,
    }
}

/// The text of a string value.
pub open spec fn str_of(v: Option<JsonView>) -> Option<Seq<char>> {
    match v {
        Some(JsonView::Str(s)) => Some(s),
        _ => None,
    }
}

/// The text of the member `k`, where it is a string.
pub open spec fn member_str(v: JsonView, k: Seq<char>) -> Option<Seq<char>> {
    str_of(member(v, k))
}

/// The model of an optional value.
pub open spec fn opt_view(o: Option<Json>) -> Option<JsonView> {
    match o {
        Some(j) => Some(view_of(j)),
        None => None,
    }
}

pub proof fn lemma_find(m: Seq<(Seq<char>, JsonView)>, k: Seq<char>, i: int)
    requires
        0 <= i <= m.len(),
    ensures
        match find(m, k, i) {
            Some(j) => i <= j < m.len() && m[j].0 == k && forall|l: int|
                i <= l < j ==> (#[trigger] m[l]).0 != k,
            None => forall|l: int| i <= l < m.len() ==> (#[trigger] m[l]).0 != k,
        },
    decreases m.len() - i,
{
    if i < m.len() && m[i].0 != k {
        lemma_find(m, k, i + 1);
    }
}

/// Where the first of `m` with the name `k` stands.
pub fn find_member(m: &[(String, Json)], k: &str) -> (r: Option<usize>)
    ensures
        match r {
            Some(i) => i < m@.len() && find(member_views(m@), k@, 0) == Some(i as int),
            None => find(member_views(m@), k@, 0) is None,
        },
{
    let mut i: usize = 0;
    proof {
        lemma_member_views(m@);
    }
    while i < m.len()
        invariant
            i <= m@.len(),
            member_views(m@).len() == m@.len(),
            forall|i: int|
                0 <= i < m@.len() ==> #[trigger] member_views(m@)[i] == (
                    m@[i].0@,
                    view_of(m@[i].1),
                ),
            find(member_views(m@), k@, 0) == find(member_views(m@), k@, i as int),
        decreases m@.len() - i,
    {
        if text::same(m[i].0.as_str(), k) {
            return Some(i);
        }
        i += 1;
    }
    None
}

impl Json {
    /// The value of the member `k`, where this is an object that has one.
    pub fn get(&self, k: &str) -> (r: Option<&Json>)
        ensures
            match r {
                Some(j) => member(self@, k@) == Some(j@),
                None => member(self@, k@) is None,
            },
    {
        match self {
            Json::Object(m) => {
                proof {
                    lemma_member_views(m@);
                }
                match find_member(m, k) {
                    Some(i) => Some(&m[i].1),
                    None => None,
                }
            },
            _ => None,
        }
    }

    /// The text of a string.
    pub fn as_str(&self) -> (r: Option<&str>)
        ensures
            text::opt_str(r) == str_of(Some(self@)),
    {
        match self {
            Json::Str(s) => Some(s.as_str()),
            _ => None,
        }
    }

    /// The text of the member `k`, where it is a string.
    pub fn get_str(&self, k: &str) -> (r: Option<&str>)
        ensures
            text::opt_str(r) == member_str(self@, k@),
    {
        match self.get(k) {
            Some(j) => j.as_str(),
            None => None,
        }
    }

    /// The values of an array.
    pub fn as_array(&self) -> (r: Option<&Vec<Json>>)
        ensures
            match r {
                Some(v) => self@ == JsonView::Array(views(v@)),
                None => !(self@ is Array),
            },
    {
        match self {
            Json::Array(v) => Some(v),
            _ => None,
        }
    }

    /// The members of an object.
    pub fn as_object(&self) -> (r: Option<&Vec<(String, Json)>>)
        ensures
            match r {
                Some(v) => self@ == JsonView::Object(member_views(v@)),
                None => !(self@ is Object),
            },
    {
        match self {
            Json::Object(v) => Some(v),
            _ => None,
        }
    }

    /// Whether this is `null`.
    pub fn is_null(&self) -> (r: bool)
        ensures
            r == (self@ is Null),
    {
        match self {
            Json::Null => true,
            _ => false,
        }
    }
}

/// The element of an array at `i`.
pub open spec fn element(v: JsonView, i: int) -> Option<JsonView> {
    match v {
        JsonView::Array(s) => if 0 <= i < s.len() {
            Some(s[i])
        } else {
            None
        },
        _ => None,
    }
}

/// The member `k` of an optional value.
pub open spec fn member_of(v: Option<JsonView>, k: Seq<char>) -> Option<JsonView> {
    match v {
        Some(j) => member(j, k),
        None => None,
    }
}

/// The element at `i` of an optional value.
pub open spec fn element_of(v: Option<JsonView>, i: int) -> Option<JsonView> {
    match v {
        Some(j) => element(j, i),
        None => None,
    }
}

/// The model of an optional borrowed value.
pub open spec fn opt_ref(o: Option<&Json>) -> Option<JsonView> {
    match o {
        Some(j) => Some(view_of(*j)),
        None => None,
    }
}

/// The member `k` of an optional value.
pub fn get_of<'a>(v: Option<&'a Json>, k: &str) -> (r: Option<&'a Json>)
    ensures
        opt_ref(r) == member_of(opt_ref(v), k@),
{
    match v {
        Some(j) => j.get(k),
        None => None,
    }
}

/// The first element of an optional value.
pub fn first_of<'a>(v: Option<&'a Json>) -> (r: Option<&'a Json>)
    ensures
        opt_ref(r) == element_of(opt_ref(v), 0),
{
    match v {
        Some(Json::Array(s)) => {
            proof {
                lemma_views(s@);
            }
            if s.len() > 0 {
                Some(&s[0])
            } else {
                None
            }
        },
        _ => None,
    }
}

/// The text of an optional value that is a string.
pub fn text_of<'a>(v: Option<&'a Json>) -> (r: Option<&'a str>)
    ensures
        text::opt_str(r) == str_of(opt_ref(v)),
{
    match v {
        Some(j) => j.as_str(),
        None => None,
    }
}

/// A string value.
pub fn string(s: &str) -> (r: Json)
    ensures
        r@ == JsonView::Str(s@),
{
    Json::Str(s.to_owned())
}

/// An object without members.
pub fn empty() -> (r: Json)
    ensures
        r@ == JsonView::Object(Seq::empty()),
{
    Json::Object(Vec::new())
}

/// The object `j` with one more member at its end.
pub fn with(j: Json, k: &str, v: Json) -> (r: Json)
    requires
        j is Object,
    ensures
        r is Object,
        r@ == JsonView::Object(j@->Object_0.push((k@, v@))),
{
    match j {
        Json::Object(mut m) => {
            let ghost was = m@;
            m.push((k.to_owned(), v));
            proof {
                assert(m@.drop_last() =~= was);
            }
            Json::Object(m)
        },
        other => other,
    }
}

/// An object with one member.
pub fn object1(k: &str, v: Json) -> (r: Json)
    ensures
        r@ == JsonView::Object(seq![(k@, v@)]),
{
    let r = with(Json::Object(Vec::new()), k, v);
    proof {
        assert(r@->Object_0 =~= seq![(k@, v@)]);
    }
    r
}

/// An object with two members.
pub fn object2(k1: &str, v1: Json, k2: &str, v2: Json) -> (r: Json)
    ensures
        r@ == JsonView::Object(seq![(k1@, v1@), (k2@, v2@)]),
{
    let r = with(with(Json::Object(Vec::new()), k1, v1), k2, v2);
    proof {
        assert(r@->Object_0 =~= seq![(k1@, v1@), (k2@, v2@)]);
    }
    r
}

/// A copy of a number.
fn copy_number(n: &Numeral) -> (r: Numeral)
    ensures
        r@ == n@,
{
    match n {
        Numeral::Unsigned(x) => Numeral::Unsigned(*x),
        Numeral::Negative(x) => Numeral::Negative(*x),
        Numeral::Other(n) => Numeral::Other(n.clone()),
    }
}

/// A copy of a value.
pub fn copy(j: &Json) -> (r: Json)
    ensures
        r@ == j@,
    decreases *j,
{
    match j {
        Json::Null => Json::Null,
        Json::Bool(b) => Json::Bool(*b),
        Json::Number(n) => Json::Number(copy_number(n)),
        Json::Str(s) => Json::Str(s.clone()),
        Json::Array(v) => {
            let mut out: Vec<Json> = Vec::new();
            let mut i: usize = 0;
            while i < v.len()
                invariant
                    *j == Json::Array(*v),
                    i <= v@.len(),
                    views(out@) == views(v@.take(i as int)),
                decreases v@.len() - i,
            {
                proof {
                    assert(decreases_to!(*j => j->Array_0));
                    assert(decreases_to!(v@ => v@[i as int]));
                }
                let c = copy(&v[i]);
                proof {
                    assert(v@.take(i + 1).drop_last() =~= v@.take(i as int));
                }
                let ghost was = out@;
                out.push(c);
                proof {
                    assert(out@.drop_last() =~= was);
                }
                i += 1;
            }
            proof {
                assert(v@.take(i as int) =~= v@);
            }
            Json::Array(out)
        },
        Json::Object(v) => {
            let mut out: Vec<(String, Json)> = Vec::new();
            let mut i: usize = 0;
            while i < v.len()
                invariant
                    *j == Json::Object(*v),
                    i <= v@.len(),
                    member_views(out@) == member_views(v@.take(i as int)),
                decreases v@.len() - i,
            {
                proof {
                    assert(decreases_to!(*j => j->Object_0));
                    assert(decreases_to!(v@ => v@[i as int]));
                    assert(decreases_to!(v@[i as int] => v@[i as int].1));
                }
                let c = copy(&v[i].1);
                proof {
                    assert(v@.take(i + 1).drop_last() =~= v@.take(i as int));
                }
                let ghost was = out@;
                out.push((v[i].0.clone(), c));
                proof {
                    assert(out@.drop_last() =~= was);
                }
                i += 1;
            }
            proof {
                assert(v@.take(i as int) =~= v@);
            }
            Json::Object(out)
        },
    }
}

/// Where a member with the name `k` goes among those in the order of their names.
pub open spec fn member_place(m: Seq<(Seq<char>, JsonView)>, k: Seq<char>) -> int
    decreases m.len(),
{
    if m.len() > 0 && order::before(k, m.last().0) {
        member_place(m.drop_last(), k)
    } else {
        m.len() as int
    }
}

/// The members with the value of `k` set to `v`: that of the first `k` if there is one, that of
/// a new member in its place among the others if there is none.
pub open spec fn with_member(
    m: Seq<(Seq<char>, JsonView)>,
    k: Seq<char>,
    v: JsonView,
) -> Seq<(Seq<char>, JsonView)> {
    match find(m, k, 0) {
        Some(i) => m.update(i, (k, v)),
        None => m.insert(member_place(m, k), (k, v)),
    }
}

fn place_of_member(m: &[(String, Json)], n: usize, k: &str) -> (r: usize)
    requires
        n <= m@.len(),
    ensures
        r <= n,
        r == member_place(member_views(m@.take(n as int)), k@),
    decreases n,
{
    if n == 0 {
        return 0;
    }
    proof {
        assert(m@.take(n as int).drop_last() =~= m@.take(n - 1));
        assert(member_views(m@.take(n as int)).drop_last() =~= member_views(m@.take(n - 1)));
    }
    if order::comes_before(k, m[n - 1].0.as_str()) {
        place_of_member(m, n - 1, k)
    } else {
        proof {
            lemma_member_views(m@.take(n as int));
        }
        n
    }
}

/// Sets the value of the member `k` to `v`.
pub fn set_member(m: &mut Vec<(String, Json)>, k: String, v: Json)
    ensures
        member_views(final(m)@) == with_member(member_views(old(m)@), k@, v@),
{
    proof {
        lemma_member_views(m@);
    }
    match find_member(m, k.as_str()) {
        Some(i) => {
            let ghost entry = (k, v);
            m.set(i, (k, v));
            proof {
                lemma_member_views(m@);
                assert(member_views(m@) =~= member_views(old(m)@).update(
                    i as int,
                    (entry.0@, view_of(entry.1)),
                ));
            }
        },
        None => {
            let n: usize = m.len();
            let i: usize = place_of_member(m, n, k.as_str());
            let ghost entry = (k, v);
            proof {
                assert(m@.take(n as int) =~= m@);
            }
            m.insert(i, (k, v));
            proof {
                lemma_member_views(m@);
                assert(member_views(m@) =~= member_views(old(m)@).insert(
                    i as int,
                    (entry.0@, view_of(entry.1)),
                ));
            }
        },
    }
}

/// Whether two values are equal: the same but for numbers that are no integers, which are equal
/// where `serde_json` says so.
pub open spec fn equal(a: JsonView, b: JsonView) -> bool
    decreases a,
{
    match (a, b) {
        (JsonView::OtherNumber(x), JsonView::OtherNumber(y)) => equal_numbers(x, y),
        (JsonView::Array(x), JsonView::Array(y)) => x.len() == y.len() && forall|i: int|
            0 <= i < x.len() ==> equal(#[trigger] x[i], y[i]),
        (JsonView::Object(x), JsonView::Object(y)) => x.len() == y.len() && forall|i: int|
            0 <= i < x.len() ==> (#[trigger] x[i]).0 == y[i].0 && equal(x[i].1, y[i].1),
        _ => a == b,
    }
}

fn equal_number(a: &Numeral, b: &Numeral) -> (r: bool)
    ensures
        r == equal(a@, b@),
        a@ == b@ ==> r,
{
    match (a, b) {
        (Numeral::Other(x), Numeral::Other(y)) => numbers_are_equal(x, y),
        (Numeral::Unsigned(x), Numeral::Unsigned(y)) => *x == *y,
        (Numeral::Negative(x), Numeral::Negative(y)) => *x == *y,
        (Numeral::Unsigned(x), Numeral::Negative(y)) => *x as i128 == *y as i128,
        (Numeral::Negative(x), Numeral::Unsigned(y)) => *x as i128 == *y as i128,
        _ => false,
    }
}

/// Whether two values are equal; a value is equal to itself.
pub fn is_equal(a: &Json, b: &Json) -> (r: bool)
    ensures
        r == equal(a@, b@),
        a@ == b@ ==> r,
    decreases *a,
{
    match (a, b) {
        (Json::Null, Json::Null) => true,
        (Json::Bool(x), Json::Bool(y)) => *x == *y,
        (Json::Number(x), Json::Number(y)) => equal_number(x, y),
        (Json::Str(x), Json::Str(y)) => text::same(x.as_str(), y.as_str()),
        (Json::Array(x), Json::Array(y)) => {
            proof {
                lemma_views(x@);
                lemma_views(y@);
            }
            if x.len() != y.len() {
                return false;
            }
            let mut i: usize = 0;
            while i < x.len()
                invariant
                    *a == Json::Array(*x),
                    x@.len() == y@.len(),
                    i <= x@.len(),
                    views(x@).len() == x@.len(),
                    views(y@).len() == y@.len(),
                    a@ == JsonView::Array(views(x@)),
                    b@ == JsonView::Array(views(y@)),
                    forall|k: int| 0 <= k < x@.len() ==> #[trigger] views(x@)[k] == view_of(x@[k]),
                    forall|k: int| 0 <= k < y@.len() ==> #[trigger] views(y@)[k] == view_of(y@[k]),
                    forall|k: int|
                        0 <= k < i ==> equal(#[trigger] views(x@)[k], views(y@)[k]),
                decreases x@.len() - i,
            {
                proof {
                    assert(decreases_to!(*a => a->Array_0));
                    assert(decreases_to!(x@ => x@[i as int]));
                    assert(views(x@)[i as int] == view_of(x@[i as int]));
                    assert(views(y@)[i as int] == view_of(y@[i as int]));
                }
                if !is_equal(&x[i], &y[i]) {
                    return false;
                }
                i += 1;
            }
            true
        },
        (Json::Object(x), Json::Object(y)) => {
            proof {
                lemma_member_views(x@);
                lemma_member_views(y@);
            }
            if x.len() != y.len() {
                return false;
            }
            let ghost mx = member_views(x@);
            let ghost my = member_views(y@);
            let mut i: usize = 0;
            while i < x.len()
                invariant
                    *a == Json::Object(*x),
                    x@.len() == y@.len(),
                    i <= x@.len(),
                    mx.len() == x@.len(),
                    my.len() == y@.len(),
                    a@ == JsonView::Object(mx),
                    b@ == JsonView::Object(my),
                    forall|k: int|
                        0 <= k < x@.len() ==> #[trigger] mx[k] == (x@[k].0@, view_of(x@[k].1)),
                    forall|k: int|
                        0 <= k < y@.len() ==> #[trigger] my[k] == (y@[k].0@, view_of(y@[k].1)),
                    forall|k: int|
                        0 <= k < i ==> (#[trigger] mx[k]).0 == my[k].0 && equal(mx[k].1, my[k].1),
                decreases x@.len() - i,
            {
                proof {
                    assert(decreases_to!(*a => a->Object_0));
                    assert(decreases_to!(x@ => x@[i as int]));
                    assert(decreases_to!(x@[i as int] => x@[i as int].1));
                    assert(mx[i as int].0 == x@[i as int].0@);
                    assert(my[i as int].0 == y@[i as int].0@);
                }
                if !text::same(x[i].0.as_str(), y[i].0.as_str()) || !is_equal(&x[i].1, &y[i].1) {
                    return false;
                }
                i += 1;
            }
            true
        },
        _ => {
            proof {
                lemma_kinds(*a);
                lemma_kinds(*b);
            }
            false
        },
    }
}

pub proof fn lemma_kinds(j: Json)
    ensures
        j is Null <==> j@ is Null,
        j is Bool <==> j@ is Bool,
        j is Number <==> (j@ is Int || j@ is OtherNumber),
        j is Str <==> j@ is Str,
        j is Array <==> j@ is Array,
        j is Object <==> j@ is Object,
{
}

pub proof fn lemma_member_place(m: Seq<(Seq<char>, JsonView)>, k: Seq<char>)
    ensures
        0 <= member_place(m, k) <= m.len(),
    decreases m.len(),
{
    if m.len() > 0 && order::before(k, m.last().0) {
        lemma_member_place(m.drop_last(), k);
    }
}

proof fn lemma_find_from(m: Seq<(Seq<char>, JsonView)>, k: Seq<char>, i: int, at: int)
    requires
        0 <= i <= at < m.len(),
        m[at].0 == k,
        forall|j: int| i <= j < at ==> (#[trigger] m[j]).0 != k,
    ensures
        find(m, k, i) == Some(at),
    decreases at - i,
{
    if i < at {
        assert(m[i].0 != k);
        lemma_find_from(m, k, i + 1, at);
    }
}

proof fn lemma_find_none(m: Seq<(Seq<char>, JsonView)>, k: Seq<char>, i: int)
    requires
        0 <= i <= m.len(),
        forall|j: int| i <= j < m.len() ==> (#[trigger] m[j]).0 != k,
    ensures
        find(m, k, i) is None,
    decreases m.len() - i,
{
    if i < m.len() {
        assert(m[i].0 != k);
        lemma_find_none(m, k, i + 1);
    }
}

/// A member that was set is read back, stands where it stood before if it did, and all others are read
/// as before.
pub proof fn lemma_with_member(m: Seq<(Seq<char>, JsonView)>, k: Seq<char>, v: JsonView)
    ensures
        find(with_member(m, k, v), k, 0) is Some,
        0 <= find(with_member(m, k, v), k, 0)->0 < with_member(m, k, v).len(),
        with_member(m, k, v)[find(with_member(m, k, v), k, 0)->0] == (k, v),
        find(m, k, 0) is Some ==> find(with_member(m, k, v), k, 0) == find(m, k, 0),
        forall|l: Seq<char>|
            l != k ==> #[trigger] member(JsonView::Object(with_member(m, k, v)), l) == member(
                JsonView::Object(m),
                l,
            ),
{
    let w = with_member(m, k, v);
    lemma_find(m, k, 0);
    lemma_member_place(m, k);
    let (at, shift): (int, int) = match find(m, k, 0) {
        Some(i) => (i, 0),
        None => (member_place(m, k), 1),
    };
    assert(w[at] == (k, v));
    assert forall|j: int| 0 <= j < at implies (#[trigger] w[j]).0 != k by {
        assert(w[j] == m[j]);
    }
    lemma_find_from(w, k, 0, at);
    assert forall|l: Seq<char>| l != k implies #[trigger] member(JsonView::Object(w), l) == member(
        JsonView::Object(m),
        l,
    ) by {
        lemma_find(m, l, 0);
        match find(m, l, 0) {
            Some(i) => {
                let i2 = if shift == 1 && i >= at {
                    i + 1
                } else {
                    i
                };
                assert(w[i2] == m[i]);
                assert forall|j: int| 0 <= j < i2 implies (#[trigger] w[j]).0 != l by {
                    if j == at {
                    } else if shift == 1 && j > at {
                        assert(w[j] == m[j - 1]);
                    } else {
                        assert(w[j] == m[j]);
                    }
                }
                lemma_find_from(w, l, 0, i2);
            },
            None => {
                assert forall|j: int| 0 <= j < w.len() implies (#[trigger] w[j]).0 != l by {
                    if j == at {
                    } else if shift == 1 && j > at {
                        assert(w[j] == m[j - 1]);
                    } else {
                        assert(w[j] == m[j]);
                    }
                }
                lemma_find_none(w, l, 0);
            },
        }
    }
}

/// Whether the first member of the object `v` with the name `k` has the value `x`.
pub open spec fn stands(v: JsonView, k: Seq<char>, x: JsonView) -> bool {
    v is Object && exists|i: int|
        {
            &&& 0 <= i < v->Object_0.len()
            &&& #[trigger] v->Object_0[i] == (k, x)
            &&& forall|j: int| 0 <= j < i ==> (#[trigger] v->Object_0[j]).0 != k
        }
}

/// Whether no member of `v` has the name `k`.
pub open spec fn lacks(v: JsonView, k: Seq<char>) -> bool {
    v is Object ==> forall|i: int| 0 <= i < v->Object_0.len() ==> (#[trigger] v->Object_0[i]).0 != k
}

/// A member is read as the value that stands under its name first, and not at all where there is none.
pub proof fn lemma_member_read(v: JsonView, k: Seq<char>)
    ensures
        forall|x: JsonView| #[trigger] stands(v, k, x) <==> member(v, k) == Some(x),
        lacks(v, k) <==> member(v, k) is None,
        forall|s: Seq<char>|
            #[trigger] stands(v, k, JsonView::Str(s)) <==> member_str(v, k) == Some(s),
{
    match v {
        JsonView::Object(m) => {
            lemma_find(m, k, 0);
            match find(m, k, 0) {
                Some(i) => {
                    assert(m[i] == (k, m[i].1));
                    assert(stands(v, k, m[i].1));
                    assert forall|x: JsonView| #[trigger] stands(v, k, x) implies x == m[i].1 by {
                        let j = choose|j: int|
                            {
                                &&& 0 <= j < m.len()
                                &&& #[trigger] m[j] == (k, x)
                                &&& forall|l: int| 0 <= l < j ==> (#[trigger] m[l]).0 != k
                            };
                        if j < i {
                            assert(m[j].0 != k);
                        }
                        if i < j {
                            assert(m[i].0 != k);
                        }
                    }
                },
                None => {
                    assert forall|x: JsonView| #[trigger] stands(v, k, x) implies false by {
                        let j = choose|j: int|
                            {
                                &&& 0 <= j < m.len()
                                &&& #[trigger] m[j] == (k, x)
                                &&& forall|l: int| 0 <= l < j ==> (#[trigger] m[l]).0 != k
                            };
                        assert(m[j].0 != k);
                    }
                },
            }
        },
        _ => {},
    }
}

} // verus!
