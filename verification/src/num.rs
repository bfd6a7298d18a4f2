//! Numbers as text: decimal digits read and written, and hexadecimal bytes.

use crate::text;
use vstd::prelude::*;

verus! {

/// The digits `0` to `9`.
pub open spec fn digit(c: char) -> bool {
    '0' <= c <= '9'
}

/// The value of a digit.
pub open spec fn digit_value(c: char) -> nat {
    (c as u32 - '0' as u32) as nat
}

/// The digit with the value `n`.
pub open spec fn digit_char(n: nat) -> char {
    (n + '0' as u32) as char
}

/// Whether `s` is made of digits alone.
pub open spec fn all_digits(s: Seq<char>) -> bool {
    forall|i: int| 0 <= i < s.len() ==> digit(#[trigger] s[i])
}

/// The value of a run of digits.
pub open spec fn value(s: Seq<char>) -> nat
    decreases s.len(),
{
    if s.len() == 0 {
        0
    } else {
        10 * value(s.drop_last()) + digit_value(s.last())
    }
}

/// `n` in decimal, without leading zeros.
pub open spec fn decimal(n: nat) -> Seq<char>
    decreases n,
{
    if n < 10 {
        seq![digit_char(n)]
    } else {
        decimal(n / 10).push(digit_char(n % 10))
    }
}

/// `n` in decimal, with a sign if it is negative.
pub open spec fn decimal_int(n: int) -> Seq<char> {
    if n < 0 {
        seq!['-'] + decimal((-n) as nat)
    } else {
        decimal(n as nat)
    }
}

/// A run of `n` zeros.
pub open spec fn zeros(n: int) -> Seq<char> {
    Seq::new(
        if n < 0 {
            0
        } else {
            n as nat
        },
        |i: int| '0',
    )
}

/// `n` in decimal, with leading zeros up to `w` characters.
pub open spec fn padded(n: nat, w: nat) -> Seq<char> {
    zeros(w - decimal(n).len()) + decimal(n)
}

/// The last `w` digits of `n`.
pub open spec fn last_digits(n: nat, w: nat) -> Seq<char>
    decreases w,
{
    if w == 0 {
        Seq::empty()
    } else {
        last_digits(n / 10, (w - 1) as nat).push(digit_char(n % 10))
    }
}

/// The number of values that `w` digits can write.
pub open spec fn ten_to(w: nat) -> nat
    decreases w,
{
    if w == 0 {
        1
    } else {
        10 * ten_to((w - 1) as nat)
    }
}

pub proof fn lemma_decimal(n: nat)
    ensures
        all_digits(decimal(n)),
        value(decimal(n)) == n,
        decimal(n).len() >= 1,
    decreases n,
{
    if n < 10 {
        let s = decimal(n);
        assert(s.drop_last() =~= Seq::<char>::empty());
        assert(value(s.drop_last()) == 0);
    } else {
        lemma_decimal(n / 10);
        let s = decimal(n);
        assert(s.drop_last() =~= decimal(n / 10));
    }
}

/// Digits written by [`decimal`] fill `w` places exactly where the number needs them.
pub proof fn lemma_padded(n: nat, w: nat)
    requires
        n < ten_to(w),
        w >= 1,
    ensures
        padded(n, w) == last_digits(n, w),
        padded(n, w).len() == w,
    decreases w,
{
    if w == 1 {
        assert(ten_to(1) == 10) by {
            reveal_with_fuel(ten_to, 2);
        }
        assert(last_digits(n, 1) =~= seq![digit_char(n)]) by {
            reveal_with_fuel(last_digits, 2);
        }
        assert(padded(n, 1) =~= seq![digit_char(n)]);
    } else {
        let w1 = (w - 1) as nat;
        assert(n / 10 < ten_to(w1));
        lemma_padded(n / 10, w1);
        if n < 10 {
            assert(decimal(n / 10) =~= seq![digit_char(0)]);
            assert(digit_char(0) == '0');
            assert(n % 10 == n);
            assert(padded(n, w) =~= padded(n / 10, w1).push(digit_char(n % 10)));
        } else {
            assert(padded(n, w) =~= padded(n / 10, w1).push(digit_char(n % 10)));
        }
    }
}

/// A run of digits is what its value writes in as many places.
pub proof fn lemma_value_written_back(s: Seq<char>)
    requires
        all_digits(s),
    ensures
        last_digits(value(s), s.len()) == s,
        value(s) < ten_to(s.len()),
    decreases s.len(),
{
    if s.len() > 0 {
        let t = s.drop_last();
        assert(all_digits(t));
        lemma_value_written_back(t);
        let d = digit_value(s.last());
        assert(digit(s[s.len() - 1]));
        assert(d < 10);
        assert(value(s) == 10 * value(t) + d);
        assert(value(s) / 10 == value(t));
        assert(value(s) % 10 == d);
        assert(digit_char(d) == s.last());
        assert(last_digits(value(s), s.len()) =~= s);
    } else {
        assert(last_digits(value(s), s.len()) =~= s);
    }
}

/// What [`last_digits`] writes reads back as the number.
pub proof fn lemma_last_digits_value(n: nat, w: nat)
    requires
        n < ten_to(w),
    ensures
        all_digits(last_digits(n, w)),
        last_digits(n, w).len() == w,
        value(last_digits(n, w)) == n,
    decreases w,
{
    if w > 0 {
        let w1 = (w - 1) as nat;
        lemma_last_digits_value(n / 10, w1);
        let s = last_digits(n, w);
        assert(s.drop_last() =~= last_digits(n / 10, w1));
        assert(s.last() == digit_char(n % 10));
    }
}

pub proof fn lemma_value_extends(s: Seq<char>, i: int)
    requires
        0 <= i <= s.len(),
    ensures
        value(s.take(i)) <= value(s),
    decreases s.len() - i,
{
    if i < s.len() {
        lemma_value_extends(s.drop_last(), i);
        assert(s.drop_last().take(i) =~= s.take(i));
    } else {
        assert(s.take(i) =~= s);
    }
}

/// A text without the plus sign at its front.
pub open spec fn without_plus(s: Seq<char>) -> Seq<char> {
    if s.len() > 0 && s[0] == '+' {
        s.skip(1)
    } else {
        s
    }
}

/// The number that `s` writes, up to `max`: digits, at least one, after an optional plus sign.
pub open spec fn unsigned(s: Seq<char>, max: nat) -> Option<nat> {
    let d = without_plus(s);
    if d.len() > 0 && all_digits(d) && value(d) <= max {
        Some(value(d))
    } else {
        None
    }
}

/// The number that `s` writes, of those that an `i64` holds: digits after an optional sign.
pub open spec fn signed(s: Seq<char>) -> Option<int> {
    if s.len() > 0 && s[0] == '-' {
        let d = s.skip(1);
        if d.len() > 0 && all_digits(d) && value(d) <= 0x8000_0000_0000_0000 {
            Some(-(value(d) as int))
        } else {
            None
        }
    } else {
        match unsigned(s, 0x7fff_ffff_ffff_ffff) {
            Some(n) => Some(n as int),
            None => None,
        }
    }
}

/// The value of the digits `v[from..]`, if there is one, all are digits and it is at most `max`.
fn parse_digits(v: &[char], from: usize, max: u64) -> (r: Option<u64>)
    requires
        from <= v@.len(),
    ensures
        match r {
            Some(n) => from < v@.len() && all_digits(v@.skip(from as int)) && n == value(
                v@.skip(from as int),
            ) && n <= max,
            None => !(from < v@.len() && all_digits(v@.skip(from as int)) && value(
                v@.skip(from as int),
            ) <= max),
        },
{
    let ghost d = v@.skip(from as int);
    if from == v.len() {
        return None;
    }
    let mut n: u64 = 0;
    let mut i: usize = from;
    proof {
        assert(d.take(0) =~= Seq::<char>::empty());
    }
    while i < v.len()
        invariant
            from <= i <= v@.len(),
            d == v@.skip(from as int),
            all_digits(d.take(i - from)),
            n == value(d.take(i - from)),
            n <= max,
        decreases v@.len() - i,
    {
        let c: char = v[i];
        if !('0' <= c && c <= '9') {
            proof {
                assert(d[i - from] == c);
            }
            return None;
        }
        let x: u64 = (c as u8 - 48u8) as u64;
        proof {
            let t = d.take(i - from + 1);
            assert(t.drop_last() =~= d.take(i - from));
            assert(t.last() == c);
            lemma_value_extends(d, i - from + 1);
            assert(value(t) == 10 * n + x);
            assert forall|j: int| 0 <= j < t.len() implies digit(#[trigger] t[j]) by {
                if j < i - from {
                    assert(d.take(i - from)[j] == t[j]);
                }
            }
        }
        if n > (u64::MAX - x) / 10 {
            return None;
        }
        n = 10 * n + x;
        if n > max {
            return None;
        }
        i += 1;
    }
    proof {
        assert(d.take(i - from) =~= d);
    }
    Some(n)
}

/// The number that `v` writes, up to `max`.
pub fn parse_unsigned_chars(v: &[char], max: u64) -> (r: Option<u64>)
    ensures
        match r {
            Some(n) => unsigned(v@, max as nat) == Some(n as nat),
            None => unsigned(v@, max as nat) is None,
        },
{
    proof {
        assert(v@.skip(0) =~= v@);
    }
    if v.len() > 0 && v[0] == '+' {
        parse_digits(v, 1, max)
    } else {
        parse_digits(v, 0, max)
    }
}

/// The number that `s` writes, up to `max`.
pub fn parse_unsigned(s: &str, max: u64) -> (r: Option<u64>)
    ensures
        match r {
            Some(n) => unsigned(s@, max as nat) == Some(n as nat),
            None => unsigned(s@, max as nat) is None,
        },
{
    let v = text::chars_of(s);
    parse_unsigned_chars(&v, max)
}

/// The `i64` that `v` writes.
pub fn parse_signed_chars(v: &[char]) -> (r: Option<i64>)
    ensures
        match r {
            Some(n) => signed(v@) == Some(n as int),
            None => signed(v@) is None,
        },
{
    if v.len() > 0 && v[0] == '-' {
        match parse_digits(v, 1, 0x8000_0000_0000_0000) {
            Some(n) => if n == 0x8000_0000_0000_0000 {
                Some(i64::MIN)
            } else {
                Some(-(n as i64))
            },
            None => None,
        }
    } else {
        match parse_unsigned_chars(v, 0x7fff_ffff_ffff_ffff) {
            Some(n) => Some(n as i64),
            None => None,
        }
    }
}

/// The digit with the value `n`.
pub fn digit_of(n: u64) -> (c: char)
    requires
        n < 10,
    ensures
        c == digit_char(n as nat),
{
    (48u8 + n as u8) as char
}

/// `n` in decimal.
pub fn to_decimal(n: u64) -> (out: String)
    ensures
        out@ == decimal(n as nat),
    decreases n,
{
    if n < 10 {
        let mut out = String::new();
        out.push(digit_of(n));
        assert(out@ =~= seq![digit_char(n as nat)]);
        out
    } else {
        let mut out = to_decimal(n / 10);
        out.push(digit_of(n % 10));
        out
    }
}

/// `n` in decimal, with a sign if it is negative.
pub fn to_decimal_int(n: i64) -> (out: String)
    ensures
        out@ == decimal_int(n as int),
{
    if n < 0 {
        let m: u64 = if n == i64::MIN {
            0x8000_0000_0000_0000
        } else {
            (-n) as u64
        };
        let digits = to_decimal(m);
        let mut out = String::new();
        out.push('-');
        assert(out@ =~= seq!['-']);
        text::push_str(&mut out, digits.as_str());
        out
    } else {
        to_decimal(n as u64)
    }
}

/// `n` in decimal, with leading zeros up to `w` characters.
pub fn to_padded(n: u64, w: usize) -> (out: String)
    ensures
        out@ == padded(n as nat, w as nat),
{
    let digits = to_decimal(n);
    let len: usize = text::chars_of(digits.as_str()).len();
    let mut out = String::new();
    let mut i: usize = len;
    proof {
        assert(zeros(len - len) =~= out@);
    }
    while i < w
        invariant
            len <= i,
            i <= w || i == len,
            out@ == zeros(i - len),
        decreases w - i,
    {
        out.push('0');
        proof {
            assert(zeros(i + 1 - len) =~= zeros(i - len).push('0'));
        }
        i += 1;
    }
    proof {
        assert(zeros(w - len) =~= out@);
    }
    text::push_str(&mut out, digits.as_str());
    out
}

/// The hexadecimal digit with the value `n`, in lower case.
pub open spec fn hex_digit(n: int) -> char {
    if n < 10 {
        (n + '0' as u32) as char
    } else {
        (n - 10 + 'a' as u32) as char
    }
}

/// The bytes in hexadecimal, two digits each.
pub open spec fn hex(b: Seq<u8>) -> Seq<char>
    decreases b.len(),
{
    if b.len() == 0 {
        Seq::empty()
    } else {
        hex(b.drop_last()).push(hex_digit(b.last() as int / 16)).push(
            hex_digit(b.last() as int % 16),
        )
    }
}

/// The hexadecimal digit with the value `n`, in lower case.
pub fn hex_digit_of(n: u8) -> (c: char)
    requires
        n < 16,
    ensures
        c == hex_digit(n as int),
{
    if n < 10 {
        (48u8 + n) as char
    } else {
        (97u8 + (n - 10)) as char
    }
}

/// The bytes in hexadecimal, two digits each.
pub fn to_hex(b: &[u8]) -> (out: String)
    ensures
        out@ == hex(b@),
{
    let mut out = String::new();
    let mut i: usize = 0;
    while i < b.len()
        invariant
            i <= b@.len(),
            out@ == hex(b@.take(i as int)),
        decreases b@.len() - i,
    {
        proof {
            assert(b@.take(i + 1).drop_last() =~= b@.take(i as int));
        }
        out.push(hex_digit_of(b[i] / 16));
        out.push(hex_digit_of(b[i] % 16));
        i += 1;
    }
    proof {
        assert(b@.take(i as int) =~= b@);
    }
    out
}

pub proof fn lemma_hex_len(b: Seq<u8>)
    ensures
        hex(b).len() == 2 * b.len(),
    decreases b.len(),
{
    if b.len() > 0 {
        lemma_hex_len(b.drop_last());
    }
}

/// A number with its sign reads back as itself.
pub proof fn lemma_signed_reads_back(n: i64)
    ensures
        signed(decimal_int(n as int)) == Some(n as int),
{
    let m = if n < 0 {
        (-n) as nat
    } else {
        n as nat
    };
    let d = decimal(m);
    lemma_decimal(m);
    assert(digit(d[0]));
    assert(without_plus(d) == d);
    if n < 0 {
        assert((seq!['-'] + d).skip(1) =~= d);
    }
}

/// Different bytes are written differently.
pub proof fn lemma_hex_tells_apart(a: Seq<u8>, b: Seq<u8>)
    requires
        hex(a) == hex(b),
    ensures
        a == b,
    decreases a.len(),
{
    lemma_hex_len(a);
    lemma_hex_len(b);
    if a.len() > 0 {
        let x = a.last() as int;
        let y = b.last() as int;
        let n = hex(a).len() as int;
        assert(hex(a)[n - 1] == hex_digit(x % 16) && hex(a)[n - 2] == hex_digit(x / 16));
        assert(hex(b)[n - 1] == hex_digit(y % 16) && hex(b)[n - 2] == hex_digit(y / 16));
        lemma_hex_digit(x % 16, y % 16);
        lemma_hex_digit(x / 16, y / 16);
        assert(hex(a).take(n - 2) =~= hex(a.drop_last()));
        assert(hex(b).take(n - 2) =~= hex(b.drop_last()));
        lemma_hex_tells_apart(a.drop_last(), b.drop_last());
        assert(a =~= a.drop_last().push(a.last()));
        assert(b =~= b.drop_last().push(b.last()));
    } else {
        assert(a =~= b);
    }
}

proof fn lemma_hex_digit(x: int, y: int)
    requires
        0 <= x < 16,
        0 <= y < 16,
        hex_digit(x) == hex_digit(y),
    ensures
        x == y,
{
}

} // verus!
