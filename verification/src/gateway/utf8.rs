//! Decoding a byte stream that arrives in arbitrary chunks.

use vstd::prelude::*;
use vstd::utf8::{
    decode_first_scalar, decode_utf8, encode_utf8, is_continuation_byte, length_of_first_scalar,
    valid_first_scalar, valid_utf8,
};

verus! {

/// `char::from_u32` of std: the character with the code point `n`, where `n` is one that a
/// character can have.
pub assume_specification[ char::from_u32 ](n: u32) -> (r: Option<char>)
    ensures
        match r {
            Some(c) => c as u32 == n,
            None => n > 0x10FFFF || 0xD800 <= n <= 0xDFFF,
        },
;

/// The character that stands for bytes that are no character.
pub const REPLACEMENT: char = '\u{FFFD}';

/// How many bytes a character that begins with `b` has; 0 where none begins so.
pub open spec fn width(b: u8) -> int {
    if b <= 0x7F {
        1
    } else if 0xC2 <= b <= 0xDF {
        2
    } else if 0xE0 <= b <= 0xEF {
        3
    } else if 0xF0 <= b <= 0xF4 {
        4
    } else {
        0
    }
}

/// Whether `b` may follow `lead` as the second byte of a character.
pub open spec fn second_fits(lead: u8, b: u8) -> bool {
    if lead == 0xE0 {
        0xA0 <= b <= 0xBF
    } else if lead == 0xED {
        0x80 <= b <= 0x9F
    } else if lead == 0xF0 {
        0x90 <= b <= 0xBF
    } else if lead == 0xF4 {
        0x80 <= b <= 0x8F
    } else {
        0x80 <= b <= 0xBF
    }
}

/// The length of the longest front of `s` that a character can begin with.
pub open spec fn fitting(s: Seq<u8>) -> int {
    let w = width(s[0]);
    if s.len() == 0 || w == 0 {
        0
    } else if w == 1 || s.len() < 2 || !second_fits(s[0], s[1]) {
        1
    } else if w == 2 || s.len() < 3 || !is_continuation_byte(s[2]) {
        2
    } else if w == 3 || s.len() < 4 || !is_continuation_byte(s[3]) {
        3
    } else {
        4
    }
}

/// What a stream of bytes decodes to, and the unfinished character that it ends with. Bytes that
/// no character can begin with become [`REPLACEMENT`], one for each longest such run.
pub open spec fn decoded(s: Seq<u8>) -> (Seq<char>, Seq<u8>)
    decreases s.len(),
{
    if s.len() == 0 {
        (Seq::empty(), Seq::empty())
    } else {
        let k = fitting(s);
        if k == width(s[0]) && k > 0 {
            let r = decoded(s.skip(k));
            (seq![decode_first_scalar(s) as char] + r.0, r.1)
        } else if k == s.len() {
            (Seq::empty(), s)
        } else {
            let r = decoded(
                s.skip(
                    if k == 0 {
                        1
                    } else {
                        k
                    },
                ),
            );
            (seq![REPLACEMENT] + r.0, r.1)
        }
    }
}

proof fn lemma_width_2(b0: u8, b1: u8)
    by (bit_vector)
    requires
        0xC0 <= b0 <= 0xDF,
        0x80 <= b1 <= 0xBF,
    ensures
        (0x80 <= ((((b0 & 0x1F) as u32) << 6) | ((b1 & 0x3F) as u32))) == (0xC2 <= b0),
        ((((b0 & 0x1F) as u32) << 6) | ((b1 & 0x3F) as u32)) < 0x800,
{
}

proof fn lemma_width_3(b0: u8, b1: u8, b2: u8)
    by (bit_vector)
    requires
        0xE0 <= b0 <= 0xEF,
        0x80 <= b1 <= 0xBF,
        0x80 <= b2 <= 0xBF,
    ensures
        (0x800 <= ((((b0 & 0x0F) as u32) << 12) | (((b1 & 0x3F) as u32) << 6) | ((b2
            & 0x3F) as u32))) == (b0 != 0xE0 || 0xA0 <= b1),
        (0xD800 <= ((((b0 & 0x0F) as u32) << 12) | (((b1 & 0x3F) as u32) << 6) | ((b2
            & 0x3F) as u32)) <= 0xDFFF) == (b0 == 0xED && 0xA0 <= b1),
        ((((b0 & 0x0F) as u32) << 12) | (((b1 & 0x3F) as u32) << 6) | ((b2 & 0x3F) as u32))
            < 0x10000,
{
}

proof fn lemma_width_4(b0: u8, b1: u8, b2: u8, b3: u8)
    by (bit_vector)
    requires
        0xF0 <= b0 <= 0xF7,
        0x80 <= b1 <= 0xBF,
        0x80 <= b2 <= 0xBF,
        0x80 <= b3 <= 0xBF,
    ensures
        (0x10000 <= ((((b0 & 0x07) as u32) << 18) | (((b1 & 0x3F) as u32) << 12) | (((b2
            & 0x3F) as u32) << 6) | ((b3 & 0x3F) as u32))) == (b0 != 0xF0 || 0x90 <= b1),
        (((((b0 & 0x07) as u32) << 18) | (((b1 & 0x3F) as u32) << 12) | (((b2 & 0x3F) as u32) << 6)
            | ((b3 & 0x3F) as u32)) <= 0x10FFFF) == (b0 < 0xF4 || (b0 == 0xF4 && b1 <= 0x8F)),
{
}

/// A front as long as its first byte asks for is one character, and there is no other way to
/// begin with one.
pub proof fn lemma_fitting(s: Seq<u8>)
    requires
        s.len() > 0,
    ensures
        valid_first_scalar(s) <==> (fitting(s) == width(s[0]) && fitting(s) > 0),
        valid_first_scalar(s) ==> length_of_first_scalar(s) == fitting(s),
        0 <= fitting(s) <= s.len(),
        fitting(s) <= 4,
{
    if 0xC0 <= s[0] <= 0xDF && s.len() >= 2 && is_continuation_byte(s[1]) {
        lemma_width_2(s[0], s[1]);
    }
    if 0xE0 <= s[0] <= 0xEF && s.len() >= 3 && is_continuation_byte(s[1]) && is_continuation_byte(
        s[2],
    ) {
        lemma_width_3(s[0], s[1], s[2]);
    }
    if 0xF0 <= s[0] <= 0xF7 && s.len() >= 4 && is_continuation_byte(s[1]) && is_continuation_byte(
        s[2],
    ) && is_continuation_byte(s[3]) {
        lemma_width_4(s[0], s[1], s[2], s[3]);
    }
    if s[0] <= 0x7F {
        let b = s[0];
        assert((b & 0x7F) as u32 <= 0x7F) by (bit_vector);
    }
}

/// An unfinished character is at most three bytes long, and nothing is decoded of it yet.
pub proof fn lemma_carry(s: Seq<u8>)
    ensures
        decoded(s).1.len() <= 3,
        decoded(decoded(s).1) == (Seq::<char>::empty(), decoded(s).1),
    decreases s.len(),
{
    if s.len() > 0 {
        lemma_fitting(s);
        let k = fitting(s);
        if k == width(s[0]) && k > 0 {
            lemma_carry(s.skip(k));
        } else if k == s.len() {
        } else {
            lemma_carry(
                s.skip(
                    if k == 0 {
                        1
                    } else {
                        k
                    },
                ),
            );
        }
    }
}

/// Where a stream is cut makes no difference: decoding `a`, and then what it left unfinished
/// together with `b`, gives what decoding both at once gives.
pub proof fn lemma_decoded_in_chunks(a: Seq<u8>, b: Seq<u8>)
    ensures
        decoded(a + b).0 == decoded(a).0 + decoded(decoded(a).1 + b).0,
        decoded(a + b).1 == decoded(decoded(a).1 + b).1,
    decreases a.len(),
{
    if a.len() == 0 {
        assert(a + b =~= b);
        assert(decoded(a).1 + b =~= b);
        assert(decoded(a).0 + decoded(b).0 =~= decoded(b).0);
    } else {
        let k = fitting(a);
        let ab = a + b;
        lemma_fitting(a);
        lemma_fitting(ab);
        assert(forall|i: int| 0 <= i < a.len() ==> ab[i] == a[i]);
        if k == width(a[0]) && k > 0 {
            assert(fitting(ab) == k);
            lemma_decoded_in_chunks(a.skip(k), b);
            assert(ab.skip(k) =~= a.skip(k) + b);
            assert(decode_first_scalar(ab) == decode_first_scalar(a));
            assert(decoded(ab).0 =~= decoded(a).0 + decoded(decoded(a).1 + b).0);
        } else if k == a.len() {
            assert(decoded(a).0 + decoded(ab).0 =~= decoded(ab).0);
        } else {
            assert(fitting(ab) == k);
            let n: int = if k == 0 {
                1
            } else {
                k
            };
            lemma_decoded_in_chunks(a.skip(n), b);
            assert(ab.skip(n) =~= a.skip(n) + b);
            assert(decoded(ab).0 =~= decoded(a).0 + decoded(decoded(a).1 + b).0);
        }
    }
}

/// Bytes that are valid UTF-8 decode to the text they encode and leave nothing unfinished.
pub proof fn lemma_decoded_of_valid(s: Seq<u8>)
    requires
        valid_utf8(s),
    ensures
        decoded(s) == (decode_utf8(s), Seq::<u8>::empty()),
    decreases s.len(),
{
    if s.len() > 0 {
        lemma_fitting(s);
        let k = fitting(s);
        assert(s.skip(k) =~= vstd::utf8::pop_first_scalar(s));
        lemma_decoded_of_valid(s.skip(k));
        assert(decoded(s).0 =~= decode_utf8(s));
    } else {
        assert(decoded(s).0 =~= decode_utf8(s));
    }
}

/// Text survives being encoded and cut into two chunks anywhere, also inside a character.
pub proof fn lemma_text_survives_a_cut(t: Seq<char>, cut: int)
    requires
        0 <= cut <= encode_utf8(t).len(),
    ensures
        ({
            let first = decoded(encode_utf8(t).take(cut));
            let second = decoded(first.1 + encode_utf8(t).skip(cut));
            first.0 + second.0 == t && second.1.len() == 0
        }),
{
    let s = encode_utf8(t);
    vstd::utf8::encode_utf8_valid_utf8(t);
    vstd::utf8::encode_utf8_decode_utf8(t);
    lemma_decoded_of_valid(s);
    lemma_decoded_in_chunks(s.take(cut), s.skip(cut));
    assert(s.take(cut) + s.skip(cut) =~= s);
}

/// The length of the longest front of `s[at..]` that a character can begin with, and how many
/// bytes such a character has.
fn fitting_at(s: &[u8], at: usize) -> (r: (usize, usize))
    requires
        at < s@.len(),
    ensures
        r.0 == fitting(s@.skip(at as int)),
        r.1 == width(s@[at as int]),
{
    let ghost t = s@.skip(at as int);
    let n: usize = s.len() - at;
    let b: u8 = s[at];
    let w: usize = if b <= 0x7F {
        1
    } else if 0xC2 <= b && b <= 0xDF {
        2
    } else if 0xE0 <= b && b <= 0xEF {
        3
    } else if 0xF0 <= b && b <= 0xF4 {
        4
    } else {
        0
    };
    if w <= 1 || n < 2 {
        return (if w == 0 { 0 } else { 1 }, w);
    }
    let b1: u8 = s[at + 1];
    let ok: bool = if b == 0xE0 {
        0xA0 <= b1 && b1 <= 0xBF
    } else if b == 0xED {
        0x80 <= b1 && b1 <= 0x9F
    } else if b == 0xF0 {
        0x90 <= b1 && b1 <= 0xBF
    } else if b == 0xF4 {
        0x80 <= b1 && b1 <= 0x8F
    } else {
        0x80 <= b1 && b1 <= 0xBF
    };
    proof {
        assert(t[1] == b1);
    }
    if !ok {
        return (1, w);
    }
    if w == 2 || n < 3 {
        return (2, w);
    }
    let b2: u8 = s[at + 2];
    proof {
        assert(t[2] == b2);
    }
    if !(0x80 <= b2 && b2 <= 0xBF) {
        return (2, w);
    }
    if w == 3 || n < 4 {
        return (3, w);
    }
    let b3: u8 = s[at + 3];
    proof {
        assert(t[3] == b3);
    }
    if !(0x80 <= b3 && b3 <= 0xBF) {
        return (3, w);
    }
    (4, w)
}

/// The code point of the character of `w` bytes at `s[at..]`.
fn scalar_at(s: &[u8], at: usize, w: usize) -> (n: u32)
    requires
        at + w <= s@.len(),
        valid_first_scalar(s@.skip(at as int)),
        w == length_of_first_scalar(s@.skip(at as int)),
    ensures
        n == decode_first_scalar(s@.skip(at as int)),
{
    let ghost t = s@.skip(at as int);
    proof {
        assert(forall|i: int| 0 <= i < w ==> t[i] == s@[at + i]);
    }
    let b: u8 = s[at];
    if w == 1 {
        (b & 0x7F) as u32
    } else if w == 2 {
        (((b & 0x1F) as u32) << 6) | ((s[at + 1] & 0x3F) as u32)
    } else if w == 3 {
        (((b & 0x0F) as u32) << 12) | (((s[at + 1] & 0x3F) as u32) << 6) | ((s[at + 2]
            & 0x3F) as u32)
    } else {
        (((b & 0x07) as u32) << 18) | (((s[at + 1] & 0x3F) as u32) << 12) | (((s[at + 2]
            & 0x3F) as u32) << 6) | ((s[at + 3] & 0x3F) as u32)
    }
}

/// A decoder for bytes that arrive in chunks: a character cut in two by a chunk's end is held
/// back until the rest of it arrives, so that it is not lost; bytes that are no character become
/// [`REPLACEMENT`], so that the stream never waits for a byte that will not come.
#[derive(Debug, PartialEq, Eq)]
pub struct Utf8Stream {
    carry: Vec<u8>,
}

impl View for Utf8Stream {
    type V = Seq<u8>;

    closed spec fn view(&self) -> Seq<u8> {
        self.carry@
    }
}

impl Default for Utf8Stream {
    fn default() -> (r: Self)
        ensures
            r@ == Seq::<u8>::empty(),
    {
        Utf8Stream { carry: Vec::new() }
    }
}

impl Utf8Stream {
    /// The bytes held back for the next chunk.
    pub fn carry(&self) -> (r: &[u8])
        ensures
            r@ == self@,
    {
        self.carry.as_slice()
    }

    /// The text that `bytes` completes.
    pub fn push(&mut self, bytes: &[u8]) -> (out: String)
        ensures
            (out@, final(self)@) == decoded(old(self)@ + bytes@),
            final(self)@.len() <= 3,
    {
        let mut buf: Vec<u8> = Vec::new();
        std::mem::swap(&mut buf, &mut self.carry);
        buf.extend_from_slice(bytes);
        let ghost all = old(self)@ + bytes@;
        proof {
            assert(buf@ =~= all);
            lemma_carry(all);
        }
        let mut out = String::new();
        let mut at: usize = 0;
        proof {
            assert(all.skip(0) =~= all);
            assert(out@ + decoded(all).0 =~= decoded(all).0);
        }
        while at < buf.len()
            invariant
                buf@ == all,
                all == old(self)@ + bytes@,
                at <= all.len(),
                decoded(all).0 == out@ + decoded(all.skip(at as int)).0,
                decoded(all).1 == decoded(all.skip(at as int)).1,
                decoded(all).1.len() <= 3,
                self.carry@.len() == 0,
            decreases all.len() - at,
        {
            let (k, w) = fitting_at(&buf, at);
            let ghost rest = all.skip(at as int);
            let ghost before = out@;
            proof {
                lemma_fitting(rest);
            }
            if k == w && k > 0 {
                let n: u32 = scalar_at(&buf, at, w);
                proof {
                    assert(valid_first_scalar(rest));
                    lemma_scalar_in_range(rest);
                }
                match char::from_u32(n) {
                    Some(c) => {
                        out.push(c);
                        proof {
                            vstd::utf8::char_u32_cast(c, n);
                            assert(rest.skip(k as int) =~= all.skip(at + k));
                            assert(before + (seq![c] + decoded(all.skip(at + k)).0) =~= out@
                                + decoded(all.skip(at + k)).0);
                        }
                    },
                    None => {
                        proof {
                            assert(false);
                        }
                    },
                }
                at += k;
            } else if k == buf.len() - at {
                let mut tail: Vec<u8> = Vec::new();
                let mut i: usize = at;
                while i < buf.len()
                    invariant
                        buf@ == all,
                        at <= i <= all.len(),
                        tail@ == all.subrange(at as int, i as int),
                    decreases all.len() - i,
                {
                    tail.push(buf[i]);
                    proof {
                        assert(all.subrange(at as int, i + 1) =~= all.subrange(
                            at as int,
                            i as int,
                        ).push(all[i as int]));
                    }
                    i += 1;
                }
                proof {
                    assert(tail@ =~= rest);
                    assert(out@ + decoded(rest).0 =~= out@);
                }
                self.carry = tail;
                return out;
            } else {
                let n: usize = if k == 0 {
                    1
                } else {
                    k
                };
                out.push(REPLACEMENT);
                proof {
                    assert(rest.skip(n as int) =~= all.skip(at + n));
                    assert(before + (seq![REPLACEMENT] + decoded(all.skip(at + n)).0) =~= out@
                        + decoded(all.skip(at + n)).0);
                }
                at += n;
            }
        }
        proof {
            assert(all.skip(at as int) =~= Seq::<u8>::empty());
            assert(out@ + decoded(all.skip(at as int)).0 =~= out@);
            assert(self.carry@ =~= decoded(all).1);
        }
        out
    }
}

proof fn lemma_scalar_in_range(s: Seq<u8>)
    requires
        valid_first_scalar(s),
        s.len() > 0,
    ensures
        decode_first_scalar(s) <= 0x10FFFF,
        !(0xD800 <= decode_first_scalar(s) <= 0xDFFF),
{
    if 0xC0 <= s[0] <= 0xDF {
        lemma_width_2(s[0], s[1]);
    } else if 0xE0 <= s[0] <= 0xEF {
        lemma_width_3(s[0], s[1], s[2]);
    } else if 0xF0 <= s[0] <= 0xF7 {
        lemma_width_4(s[0], s[1], s[2], s[3]);
    } else {
        let b = s[0];
        assert((b & 0x7F) as u32 <= 0x7F) by (bit_vector);
    }
}

} // verus!
