//! A terminal in a browser: what goes from the browser to the attached program, and back.

use crate::gateway::{ClientMessage, Utf8Stream, IDLE_TIMEOUT};
use crate::gateway::utf8::decoded;
use crate::runtime::Size;
use vstd::prelude::*;

verus! {

/// The size that a browser asks for.
#[derive(Clone, Copy, Debug, PartialEq, Eq, Structural)]
pub struct TermQuery {
    pub cols: Option<u16>,
    pub rows: Option<u16>,
}

/// A number that is not zero, or another one.
pub open spec fn nonzero(n: Option<u16>, d: u16) -> u16 {
    if n is Some && n->0 > 0 {
        n->0
    } else {
        d
    }
}

impl TermQuery {
    /// The size of the terminal: what was asked for, or the usual size where that is missing or zero.
    pub fn size(&self) -> (r: Size)
        ensures
            r == (Size { cols: nonzero(self.cols, 160), rows: nonzero(self.rows, 48) }),
    {
        let d = Size::default();
        Size {
            cols: match self.cols {
                Some(c) => if c > 0 {
                    c
                } else {
                    d.cols
                },
                None => d.cols,
            },
            rows: match self.rows {
                Some(r) => if r > 0 {
                    r
                } else {
                    d.rows
                },
                None => d.rows,
            },
        }
    }
}

/// What comes from a browser.
#[derive(Debug, PartialEq, Eq)]
pub enum Frame {
    /// Nothing more, or an error.
    Gone,
    /// A text, with what it says where it says something.
    Text(Option<ClientMessage>),
    /// Anything else.
    Other,
}

/// What is done with it.
#[derive(Debug, PartialEq, Eq)]
pub enum Act {
    /// The line ends.
    Stop,
    Nothing,
    /// It is typed.
    Write(String),
    Resize(Size),
    Pong,
}

/// The model of an [`Act`].
pub enum Deed {
    Stop,
    Nothing,
    Write(Seq<char>),
    Resize(Size),
    Pong,
}

impl View for Act {
    type V = Deed;

    open spec fn view(&self) -> Deed {
        match self {
            Act::Stop => Deed::Stop,
            Act::Nothing => Deed::Nothing,
            Act::Write(s) => Deed::Write(s@),
            Act::Resize(s) => Deed::Resize(*s),
            Act::Pong => Deed::Pong,
        }
    }
}

/// What is done with what comes from a browser: what is typed counts only where it may, and a size of zero
/// not at all. A text that says nothing is passed over.
pub open spec fn deed(accept_input: bool, frame: Frame) -> Deed {
    match frame {
        Frame::Gone => Deed::Stop,
        Frame::Other => Deed::Nothing,
        Frame::Text(None) => Deed::Nothing,
        Frame::Text(Some(ClientMessage::Input { data })) => if accept_input {
            Deed::Write(data@)
        } else {
            Deed::Nothing
        },
        Frame::Text(Some(ClientMessage::Resize { cols, rows })) => if cols > 0 && rows > 0 {
            Deed::Resize(Size { cols, rows })
        } else {
            Deed::Nothing
        },
        Frame::Text(Some(ClientMessage::Ping)) => Deed::Pong,
    }
}

/// One terminal in one browser.
#[derive(Debug, PartialEq, Eq)]
pub struct Bridge {
    accept_input: bool,
    decoder: Utf8Stream,
    last_seen: u64,
}

/// The model of a [`Bridge`].
pub struct Line {
    pub accept_input: bool,
    /// The bytes of a character that is not complete yet.
    pub carry: Seq<u8>,
    pub last_seen: u64,
}

impl View for Bridge {
    type V = Line;

    closed spec fn view(&self) -> Line {
        Line {
            accept_input: self.accept_input,
            carry: self.decoder@,
            last_seen: self.last_seen,
        }
    }
}

impl Bridge {
    /// A line that begins at `now`, in milliseconds. Where `accept_input` is false it only shows.
    pub fn new(accept_input: bool, now: u64) -> (r: Bridge)
        ensures
            r@ == (Line { accept_input, carry: Seq::empty(), last_seen: now }),
    {
        let decoder = Utf8Stream::default();
        proof {
            assert(decoder@ =~= Seq::<u8>::empty());
        }
        Bridge { accept_input, decoder, last_seen: now }
    }

    /// The first word to the browser.
    pub fn status(&self) -> (r: &'static str)
        ensures
            r@ == (if self@.accept_input {
                "attached"@
            } else {
                "read_only"@
            }),
    {
        if self.accept_input {
            "attached"
        } else {
            "read_only"
        }
    }

    /// The text to show for some bytes of the program, if they make any.
    pub fn output(&mut self, bytes: &[u8]) -> (r: Option<String>)
        ensures
            final(self)@ == (Line {
                carry: decoded(old(self)@.carry + bytes@).1,
                ..old(self)@
            }),
            match r {
                Some(s) => s@ == decoded(old(self)@.carry + bytes@).0 && s@.len() > 0,
                None => decoded(old(self)@.carry + bytes@).0.len() == 0,
            },
    {
        let s = self.decoder.push(bytes);
        if crate::text::is_empty(s.as_str()) {
            None
        } else {
            Some(s)
        }
    }

    /// Whether the line stays at `now`: the browser has been heard of in time.
    pub fn tick(&self, now: u64) -> (r: bool)
        ensures
            r == stays(self@.last_seen, now),
    {
        now <= self.last_seen || now - self.last_seen <= IDLE_TIMEOUT
    }

    /// What is done with what comes from the browser at `now`.
    pub fn frame(&mut self, frame: Frame, now: u64) -> (r: Act)
        ensures
            r@ == deed(old(self)@.accept_input, frame),
            final(self)@ == (if frame is Gone {
                old(self)@
            } else {
                Line { last_seen: now, ..old(self)@ }
            }),
    {
        match frame {
            Frame::Gone => Act::Stop,
            Frame::Other => {
                self.last_seen = now;
                Act::Nothing
            },
            Frame::Text(message) => {
                self.last_seen = now;
                match message {
                    None => Act::Nothing,
                    Some(ClientMessage::Input { data }) => if self.accept_input {
                        Act::Write(data)
                    } else {
                        Act::Nothing
                    },
                    Some(ClientMessage::Resize { cols, rows }) => if cols > 0 && rows > 0 {
                        Act::Resize(Size { cols, rows })
                    } else {
                        Act::Nothing
                    },
                    Some(ClientMessage::Ping) => Act::Pong,
                }
            },
        }
    }
}

/// A terminal that only shows never types, whatever comes from the browser.
pub proof fn lemma_read_only_never_types(frame: Frame)
    ensures
        !(deed(false, frame) is Write),
{
}

/// What comes from a browser does what it says: text that is typed is written as it is where input is
/// accepted, a size is taken where both of its sides are more than nothing, a ping is answered, and the line
/// ends exactly where there is nothing more to come. Without input all but the typing is as with it.
pub proof fn lemma_what_a_frame_does(accept: bool, frame: Frame)
    ensures
        deed(accept, frame) is Stop <==> frame is Gone,
        frame matches Frame::Text(Some(ClientMessage::Input { data })) ==> deed(true, frame)
            == Deed::Write(data@),
        deed(accept, frame) is Write ==> accept && (frame matches Frame::Text(
            Some(ClientMessage::Input { .. }),
        )),
        frame matches Frame::Text(Some(ClientMessage::Resize { cols, rows })) ==> deed(accept, frame) == (
        if cols == 0 || rows == 0 {
            Deed::Nothing
        } else {
            Deed::Resize(Size { cols, rows })
        }),
        deed(accept, frame) is Resize ==> deed(accept, frame)->Resize_0.cols > 0 && deed(
            accept,
            frame,
        )->Resize_0.rows > 0,
        deed(accept, frame) is Pong <==> (frame matches Frame::Text(Some(ClientMessage::Ping))),
        !(deed(true, frame) is Write) ==> deed(false, frame) == deed(true, frame),
{
}

/// A side of a terminal that is given and is more than nothing is taken, and else the usual one.
pub proof fn lemma_nonzero(n: u16, d: u16)
    ensures
        n > 0 ==> nonzero(Some(n), d) == n,
        nonzero(Some(0), d) == d,
        nonzero(None, d) == d,
{
}

/// Whether a line on which something came at `last_seen` is still open at `now`.
pub open spec fn stays(last_seen: u64, now: u64) -> bool {
    now - last_seen <= IDLE_TIMEOUT
}

/// A line stays open for 65 seconds after something came, longer than it takes until the next ping, and is
/// closed after that.
pub proof fn lemma_how_long_a_line_stays(last_seen: u64, now: u64)
    ensures
        stays(last_seen, now) <==> now <= last_seen + 65_000,
        stays(last_seen, last_seen),
        last_seen <= now <= last_seen + 3 * crate::gateway::PING_INTERVAL ==> stays(last_seen, now),
{
}

} // verus!
