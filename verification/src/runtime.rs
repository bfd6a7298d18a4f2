//! What the terminal runtime says of a session: its size, how to attach, how it ended.

use vstd::prelude::*;

verus! {

/// A terminal size in character cells.
#[derive(Clone, Copy, Debug, PartialEq, Eq, Structural)]
pub struct Size {
    pub cols: u16,
    pub rows: u16,
}

impl Default for Size {
    fn default() -> (r: Self)
        ensures
            r == (Size { cols: 160, rows: 48 }),
    {
        Size { cols: 160, rows: 48 }
    }
}

/// How a process ended.
#[derive(Debug, PartialEq, Eq)]
pub enum Exit {
    Code(i32),
    Signal(String),
}

/// The model of an [`Exit`].
pub enum ExitView {
    Code(int),
    Signal(Seq<char>),
}

impl View for Exit {
    type V = ExitView;

    open spec fn view(&self) -> ExitView {
        match self {
            Exit::Code(c) => ExitView::Code(*c as int),
            Exit::Signal(s) => ExitView::Signal(s@),
        }
    }
}

/// How to attach to a session: the command line and what to add to the environment.
#[derive(Debug, PartialEq, Eq)]
pub struct AttachSpec {
    pub argv: Vec<String>,
    pub env: Vec<(String, String)>,
}

} // verus!
