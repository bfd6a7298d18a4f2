//! The way between a browser and the program that is attached to a session: what is said on it, and when
//! the program may be let go of.

pub mod utf8;

pub use utf8::Utf8Stream;

use crate::adapter::text::lower_case;
use crate::runtime::{AttachSpec, Exit, ExitView, Size};
use crate::text::{self, texts};
use vstd::prelude::*;

verus! {

/// What a browser says.
#[derive(Debug, PartialEq, Eq)]
pub enum ClientMessage {
    Input { data: String },
    Resize { cols: u16, rows: u16 },
    Ping,
}

/// What is said to a browser.
#[derive(Debug, PartialEq, Eq)]
pub enum ServerMessage {
    Output { data: String },
    Status { status: &'static str },
    /// The attached program ended; the session may live on.
    Exit { exit: Exit },
    Pong,
}

/// How many milliseconds lie between two questions whether the browser is there.
pub const PING_INTERVAL: u64 = 20_000;

/// After how many milliseconds without a word a browser is taken to be gone.
pub const IDLE_TIMEOUT: u64 = 65_000;

/// How many milliseconds the attached program gets to end.
pub const DETACH_GRACE: u64 = 3_000;

/// The terminal that the attached program is told it has.
pub const TERM: &'static str = "xterm-256color";

/// Why nothing could be attached.
#[derive(Debug, PartialEq, Eq)]
pub enum GatewayError {
    OpenPty(String),
    Spawn(String),
    EmptyArgv,
}

/// The model of a [`GatewayError`].
pub enum AttachFault {
    OpenPty(Seq<char>),
    Spawn(Seq<char>),
    EmptyArgv,
}

impl View for GatewayError {
    type V = AttachFault;

    open spec fn view(&self) -> AttachFault {
        match self {
            GatewayError::OpenPty(s) => AttachFault::OpenPty(s@),
            GatewayError::Spawn(s) => AttachFault::Spawn(s@),
            GatewayError::EmptyArgv => AttachFault::EmptyArgv,
        }
    }
}

impl GatewayError {
    /// The text of a fault.
    pub fn message(&self) -> (out: String)
        ensures
            out@ == (match self@ {
                AttachFault::OpenPty(s) => "打开 PTY 失败: "@ + s,
                AttachFault::Spawn(s) => "在 PTY 里启动 attach 失败: "@ + s,
                AttachFault::EmptyArgv => "attach 规格为空：运行时没有给出可执行的 argv"@,
            }),
    {
        match self {
            GatewayError::OpenPty(s) => text::cat("打开 PTY 失败: ", s.as_str()),
            GatewayError::Spawn(s) => text::cat("在 PTY 里启动 attach 失败: ", s.as_str()),
            GatewayError::EmptyArgv => "attach 规格为空：运行时没有给出可执行的 argv".to_owned(),
        }
    }
}

/// What to start in a terminal, and the size of it.
#[derive(Debug, PartialEq, Eq)]
pub struct Launch {
    pub program: String,
    pub args: Vec<String>,
    /// What is set in the environment, one after the other.
    pub env: Vec<(String, String)>,
    pub size: Size,
}

/// The names and values of an environment.
pub open spec fn settings(v: Seq<(String, String)>) -> Seq<(Seq<char>, Seq<char>)> {
    v.map_values(|p: (String, String)| (p.0@, p.1@))
}

/// What to start to attach to a session: the first word of its command line with the others, told the kind
/// of its terminal before anything else that is set for it.
pub fn launch(spec: &AttachSpec, size: Size) -> (r: Result<Launch, GatewayError>)
    ensures
        match r {
            Ok(l) => {
                &&& spec.argv@.len() > 0
                &&& l.program@ == spec.argv@[0]@
                &&& texts(l.args@) == texts(spec.argv@).skip(1)
                &&& settings(l.env@) == seq![("TERM"@, TERM@)] + settings(spec.env@)
                &&& l.size == size
            },
            Err(e) => spec.argv@.len() == 0 && e@ == AttachFault::EmptyArgv,
        },
{
    if spec.argv.len() == 0 {
        return Err(GatewayError::EmptyArgv);
    }
    let ghost all = texts(spec.argv@);
    let mut args: Vec<String> = Vec::new();
    let mut i: usize = 1;
    proof {
        assert(texts(args@) =~= all.subrange(1, 1));
    }
    while i < spec.argv.len()
        invariant
            1 <= i <= spec.argv@.len(),
            all == texts(spec.argv@),
            texts(args@) == all.subrange(1, i as int),
        decreases spec.argv@.len() - i,
    {
        let ghost was = texts(args@);
        args.push(spec.argv[i].clone());
        proof {
            assert(texts(args@) =~= was.push(spec.argv@[i as int]@));
            assert(all.subrange(1, i + 1) =~= all.subrange(1, i as int).push(all[i as int]));
        }
        i += 1;
    }
    proof {
        assert(all.subrange(1, i as int) =~= all.skip(1));
    }
    let ghost want = settings(spec.env@);
    let ghost head = seq![("TERM"@, TERM@)];
    let mut env: Vec<(String, String)> = Vec::new();
    env.push(("TERM".to_owned(), TERM.to_owned()));
    let mut k: usize = 0;
    proof {
        assert(settings(env@) =~= head + want.take(0));
    }
    while k < spec.env.len()
        invariant
            k <= spec.env@.len(),
            want == settings(spec.env@),
            settings(env@) == head + want.take(k as int),
        decreases spec.env@.len() - k,
    {
        let ghost was = settings(env@);
        let pair = (spec.env[k].0.clone(), spec.env[k].1.clone());
        env.push(pair);
        proof {
            assert(settings(env@) =~= was.push((pair.0@, pair.1@)));
            assert(want.take(k + 1) =~= want.take(k as int).push(want[k as int]));
            assert((head + want.take(k as int)).push(want[k as int]) =~= head + want.take(k + 1));
        }
        k += 1;
    }
    proof {
        assert(want.take(k as int) =~= want);
    }
    Ok(Launch { program: spec.argv[0].clone(), args, env, size })
}

/// What is known of the end of the attached program.
#[derive(Debug, PartialEq, Eq)]
pub enum Waited {
    Success,
    /// It was ended by a signal.
    Signal(String),
    Code(u32),
    /// It could not be waited for.
    Failed,
}

/// How the attached program ended.
pub open spec fn end_of(w: Waited) -> ExitView {
    match w {
        Waited::Success => ExitView::Code(0),
        Waited::Signal(s) => ExitView::Signal(lower_case(s@)),
        Waited::Code(c) => ExitView::Code(c as i32 as int),
        Waited::Failed => ExitView::Signal("unknown"@),
    }
}

/// How the attached program ended.
pub fn exit_of(w: &Waited) -> (r: Exit)
    ensures
        r@ == end_of(*w),
{
    match w {
        Waited::Success => Exit::Code(0),
        Waited::Signal(s) => Exit::Signal(s.as_str().to_lowercase()),
        Waited::Code(c) => Exit::Code(
            #[verifier::truncate]
            (*c as i32),
        ),
        Waited::Failed => Exit::Signal("unknown".to_owned()),
    }
}

/// What becomes of the end of the line that is written to. To let go of it writes an end of input to the
/// program, so it is let go of only once the program is known to have ended.
#[derive(Clone, Copy, Debug, PartialEq, Eq, Structural)]
pub enum Writer {
    /// It is written to.
    Open,
    /// It was let go of.
    Released,
    /// It is kept for good.
    Leaked,
}

/// What the one who writes is told.
#[derive(Clone, Copy, Debug, PartialEq, Eq, Structural)]
pub enum WriteCmd {
    /// To write something; whether that went well.
    Data { written: bool },
    /// To let go: the program has ended.
    Release,
    /// Nothing more, ever.
    Closed,
}

/// What becomes of the line when the one who writes is told something.
pub open spec fn told(w: Writer, cmd: WriteCmd) -> Writer {
    match (w, cmd) {
        (Writer::Open, WriteCmd::Data { written }) => if written {
            Writer::Open
        } else {
            Writer::Leaked
        },
        (Writer::Open, WriteCmd::Release) => Writer::Released,
        (Writer::Open, WriteCmd::Closed) => Writer::Leaked,
        _ => w,
    }
}

impl Writer {
    /// What becomes of the line when the one who writes is told something.
    pub fn tell(self, cmd: WriteCmd) -> (r: Writer)
        ensures
            r == told(self, cmd),
    {
        match (self, cmd) {
            (Writer::Open, WriteCmd::Data { written }) => if written {
                Writer::Open
            } else {
                Writer::Leaked
            },
            (Writer::Open, WriteCmd::Release) => Writer::Released,
            (Writer::Open, WriteCmd::Closed) => Writer::Leaked,
            _ => self,
        }
    }
}

/// How a program is detached from: each step is named by what is being done.
#[derive(Clone, Copy, Debug, PartialEq, Eq, Structural)]
pub enum Detach {
    /// The program is told to hang up, and its end is waited for.
    HangingUp,
    /// The one who writes is told to let go.
    Releasing,
    /// It is left as it is: the program did not end in time.
    Leaking,
}

/// How detaching begins: a program that has ended need not be told to.
pub fn begin_detach(exited: bool) -> (r: Detach)
    ensures
        r == (if exited {
            Detach::Releasing
        } else {
            Detach::HangingUp
        }),
{
    if exited {
        Detach::Releasing
    } else {
        Detach::HangingUp
    }
}

/// How detaching goes on after the wait: `ended` says whether the program ended in time.
pub fn after_wait(d: Detach, ended: bool) -> (r: Detach)
    ensures
        r == (match d {
            Detach::HangingUp => if ended {
                Detach::Releasing
            } else {
                Detach::Leaking
            },
            _ => d,
        }),
{
    match d {
        Detach::HangingUp => if ended {
            Detach::Releasing
        } else {
            Detach::Leaking
        },
        _ => d,
    }
}

/// What the one who writes is told in the end.
pub open spec fn last_word(d: Detach) -> WriteCmd {
    match d {
        Detach::Releasing => WriteCmd::Release,
        _ => WriteCmd::Closed,
    }
}

/// What the one who writes is told in the end.
pub fn final_command(d: Detach) -> (r: WriteCmd)
    ensures
        r == last_word(d),
{
    match d {
        Detach::Releasing => WriteCmd::Release,
        _ => WriteCmd::Closed,
    }
}

/// Where detaching leads: `exited` says whether the program had ended, `ended` whether it did in time.
pub open spec fn detached(exited: bool, ended: bool) -> Detach {
    if exited || ended {
        Detach::Releasing
    } else {
        Detach::Leaking
    }
}

/// What becomes of a line after some words to the one who writes.
pub open spec fn after_words(w: Writer, cmds: Seq<WriteCmd>) -> Writer
    decreases cmds.len(),
{
    if cmds.len() == 0 {
        w
    } else {
        told(after_words(w, cmds.drop_last()), cmds.last())
    }
}

/// The line is let go of only on the word to do so, whatever else is said.
pub proof fn lemma_released_only_on_command(cmds: Seq<WriteCmd>)
    requires
        after_words(Writer::Open, cmds) == Writer::Released,
    ensures
        cmds.contains(WriteCmd::Release),
    decreases cmds.len(),
{
    if cmds.len() > 0 {
        let w = after_words(Writer::Open, cmds.drop_last());
        if w == Writer::Released {
            lemma_released_only_on_command(cmds.drop_last());
            let i = cmds.drop_last().index_of(WriteCmd::Release);
            assert(cmds[i] == WriteCmd::Release);
        } else {
            assert(cmds[cmds.len() - 1] == WriteCmd::Release);
        }
    }
}

/// A program that lives on is never told an end of input: the one who writes is told to let go only where
/// the program is known to have ended.
pub proof fn lemma_no_end_of_input_to_the_living(exited: bool, ended: bool)
    ensures
        last_word(detached(exited, ended)) == WriteCmd::Release <==> exited || ended,
        !exited && !ended ==> told(Writer::Open, last_word(detached(exited, ended)))
            == Writer::Leaked,
{
}

/// How a program ended is told as it was: with its code, with its signal, and well where it ended well.
pub proof fn lemma_how_it_ended(w: Waited)
    ensures
        w is Success ==> end_of(w) == ExitView::Code(0),
        w matches Waited::Code(c) ==> (c <= i32::MAX ==> end_of(w) == ExitView::Code(c as int)),
        w matches Waited::Signal(s) ==> end_of(w) == ExitView::Signal(lower_case(s@)),
        w is Failed || w is Signal <==> end_of(w) is Signal,
{
}

/// One who writes goes on as long as that goes well, and once it is let go of or kept nothing changes it.
pub proof fn lemma_who_writes_goes_on(w: Writer, cmd: WriteCmd)
    ensures
        told(w, cmd) is Open <==> w is Open && cmd == (WriteCmd::Data { written: true }),
        !(w is Open) ==> told(w, cmd) == w,
        w is Open ==> (told(w, cmd) is Released <==> cmd is Release),
{
}

} // verus!
