//! The states of a session, and the events that move it between them.

use crate::text;
use vstd::prelude::*;

verus! {

/// The state of a session.
#[derive(Clone, Copy, Debug, PartialEq, Eq, Structural)]
pub enum Status {
    Starting,
    Running,
    Waiting,
    TurnDone,
    Idle,
    Finished,
    Failed,
    Unknown,
}

/// What a state was concluded from.
#[derive(Clone, Copy, Debug, PartialEq, Eq, Structural)]
pub enum Source {
    Process,
    Hook,
    Text,
}

/// The reason that a host gives for the end of a session.
#[derive(Clone, Copy, Debug, PartialEq, Eq, Structural)]
pub enum HostEndReason {
    Exit,
    Clear,
}

/// What ended a session.
#[derive(Clone, Copy, Debug, PartialEq, Eq, Structural)]
pub enum EndCause {
    /// Its process ended with a code.
    ExitCode(i32),
    /// It was killed from here.
    KilledByUser,
    /// Its host said so.
    HostSessionEnd(HostEndReason),
    /// Another conversation took its place.
    Superseded,
    /// Its process is gone.
    ProcessGone,
}

/// What is known of the process of a session.
#[derive(Clone, Copy, Debug, PartialEq, Eq, Structural)]
pub enum ProcessState {
    Alive,
    Gone,
    Unknown,
}

/// What a screen says of a session: its state, how sure that is in per cent, and why.
#[derive(Debug, PartialEq, Eq)]
pub struct DetectionResult {
    pub status: Status,
    pub confidence: u8,
    pub reason: String,
}

/// The model of a [`DetectionResult`].
pub struct Detected {
    pub status: Status,
    pub confidence: int,
    pub reason: Seq<char>,
}

impl View for DetectionResult {
    type V = Detected;

    open spec fn view(&self) -> Detected {
        Detected { status: self.status, confidence: self.confidence as int, reason: self.reason@ }
    }
}

/// What a host reported, in the words that all hosts share.
#[derive(Debug, PartialEq, Eq)]
pub enum AgoraEvent {
    SessionStarted,
    SessionId(String),
    PromptSubmitted(String),
    PromptInjected,
    InputNeeded { tool_use_id: String, question: String },
    Activity(String),
    DecisionResolved(Option<String>),
    DecisionNeeded { tool_use_id: String, summary: String },
    Idle,
    TurnEnded(Option<String>),
    TurnFailed(String),
    SessionEnded(Option<String>),
}

/// The model of an [`AgoraEvent`].
pub enum Happening {
    SessionStarted,
    SessionId(Seq<char>),
    PromptSubmitted(Seq<char>),
    PromptInjected,
    InputNeeded { tool_use_id: Seq<char>, question: Seq<char> },
    Activity(Seq<char>),
    DecisionResolved(Option<Seq<char>>),
    DecisionNeeded { tool_use_id: Seq<char>, summary: Seq<char> },
    Idle,
    TurnEnded(Option<Seq<char>>),
    TurnFailed(Seq<char>),
    SessionEnded(Option<Seq<char>>),
}

impl View for AgoraEvent {
    type V = Happening;

    open spec fn view(&self) -> Happening {
        match self {
            AgoraEvent::SessionStarted => Happening::SessionStarted,
            AgoraEvent::SessionId(s) => Happening::SessionId(s@),
            AgoraEvent::PromptSubmitted(s) => Happening::PromptSubmitted(s@),
            AgoraEvent::PromptInjected => Happening::PromptInjected,
            AgoraEvent::InputNeeded { tool_use_id, question } => Happening::InputNeeded {
                tool_use_id: tool_use_id@,
                question: question@,
            },
            AgoraEvent::Activity(s) => Happening::Activity(s@),
            AgoraEvent::DecisionResolved(o) => Happening::DecisionResolved(text::opt_text(*o)),
            AgoraEvent::DecisionNeeded { tool_use_id, summary } => Happening::DecisionNeeded {
                tool_use_id: tool_use_id@,
                summary: summary@,
            },
            AgoraEvent::Idle => Happening::Idle,
            AgoraEvent::TurnEnded(o) => Happening::TurnEnded(text::opt_text(*o)),
            AgoraEvent::TurnFailed(s) => Happening::TurnFailed(s@),
            AgoraEvent::SessionEnded(o) => Happening::SessionEnded(text::opt_text(*o)),
        }
    }
}

/// The models of a list of events.
pub open spec fn happenings(v: Seq<AgoraEvent>) -> Seq<Happening> {
    v.map_values(|e: AgoraEvent| e@)
}

} // verus!
