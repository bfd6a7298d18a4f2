//! A login shell: no hooks, no version, no conversation.

use crate::adapter::{program_is, AgentFallback, AgentIdentity, Probed, Version, VersionProbe};
use crate::status::{Detected, DetectionResult};
use crate::text::{self, strs, trimmed};
use vstd::prelude::*;

verus! {

/// A login shell.
#[derive(Clone, Copy, Debug, PartialEq, Eq, Structural)]
pub struct Shell;

/// The programs that are a shell.
pub const PROGRAMS: [&'static str; 6] = ["sh", "bash", "zsh", "fish", "dash", "ksh"];

/// The login shell.
pub const SHELL: Shell = Shell;

impl AgentIdentity for Shell {
    open spec fn label(&self) -> Seq<char> {
        "shell"@
    }

    open spec fn command_text(&self) -> Seq<char> {
        "$SHELL"@
    }

    open spec fn programs(&self) -> Seq<Seq<char>> {
        seq!["sh"@, "bash"@, "zsh"@, "fish"@, "dash"@, "ksh"@]
    }

    open spec fn probed(&self, output: Seq<char>) -> Probed {
        Probed::Unparsable(trimmed(output))
    }

    open spec fn resuming(&self, v: Version, id: Seq<char>) -> Option<Seq<Seq<char>>> {
        None
    }

    open spec fn pinning(&self, v: Version, id: Seq<char>) -> Option<Seq<Seq<char>>> {
        None
    }

    open spec fn headless(&self, prompt: Seq<char>) -> Option<Seq<Seq<char>>> {
        None
    }

    open spec fn beginning(&self, prompt: Seq<char>) -> Option<Seq<Seq<char>>> {
        None
    }

    fn name(&self) -> (r: &'static str) {
        "shell"
    }

    fn default_command(&self) -> (r: &'static str) {
        "$SHELL"
    }

    fn match_process(&self, argv: &[&str]) -> (r: bool) {
        let programs: [&'static str; 6] = PROGRAMS;
        proof {
            assert(strs(programs@) =~= self.programs());
        }
        program_is(argv, programs.as_slice())
    }

    fn version(&self, output: &str) -> (r: VersionProbe) {
        VersionProbe::Unparsable(text::trim(output))
    }

    fn resume_args(&self, version: Version, agent_session_id: &str) -> (r: Option<Vec<String>>) {
        None
    }

    fn pin_args(&self, version: Version, new_id: &str) -> (r: Option<Vec<String>>) {
        None
    }

    fn headless_args(&self, prompt: &str) -> (r: Option<Vec<String>>) {
        None
    }

    fn initial_prompt_args(&self, prompt: &str) -> (r: Option<Vec<String>>) {
        None
    }
}

impl AgentFallback for Shell {
    open spec fn seen(&self, tail: Seq<Seq<char>>) -> Option<Detected> {
        None
    }

    fn detect(&self, tail: &[&str]) -> (r: Option<DetectionResult>) {
        None
    }
}

} // verus!
