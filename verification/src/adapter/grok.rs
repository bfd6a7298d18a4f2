//! Grok.
//!
//! Its hooks cannot answer a request for permission, so none is held. There is no table of its events
//! yet, neither one of its own nor a general one that would serve for it: of an event nothing but the
//! conversation and the working directory is read, and no hooks are installed for it.

use crate::adapter::claude::no_events;
use crate::adapter::hooks::{
    self, cwd_of, freed_by, held_key, session_of, Answer, Decision, Release, Released,
    DEFAULT_HOLD_TIMEOUT,
};
use crate::adapter::{
    entries, program_is, version_in, AgentFallback, AgentHooks, AgentIdentity, Entry, HookInstall,
    Probed, Version, VersionProbe,
};
use crate::json::{Json, JsonView};
use crate::status::{AgoraEvent, Detected, DetectionResult, Happening};
use crate::text::{self, occurs, strs, trimmed};
use vstd::prelude::*;

verus! {

/// Grok.
#[derive(Clone, Copy, Debug, PartialEq, Eq, Structural)]
pub struct Grok;

/// Grok.
pub const GROK: Grok = Grok;

impl AgentIdentity for Grok {
    open spec fn label(&self) -> Seq<char> {
        "grok"@
    }

    open spec fn command_text(&self) -> Seq<char> {
        "grok"@
    }

    open spec fn programs(&self) -> Seq<Seq<char>> {
        seq!["grok"@]
    }

    open spec fn probed(&self, output: Seq<char>) -> Probed {
        match version_in(output) {
            Some(v) => if occurs(output, "grok"@) {
                Probed::Available(v)
            } else {
                Probed::Unparsable(trimmed(output))
            },
            None => Probed::Unparsable(trimmed(output)),
        }
    }

    open spec fn resuming(&self, v: Version, id: Seq<char>) -> Option<Seq<Seq<char>>> {
        None
    }

    open spec fn pinning(&self, v: Version, id: Seq<char>) -> Option<Seq<Seq<char>>> {
        None
    }

    open spec fn headless(&self, prompt: Seq<char>) -> Option<Seq<Seq<char>>> {
        None
    }

    open spec fn beginning(&self, prompt: Seq<char>) -> Option<Seq<Seq<char>>> {
        None
    }

    fn name(&self) -> (r: &'static str) {
        "grok"
    }

    fn default_command(&self) -> (r: &'static str) {
        "grok"
    }

    fn match_process(&self, argv: &[&str]) -> (r: bool) {
        let programs: [&'static str; 1] = ["grok"];
        proof {
            assert(strs(programs@) =~= self.programs());
        }
        program_is(argv, programs.as_slice())
    }

    fn version(&self, output: &str) -> (r: VersionProbe) {
        match Version::find_in(output) {
            Some(v) => if text::contains(output, "grok") {
                VersionProbe::Available(v)
            } else {
                VersionProbe::Unparsable(text::trim(output))
            },
            None => VersionProbe::Unparsable(text::trim(output)),
        }
    }

    fn resume_args(&self, version: Version, agent_session_id: &str) -> (r: Option<Vec<String>>) {
        None
    }

    fn pin_args(&self, version: Version, new_id: &str) -> (r: Option<Vec<String>>) {
        None
    }

    fn headless_args(&self, prompt: &str) -> (r: Option<Vec<String>>) {
        None
    }

    fn initial_prompt_args(&self, prompt: &str) -> (r: Option<Vec<String>>) {
        None
    }
}

impl AgentFallback for Grok {
    open spec fn seen(&self, tail: Seq<Seq<char>>) -> Option<Detected> {
        None
    }

    fn detect(&self, tail: &[&str]) -> (r: Option<DetectionResult>) {
        None
    }
}

impl AgentHooks for Grok {
    open spec fn host_text(&self) -> Seq<char> {
        "grok"@
    }

    open spec fn installs(&self) -> Seq<Entry> {
        Seq::empty()
    }

    open spec fn via_hook(&self) -> bool {
        false
    }

    open spec fn knows_env(&self, has_grok_session: bool) -> bool {
        has_grok_session
    }

    open spec fn conversation(&self, v: JsonView) -> Option<Seq<char>> {
        session_of(v)
    }

    open spec fn meaning(&self, v: JsonView) -> Seq<Happening> {
        Seq::empty()
    }

    open spec fn holding(&self, v: JsonView) -> Option<Seq<char>> {
        held_key(false, v)
    }

    open spec fn releasing(&self, v: JsonView) -> Released {
        freed_by(v)
    }

    open spec fn output_of(&self, a: Answer) -> Option<Seq<char>> {
        None
    }

    open spec fn directory(&self, v: JsonView) -> Option<Seq<char>> {
        cwd_of(v)
    }

    open spec fn pid_of(&self, env: Seq<(String, String)>, ppid: int) -> Option<int> {
        None
    }

    open spec fn headless_start(&self, v: JsonView) -> bool {
        false
    }

    open spec fn hold_seconds(&self) -> int {
        DEFAULT_HOLD_TIMEOUT as int
    }

    open spec fn hint(&self) -> Option<Seq<char>> {
        None
    }

    fn host(&self) -> (r: &'static str) {
        "grok"
    }

    fn install_spec(&self) -> (r: Vec<HookInstall>) {
        let v: Vec<HookInstall> = Vec::new();
        proof {
            assert(entries(v@) =~= Seq::<Entry>::empty());
        }
        v
    }

    fn decision_via_hook(&self) -> (r: bool) {
        false
    }

    fn host_matches_env(&self, has_grok_session: bool) -> (r: bool) {
        has_grok_session
    }

    fn agent_session_id(&self, payload: &Json) -> (r: Option<String>) {
        hooks::session_id(payload)
    }

    fn parse(&self, payload: &Json) -> (r: Vec<AgoraEvent>) {
        no_events()
    }

    fn hold_key(&self, payload: &Json) -> (r: Option<String>) {
        hooks::generic_hold_key(false, payload)
    }

    fn release_for(&self, payload: &Json) -> (r: Release) {
        hooks::generic_release(payload)
    }

    fn decision_output(&self, decision: &Decision) -> (r: Option<String>) {
        None
    }

    fn working_directory(&self, payload: &Json) -> (r: Option<String>) {
        hooks::cwd(payload)
    }

    fn agent_pid(&self, env: &[(String, String)], ppid: u32) -> (r: Option<u32>) {
        None
    }

    fn is_headless(&self, payload: &Json) -> (r: bool) {
        false
    }

    fn hold_timeout(&self) -> (r: u64) {
        DEFAULT_HOLD_TIMEOUT
    }

    fn install_hint(&self) -> (r: Option<String>) {
        None
    }
}

} // verus!
