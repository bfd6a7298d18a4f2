//! `agora tls`: the certificate of this node.

use crate::config::TlsSection;
use crate::text::{self, strs};
use vstd::prelude::*;

verus! {

pub const USAGE: &'static str = "用法: agora tls fingerprint | agora tls rotate-key";

/// What a command line asks for.
#[derive(Clone, Copy, Debug, PartialEq, Eq, Structural)]
pub enum TlsCommand {
    Fingerprint,
    RotateKey,
    /// It is none of these: the usage is shown, and the exit code is 2.
    Usage,
}

/// Who keeps the certificate.
#[derive(Clone, Copy, Debug, PartialEq, Eq, Structural)]
pub enum Mode {
    SelfSigned,
    External,
}

impl Mode {
    pub open spec fn word(self) -> Seq<char> {
        match self {
            Mode::SelfSigned => "self-signed"@,
            Mode::External => "external"@,
        }
    }

    pub fn as_str(self) -> (r: &'static str)
        ensures
            r@ == self.word(),
    {
        match self {
            Mode::SelfSigned => "self-signed",
            Mode::External => "external",
        }
    }
}

/// What a command line asks for.
pub open spec fn asked(args: Seq<Seq<char>>) -> TlsCommand {
    if args.len() == 1 && args[0] == "fingerprint"@ {
        TlsCommand::Fingerprint
    } else if args.len() == 1 && args[0] == "rotate-key"@ {
        TlsCommand::RotateKey
    } else {
        TlsCommand::Usage
    }
}

/// What a command line asks for.
pub fn parse(args: &[&str]) -> (r: TlsCommand)
    ensures
        r == asked(strs(args@)),
{
    proof {
        assert(strs(args@).len() == args@.len());
        if args@.len() > 0 {
            assert(strs(args@)[0] == args@[0]@);
        }
    }
    if args.len() == 1 && text::same(args[0], "fingerprint") {
        TlsCommand::Fingerprint
    } else if args.len() == 1 && text::same(args[0], "rotate-key") {
        TlsCommand::RotateKey
    } else {
        TlsCommand::Usage
    }
}

/// Who keeps the certificate, by the word for it.
pub open spec fn mode_in(word: Seq<char>) -> Option<Mode> {
    if word == "self-signed"@ {
        Some(Mode::SelfSigned)
    } else if word == "external"@ {
        Some(Mode::External)
    } else {
        None
    }
}

/// Who keeps the certificate, where the configuration says so in a word that is known.
pub fn mode_of(section: &TlsSection) -> (r: Option<Mode>)
    ensures
        r == mode_in(section.mode@),
{
    if text::same(section.mode.as_str(), "self-signed") {
        Some(Mode::SelfSigned)
    } else if text::same(section.mode.as_str(), "external") {
        Some(Mode::External)
    } else {
        None
    }
}

/// What is done with the certificate.
#[derive(Clone, Copy, Debug, PartialEq, Eq, Structural)]
pub enum Certificate {
    /// It is read, and made first where there is none.
    LoadOrGenerate,
    /// It is read; that there is none is an error.
    Load,
    /// It is made anew with another key.
    Generate,
    /// Nothing: its key is kept by others.
    Refuse,
}

/// What is done with a certificate on a command.
pub open spec fn certificate_for(command: TlsCommand, mode: Mode) -> Certificate {
    match (command, mode) {
        (TlsCommand::RotateKey, Mode::SelfSigned) => Certificate::Generate,
        (TlsCommand::RotateKey, Mode::External) => Certificate::Refuse,
        (_, Mode::SelfSigned) => Certificate::LoadOrGenerate,
        (_, Mode::External) => Certificate::Load,
    }
}

/// What is done with the certificate where its fingerprint is asked for.
pub fn fingerprint(mode: Mode) -> (r: Certificate)
    ensures
        r == certificate_for(TlsCommand::Fingerprint, mode),
{
    match mode {
        Mode::SelfSigned => Certificate::LoadOrGenerate,
        Mode::External => Certificate::Load,
    }
}

/// What is done with the certificate where another key is asked for.
pub fn rotate_key(mode: Mode) -> (r: Certificate)
    ensures
        r == certificate_for(TlsCommand::RotateKey, mode),
{
    match mode {
        Mode::SelfSigned => Certificate::Generate,
        Mode::External => Certificate::Refuse,
    }
}

/// The exit code: 2 where the command line asks for nothing that there is, 1 where it could not be done.
pub fn exit_code(command: TlsCommand, done: bool) -> (r: i32)
    ensures
        r == (if command == TlsCommand::Usage {
            2i32
        } else if done {
            0i32
        } else {
            1i32
        }),
{
    if command == TlsCommand::Usage {
        2
    } else if done {
        0
    } else {
        1
    }
}

/// A key that others keep is never replaced.
pub proof fn lemma_external_key_is_kept(command: TlsCommand)
    ensures
        certificate_for(command, Mode::External) != Certificate::Generate,
        certificate_for(command, Mode::External) != Certificate::LoadOrGenerate,
{
}

/// The words for the two ways to keep a certificate are read back, and no other word is.
pub proof fn lemma_modes_read_back(m: Mode, word: Seq<char>)
    ensures
        mode_in(m.word()) == Some(m),
        mode_in(word) matches Some(n) ==> n.word() == word,
{
    reveal_strlit("self-signed");
    reveal_strlit("external");
    assert("self-signed"@.len() == 11);
    assert("external"@.len() == 8);
}

/// A certificate is made anew exactly where that is asked for and it is kept here; one that others keep is
/// only read, and to make it anew is refused.
pub proof fn lemma_when_a_certificate_is_made(command: TlsCommand, mode: Mode)
    ensures
        certificate_for(command, mode) is Generate <==> command is RotateKey && mode is SelfSigned,
        certificate_for(command, mode) is Refuse <==> command is RotateKey && mode is External,
        certificate_for(command, mode) is Load <==> !(command is RotateKey) && mode is External,
{
}

/// Each command is asked for by its word alone, and every other line is answered with the usage.
pub proof fn lemma_what_is_asked(args: Seq<Seq<char>>)
    ensures
        asked(args) is Fingerprint <==> args == seq!["fingerprint"@],
        asked(args) is RotateKey <==> args == seq!["rotate-key"@],
{
    reveal_strlit("fingerprint");
    reveal_strlit("rotate-key");
    assert("fingerprint"@.len() == 11);
    assert("rotate-key"@.len() == 10);
    if args.len() == 1 {
        assert(args =~= seq![args[0]]);
    }
    assert(seq!["fingerprint"@][0] == "fingerprint"@);
    assert(seq!["rotate-key"@][0] == "rotate-key"@);
}

} // verus!
