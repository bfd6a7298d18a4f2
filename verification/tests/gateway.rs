//! Terminals: characters that come in pieces, and how a terminal is let go.

use agora::gateway::{
    after_wait, begin_detach, exit_of, final_command, launch, Detach, GatewayError, Utf8Stream,
    Waited, WriteCmd, Writer, TERM,
};
use agora::runtime::{AttachSpec, Exit, Size};

#[test]
fn a_character_split_across_reads_survives() {
    let bytes = "框".as_bytes();
    let mut s = Utf8Stream::default();
    let mut out = s.push(&bytes[..1]);
    out.push_str(&s.push(&bytes[1..]));
    assert_eq!(out, "框");
}

#[test]
fn a_character_split_three_ways_survives() {
    let bytes = "😀".as_bytes();
    let mut s = Utf8Stream::default();
    let mut out = String::new();
    for b in bytes {
        out.push_str(&s.push(std::slice::from_ref(b)));
    }
    assert_eq!(out, "😀");
}

#[test]
fn garbage_becomes_replacement_and_does_not_stall() {
    let mut s = Utf8Stream::default();
    assert_eq!(s.push(&[b'a', 0xff, b'b']), "a\u{FFFD}b");
    assert!(s.carry().is_empty());
}

#[test]
fn carry_never_exceeds_three_bytes() {
    let mut s = Utf8Stream::default();
    for _ in 0..100 {
        s.push(&[0xf0]);
        assert!(s.carry().len() <= 3);
    }
}

#[test]
fn whole_texts_come_out_as_std_reads_them() {
    let cases: [&[u8]; 6] = [
        b"plain",
        "é中😀".as_bytes(),
        &[0xc0, 0x80, b'x'],
        &[0xed, 0xa0, 0x80, b'x'],
        &[0xf4, 0x90, 0x80, 0x80, b'x'],
        &[0xe4, 0xb8, b'x'],
    ];
    for c in cases {
        assert_eq!(
            Utf8Stream::default().push(c),
            String::from_utf8_lossy(c).into_owned()
        );
    }
}

#[test]
fn a_terminal_is_started_with_the_program_and_its_kind() {
    let spec = AttachSpec {
        argv: vec!["tmux".into(), "attach".into()],
        env: vec![("A".into(), "1".into())],
    };
    let size = Size { cols: 80, rows: 24 };
    let l = launch(&spec, size).unwrap();
    assert_eq!(l.program, "tmux");
    assert_eq!(l.args, vec!["attach"]);
    assert!(l.env.contains(&("TERM".to_owned(), TERM.to_owned())));
    assert!(l.env.contains(&("A".to_owned(), "1".to_owned())));
    let none = AttachSpec {
        argv: vec![],
        env: vec![],
    };
    assert_eq!(launch(&none, size), Err(GatewayError::EmptyArgv));
}

#[test]
fn an_end_is_a_code_or_a_signal() {
    assert_eq!(exit_of(&Waited::Success), Exit::Code(0));
    assert_eq!(exit_of(&Waited::Code(3)), Exit::Code(3));
    assert_eq!(
        exit_of(&Waited::Signal("Hangup".into())),
        Exit::Signal("hangup".into())
    );
    assert_eq!(
        exit_of(&Waited::Signal("ÄΣ".into())),
        Exit::Signal("ÄΣ".to_lowercase())
    );
    assert_eq!(exit_of(&Waited::Failed), Exit::Signal("unknown".into()));
}

#[test]
fn input_is_ended_only_for_those_who_are_gone() {
    assert_eq!(begin_detach(true), Detach::Releasing);
    assert_eq!(begin_detach(false), Detach::HangingUp);
    let gone = after_wait(Detach::HangingUp, true);
    assert_eq!(final_command(gone), WriteCmd::Release);
    let living = after_wait(Detach::HangingUp, false);
    assert_eq!(living, Detach::Leaking);
    assert_ne!(final_command(living), WriteCmd::Release);
    assert_eq!(Writer::Open.tell(WriteCmd::Release), Writer::Released);
    assert_eq!(
        Writer::Open.tell(WriteCmd::Data { written: true }),
        Writer::Open
    );
    assert_eq!(Writer::Open.tell(WriteCmd::Closed), Writer::Leaked);
}
