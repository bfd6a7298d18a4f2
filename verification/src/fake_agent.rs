//! An agent that does what a script says, line by line.

use crate::num;
use crate::text::{self, texts};
use vstd::prelude::*;

verus! {

pub const USAGE: &'static str =
    "用法: agora fake-agent <script-file> | -e \"print a; sleep 100; exit 0\"";

/// Where the script is.
#[derive(Debug, PartialEq, Eq)]
pub enum Script {
    /// In the command line, its lines between semicolons.
    Inline(Vec<String>),
    File(String),
    /// Nowhere: the usage is shown, and the exit code is 2.
    Usage,
}

/// Each of some texts without the white space round it.
pub open spec fn each_trimmed(v: Seq<Seq<char>>) -> Seq<Seq<char>> {
    v.map_values(|s: Seq<char>| text::trimmed(s))
}

fn trim_each(v: Vec<String>) -> (out: Vec<String>)
    ensures
        texts(out@) == each_trimmed(texts(v@)),
{
    let mut out: Vec<String> = Vec::new();
    let mut i: usize = 0;
    let ghost want = each_trimmed(texts(v@));
    proof {
        assert(texts(out@) =~= want.take(0));
    }
    while i < v.len()
        invariant
            i <= v@.len(),
            want == each_trimmed(texts(v@)),
            texts(out@) == want.take(i as int),
        decreases v@.len() - i,
    {
        let ghost was = texts(out@);
        let t = text::trim(v[i].as_str());
        proof {
            assert(texts(v@)[i as int] == v@[i as int]@);
            assert(want[i as int] == t@);
        }
        out.push(t);
        proof {
            assert(texts(out@) =~= was.push(t@));
            assert(want.take(i + 1) =~= want.take(i as int).push(want[i as int]));
        }
        i += 1;
    }
    proof {
        assert(want.take(i as int) =~= want);
    }
    out
}

/// Where the script is.
pub fn script(args: &[&str]) -> (r: Script)
    ensures
        match r {
            Script::Inline(v) => args@.len() == 2 && args@[0]@ == "-e"@ && texts(v@) == each_trimmed(
                text::split(args@[1]@, ';'),
            ),
            Script::File(p) => args@.len() == 1 && p@ == args@[0]@,
            Script::Usage => args@.len() != 1 && !(args@.len() == 2 && args@[0]@ == "-e"@),
        },
{
    if args.len() == 2 && text::same(args[0], "-e") {
        Script::Inline(trim_each(text::split_char(args[1], ';')))
    } else if args.len() == 1 {
        Script::File(args[0].to_owned())
    } else {
        Script::Usage
    }
}

/// The lines of a script in a file.
pub fn file_lines(content: &str) -> (out: Vec<String>)
    ensures
        texts(out@) == each_trimmed(text::lines(content@)),
{
    trim_each(text::lines_of(content))
}

/// What a line says to do.
#[derive(Debug, PartialEq, Eq)]
pub enum Instruction {
    Print(String),
    /// To wait so many milliseconds.
    Sleep(u64),
    /// To wait for a line.
    Read,
    /// Not to end when the terminal goes away.
    IgnoreHup,
    Exit(i32),
    Unknown(String),
}

/// The model of an [`Instruction`].
pub enum Order {
    Print(Seq<char>),
    Sleep(nat),
    Read,
    IgnoreHup,
    Exit(int),
    Unknown(Seq<char>),
}

impl View for Instruction {
    type V = Order;

    open spec fn view(&self) -> Order {
        match self {
            Instruction::Print(s) => Order::Print(s@),
            Instruction::Sleep(n) => Order::Sleep(*n as nat),
            Instruction::Read => Order::Read,
            Instruction::IgnoreHup => Order::IgnoreHup,
            Instruction::Exit(c) => Order::Exit(*c as int),
            Instruction::Unknown(s) => Order::Unknown(s@),
        }
    }
}

/// The two parts of a line: the word for what to do, and what with.
pub open spec fn parts(line: Seq<char>) -> (Seq<char>, Seq<char>) {
    match text::parted(line, ' ') {
        Some((a, b)) => (a, b),
        None => (line, ""@),
    }
}

/// The exit code that a text writes, or 0.
pub open spec fn code_in(s: Seq<char>) -> int {
    match num::signed(s) {
        Some(n) => if i32::MIN <= n <= i32::MAX {
            n
        } else {
            0
        },
        None => 0,
    }
}

/// What a line says to do.
pub open spec fn order(line: Seq<char>) -> Order {
    let (word, arg) = parts(line);
    if word == "print"@ {
        Order::Print(arg)
    } else if word == "sleep"@ {
        Order::Sleep(text::or_else(num::unsigned(arg, u64::MAX as nat), 0))
    } else if word == "read"@ {
        Order::Read
    } else if word == "ignore-hup"@ {
        Order::IgnoreHup
    } else if word == "exit"@ {
        Order::Exit(code_in(arg))
    } else {
        Order::Unknown(word)
    }
}

/// What a line says to do.
pub fn instruction(line: &str) -> (r: Instruction)
    ensures
        r@ == order(line@),
{
    let (word, arg) = match text::split_once(line, ' ') {
        Some((a, b)) => (a, b),
        None => (line.to_owned(), "".to_owned()),
    };
    if text::same(word.as_str(), "print") {
        Instruction::Print(arg)
    } else if text::same(word.as_str(), "sleep") {
        Instruction::Sleep(
            match num::parse_unsigned(arg.as_str(), u64::MAX) {
                Some(n) => n,
                None => 0,
            },
        )
    } else if text::same(word.as_str(), "read") {
        Instruction::Read
    } else if text::same(word.as_str(), "ignore-hup") {
        Instruction::IgnoreHup
    } else if text::same(word.as_str(), "exit") {
        let v = text::chars_of(arg.as_str());
        let code: i32 = match num::parse_signed_chars(&v) {
            Some(n) => if -2_147_483_648 <= n && n <= 2_147_483_647 {
                n as i32
            } else {
                0
            },
            None => 0,
        };
        Instruction::Exit(code)
    } else {
        Instruction::Unknown(word)
    }
}

/// Whether a line says anything: it is neither empty nor a remark.
pub open spec fn says(line: Seq<char>) -> bool {
    line.len() > 0 && line[0] != '#'
}

/// The lines that say something.
pub open spec fn orders(lines: Seq<Seq<char>>) -> Seq<Order>
    decreases lines.len(),
{
    if lines.len() == 0 {
        Seq::empty()
    } else if says(lines.last()) {
        orders(lines.drop_last()).push(order(lines.last()))
    } else {
        orders(lines.drop_last())
    }
}

/// What a script says to do, one after the other.
pub fn instructions(lines: &[String]) -> (out: Vec<Instruction>)
    ensures
        out@.map_values(|i: Instruction| i@) == orders(texts(lines@)),
{
    let mut out: Vec<Instruction> = Vec::new();
    let mut i: usize = 0;
    let ghost all = texts(lines@);
    proof {
        assert(all.take(0) =~= Seq::<Seq<char>>::empty());
        assert(out@.map_values(|i: Instruction| i@) =~= orders(all.take(0)));
    }
    while i < lines.len()
        invariant
            all == texts(lines@),
            i <= lines@.len(),
            out@.map_values(|i: Instruction| i@) == orders(all.take(i as int)),
        decreases lines@.len() - i,
    {
        proof {
            assert(all.take(i + 1).drop_last() =~= all.take(i as int));
            assert(all.take(i + 1).last() == lines@[i as int]@);
        }
        let v = text::chars_of(lines[i].as_str());
        if v.len() > 0 && v[0] != '#' {
            let ghost was = out@.map_values(|i: Instruction| i@);
            let x = instruction(lines[i].as_str());
            out.push(x);
            proof {
                assert(out@.map_values(|i: Instruction| i@) =~= was.push(x@));
            }
        }
        i += 1;
    }
    proof {
        assert(all.take(i as int) =~= all);
    }
    out
}

/// What is written for the line that was waited for, and the exit code where that ends it: nothing more
/// ends it well, an error does not. `read` is what was read, where that went well.
pub open spec fn heard(read: Result<Seq<char>, Seq<char>>) -> (Seq<char>, Option<int>) {
    match read {
        Ok(s) => if s.len() == 0 {
            ("read:EOF"@, Some(0))
        } else {
            ("read:"@ + text::trimmed_end(s), None)
        },
        Err(e) => ("read:ERR "@ + e, Some(1)),
    }
}

/// What is written for the line that was waited for, and the exit code where that ends it.
pub fn read_reply(read: Result<&str, &str>) -> (r: (String, Option<i32>))
    ensures
        ({
            let h = heard(
                match read {
                    Ok(s) => Ok(s@),
                    Err(e) => Err(e@),
                },
            );
            r.0@ == h.0 && match r.1 {
                Some(c) => h.1 == Some(c as int),
                None => h.1 is None,
            }
        }),
{
    match read {
        Ok(s) => if text::is_empty(s) {
            ("read:EOF".to_owned(), Some(0))
        } else {
            (text::cat("read:", text::trim_end(s).as_str()), None)
        },
        Err(e) => (text::cat("read:ERR ", e), Some(1)),
    }
}

/// What is said of a line that is not known; the exit code is 2.
pub fn unknown_text(word: &str) -> (out: String)
    ensures
        out@ == "fake-agent: 未知指令 "@ + text::debug_text(word@),
{
    text::cat("fake-agent: 未知指令 ", text::debug(word).as_str())
}

/// A line of a script is its word and what stands behind the first blank.
pub proof fn lemma_what_a_line_orders(arg: Seq<char>, n: u64, word: Seq<char>)
    requires
        !word.contains(' '),
    ensures
        order("print "@ + arg) == Order::Print(arg),
        order("read"@) is Read,
        order("ignore-hup"@) is IgnoreHup,
        order("sleep "@ + num::decimal(n as nat)) == Order::Sleep(n as nat),
        order("exit "@ + num::decimal(n as nat)) is Exit,
        word != "print"@ && word != "sleep"@ && word != "read"@ && word != "ignore-hup"@ && word
            != "exit"@ ==> order(word + seq![' '] + arg) == Order::Unknown(word),
{
    reveal_strlit("print ");
    reveal_strlit("print");
    reveal_strlit("read");
    reveal_strlit("ignore-hup");
    reveal_strlit("sleep ");
    reveal_strlit("sleep");
    reveal_strlit("exit ");
    reveal_strlit("exit");
    assert("print"@.len() == 5 && "print"@[0] == 'p');
    assert("read"@.len() == 4 && "read"@[0] == 'r');
    assert("ignore-hup"@.len() == 10);
    assert("sleep"@.len() == 5 && "sleep"@[0] == 's');
    assert("exit"@.len() == 4 && "exit"@[0] == 'e');
    let d = num::decimal(n as nat);
    num::lemma_decimal(n as nat);
    assert(num::digit(d[0]));
    assert(num::without_plus(d) == d);
    assert("print "@ + arg =~= "print"@ + seq![' '] + arg);
    assert("sleep "@ + d =~= "sleep"@ + seq![' '] + d);
    assert("exit "@ + d =~= "exit"@ + seq![' '] + d);
    text::lemma_parted("print"@, ' ', arg);
    text::lemma_parted("sleep"@, ' ', d);
    text::lemma_parted("exit"@, ' ', d);
    text::lemma_parted("read"@, ' ', d);
    text::lemma_parted("ignore-hup"@, ' ', d);
    text::lemma_parted(word, ' ', arg);
}

/// A line that was heard is told without its end; where there is nothing more to hear the agent ends well,
/// and where it cannot hear it fails.
pub proof fn lemma_what_is_heard(s: Seq<char>, e: Seq<char>)
    ensures
        s.len() > 0 ==> heard(Ok::<Seq<char>, Seq<char>>(s)).1 is None,
        heard(Ok::<Seq<char>, Seq<char>>(Seq::empty())).1 == Some(0int),
        heard(Err::<Seq<char>, Seq<char>>(e)).1 == Some(1int),
{
}

/// A script is played line by line; empty lines and those that begin with a hash are none.
pub proof fn lemma_a_script_is_played(lines: Seq<Seq<char>>, l: Seq<char>)
    ensures
        orders(lines.push(l)) == (if l.len() == 0 || l[0] == '#' {
            orders(lines)
        } else {
            orders(lines).push(order(l))
        }),
        orders(Seq::empty()) == Seq::<Order>::empty(),
{
    assert(lines.push(l).drop_last() =~= lines);
}

} // verus!
