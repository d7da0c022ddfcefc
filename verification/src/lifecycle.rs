//! What the process is asked to do, and how it ends.

use vstd::prelude::*;

use crate::text::chars_of;
use crate::text::contains;
use crate::text::occurs;
use crate::text::same;
use crate::text::string_of;

verus! {

/// What the command line asks for.
#[derive(Debug)]
pub enum Command {
    Serve,
    Healthcheck,
}

/// Read the first argument of the command line.
pub fn command(arg: Option<&str>) -> (r: Result<Command, String>)
    ensures
        match arg {
            None => r matches Ok(c) && c is Serve,
            Some(arg) => if arg@ == "--healthcheck"@ {
                r matches Ok(c) && c is Healthcheck
            } else {
                r matches Err(e) && e@ == "unknown argument '"@ + arg@
                    + "' (supported: --healthcheck)"@
            },
        },
{
    match arg {
        None => Ok(Command::Serve),
        Some(arg) => if same(arg, "--healthcheck") {
            Ok(Command::Healthcheck)
        } else {
            let mut message = "unknown argument '".to_owned();
            message.append(arg);
            message.append("' (supported: --healthcheck)");
            Err(message)
        },
    }
}

/// Why the tasks of the bridge were heard of.
#[derive(Debug)]
pub enum TaskExit {
    /// A task returned; its name, and its result as text.
    Finished { name: String, result: String },
    /// A task panicked; the error.
    Panicked(String),
    /// No task is left.
    NoneLeft,
}

/// Judge the end of a task. A task finishing during a requested shutdown is
/// not a failure; any other end is, so that the container runtime restarts the
/// process.
pub fn run_outcome(cancelled: bool, exit: TaskExit) -> (r: Result<(), String>)
    ensures
        cancelled <==> r is Ok,
        r matches Err(e) ==> match exit {
            TaskExit::Finished { name, result } => e@ == "critical task '"@ + name@
                + "' exited unexpectedly: "@ + result@,
            TaskExit::Panicked(error) => e@ == "critical task panicked: "@ + error@,
            TaskExit::NoneLeft => e@ == "all tasks exited unexpectedly"@,
        },
{
    if cancelled {
        return Ok(());
    }
    match exit {
        TaskExit::Finished { name, result } => {
            let mut message = "critical task '".to_owned();
            message.append(name.as_str());
            message.append("' exited unexpectedly: ");
            message.append(result.as_str());
            Err(message)
        },
        TaskExit::Panicked(error) => {
            let mut message = "critical task panicked: ".to_owned();
            message.append(error.as_str());
            Err(message)
        },
        TaskExit::NoneLeft => Err("all tasks exited unexpectedly".to_owned()),
    }
}

/// What stands before the first line feed of `s`.
pub open spec fn before_line_feed(s: Seq<char>) -> Seq<char>
    decreases s.len(),
{
    if s.len() == 0 || s[0] == '\n' {
        Seq::empty()
    } else {
        seq![s[0]] + before_line_feed(s.drop_first())
    }
}

/// The first line of `s`, without its line feed and the carriage return that
/// may stand before that.
pub open spec fn first_line(s: Seq<char>) -> Seq<char> {
    let line = before_line_feed(s);
    if line.len() < s.len() && line.len() > 0 && line.last() == '\r' {
        line.drop_last()
    } else {
        line
    }
}

fn first_line_of(s: &str) -> (line: String)
    ensures
        line@ == first_line(s@),
{
    let chars = chars_of(s);
    let mut i: usize = 0;
    assert(s@.skip(0) =~= s@);
    assert(s@.take(0) =~= Seq::empty());
    assert(Seq::<char>::empty() + before_line_feed(s@) =~= before_line_feed(s@));
    while i < chars.len() && chars[i] != '\n'
        invariant
            chars@ == s@,
            i <= chars@.len(),
            s@.take(i as int) + before_line_feed(s@.skip(i as int)) == before_line_feed(s@),
        decreases chars@.len() - i,
    {
        let ghost rest = s@.skip(i as int);
        assert(rest.drop_first() =~= s@.skip(i + 1));
        i += 1;
        assert(s@.take(i - 1) + (seq![rest[0]] + before_line_feed(s@.skip(i as int))) =~= s@.take(
            i as int,
        ) + before_line_feed(s@.skip(i as int)));
    }
    assert(before_line_feed(s@.skip(i as int)) =~= Seq::<char>::empty());
    assert(before_line_feed(s@) =~= s@.take(i as int));
    if i < chars.len() && i > 0 && chars[i - 1] == '\r' {
        assert(s@.take(i as int).drop_last() =~= chars@.subrange(0, i - 1));
        string_of(&chars, 0, i - 1)
    } else {
        assert(s@.take(i as int) =~= chars@.subrange(0, i as int));
        string_of(&chars, 0, i)
    }
}

/// Judge the answer of the local health endpoint: its status line must say
/// 200.
pub fn check_health_response(response: &str) -> (r: Result<(), String>)
    ensures
        match r {
            Ok(()) => occurs(first_line(response@), " 200 "@),
            Err(e) => !occurs(first_line(response@), " 200 "@) && e@
                == "unexpected health response: "@ + first_line(response@),
        },
{
    let line = first_line_of(response);
    if contains(line.as_str(), " 200 ") {
        return Ok(());
    }
    let mut message = "unexpected health response: ".to_owned();
    message.append(line.as_str());
    Err(message)
}

/// The first line ends where the first line feed stands, or with the text; one
/// carriage return before that line feed is not part of it.
pub proof fn lemma_first_line_ends_at_the_line_feed(line: Seq<char>, rest: Seq<char>)
    requires
        forall|i: int| 0 <= i < line.len() ==> #[trigger] line[i] != '\n',
    ensures
        first_line(line) == line,
        line.len() == 0 || line.last() != '\r' ==> first_line(line.push('\n') + rest) == line,
        first_line(line.push('\r').push('\n') + rest) == line,
{
    lemma_before_line_feed(line, Seq::empty());
    lemma_before_line_feed(line, seq!['\n'] + rest);
    assert(line + Seq::<char>::empty() =~= line);
    assert(line + (seq!['\n'] + rest) =~= line.push('\n') + rest);
    let returned = line.push('\r');
    assert forall|i: int| 0 <= i < returned.len() implies #[trigger] returned[i] != '\n' by {
        if i < line.len() {
            assert(line[i] != '\n');
        }
    }
    lemma_before_line_feed(returned, seq!['\n'] + rest);
    assert(returned + (seq!['\n'] + rest) =~= returned.push('\n') + rest);
    assert(returned.drop_last() =~= line);
}

proof fn lemma_before_line_feed(line: Seq<char>, rest: Seq<char>)
    requires
        forall|i: int| 0 <= i < line.len() ==> #[trigger] line[i] != '\n',
        rest.len() == 0 || rest[0] == '\n',
    ensures
        before_line_feed(line + rest) == line,
    decreases line.len(),
{
    let s = line + rest;
    if line.len() == 0 {
        assert(s =~= rest);
        assert(line =~= Seq::empty());
    } else {
        let tail = line.drop_first();
        assert(s[0] == line[0]);
        assert(s.drop_first() =~= tail + rest);
        assert forall|i: int| 0 <= i < tail.len() implies #[trigger] tail[i] != '\n' by {
            assert(line[i + 1] != '\n');
        }
        lemma_before_line_feed(tail, rest);
        assert(seq![line[0]] + tail =~= line);
    }
}

} // verus!
