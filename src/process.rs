//! What running an external command comes to: its command line for messages, and its
//! output or the error that describes how it failed.
use vstd::prelude::*;

use crate::device::trim;
use crate::text::{lemma_skip_spaces, spaces_back, spaces_end};

verus! {

/// How a command ended, as the operating system reported it. Output that is not UTF-8
/// is given as the error of decoding it.
#[derive(Debug)]
pub enum CommandOutcome {
    /// The command could not be started.
    NotStarted(String),
    /// The command ran.
    Exited { success: bool, stdout: Result<String, String>, stderr: Result<String, String> },
}

/// The command and its arguments, separated by spaces.
pub open spec fn command_line_of(command: Seq<char>, args: Seq<String>) -> Seq<char>
    decreases args.len(),
{
    if args.len() == 0 {
        command
    } else {
        command_line_of(command, args.drop_last()) + " "@ + args.last()@
    }
}

pub fn command_line(command: &str, args: &Vec<String>) -> (r: String)
    ensures
        r@ == command_line_of(command@, args@),
{
    let mut line = String::from_str(command);
    let mut i: usize = 0;
    while i < args.len()
        invariant
            i <= args@.len(),
            line@ == command_line_of(command@, args@.subrange(0, i as int)),
        decreases args.len() - i,
    {
        line.append(" ");
        line.append(args[i].as_str());
        proof {
            let s = args@.subrange(0, i + 1);
            assert(s.drop_last() =~= args@.subrange(0, i as int));
        }
        i = i + 1;
    }
    assert(args@.subrange(0, args@.len() as int) =~= args@);
    line
}

/// The first line of `s` once trimmed.
pub open spec fn first_line(s: Seq<char>) -> Seq<char> {
    let t = trim(s);
    if exists|i: int| 0 <= i < t.len() && t[i] == '\n' {
        let i = choose|i: int|
            0 <= i < t.len() && t[i] == '\n' && forall|j: int| 0 <= j < i ==> #[trigger] t[j] != '\n';
        t.subrange(0, i)
    } else {
        t
    }
}

/// What a command's outcome comes to: its standard output, or an error message.
pub open spec fn command_result_of(line: Seq<char>, outcome: CommandOutcome) -> Result<Seq<char>, Seq<char>> {
    match outcome {
        CommandOutcome::NotStarted(e) => Err("Failed to execute `"@ + line + "`: "@ + e@),
        CommandOutcome::Exited { success, stdout, stderr } => if !success {
            match stderr {
                Err(e) => Err("Error during reading `"@ + line + "` output: "@ + e@),
                Ok(text) => Err("`"@ + line + "` failed with error: "@ + first_line(text@)),
            }
        } else {
            match stdout {
                Err(e) => Err("Error during reading `"@ + line + "` output: "@ + e@),
                Ok(text) => Ok(text@),
            }
        },
    }
}

fn first_line_exec(s: &str) -> (r: String)
    ensures
        r@ == first_line(s@),
{
    let a = spaces_end(s, 0);
    proof {
        lemma_skip_spaces(s@, 0);
    }
    let b = spaces_back(s, s.unicode_len());
    if a >= b {
        let r = String::new();
        proof {
            let t = trim(s@);
            assert(t =~= Seq::<char>::empty());
            assert(r@ =~= t);
        }
        return r;
    }
    let t = s.substring_char(a, b);
    assert(t@ == trim(s@));
    let n = t.unicode_len();
    let mut i: usize = 0;
    while i < n && t.get_char(i) != '\n'
        invariant
            i <= n,
            n == t@.len(),
            forall|j: int| 0 <= j < i ==> #[trigger] t@[j] != '\n',
        decreases n - i,
    {
        i = i + 1;
    }
    if i < n {
        proof {
            let k = choose|k: int|
                0 <= k < t@.len() && t@[k] == '\n' && forall|j: int| 0 <= j < k ==> #[trigger] t@[j] != '\n';
            if k < i {
                assert(t@[k] != '\n');
            }
            if k > i {
                assert(t@[i as int] != '\n');
            }
        }
    } else {
        assert(t@.subrange(0, n as int) =~= t@);
    }
    String::from_str(t.substring_char(0, i))
}

/// The output of a command that ran successfully, or the message that says how it failed.
pub fn command_result(command: &str, args: &Vec<String>, outcome: CommandOutcome) -> (r: Result<String, String>)
    ensures
        match command_result_of(command_line_of(command@, args@), outcome) {
            Ok(o) => r matches Ok(x) && x@ == o,
            Err(m) => r matches Err(e) && e@ == m,
        },
{
    let line = command_line(command, args);
    match outcome {
        CommandOutcome::NotStarted(e) => {
            let mut m = String::from_str("Failed to execute `");
            m.append(line.as_str());
            m.append("`: ");
            m.append(e.as_str());
            Err(m)
        },
        CommandOutcome::Exited { success, stdout, stderr } => {
            let stream = if success {
                stdout
            } else {
                stderr
            };
            match stream {
                Err(e) => {
                    let mut m = String::from_str("Error during reading `");
                    m.append(line.as_str());
                    m.append("` output: ");
                    m.append(e.as_str());
                    Err(m)
                },
                Ok(text) => if success {
                    Ok(text)
                } else {
                    let mut m = String::from_str("`");
                    m.append(line.as_str());
                    m.append("` failed with error: ");
                    let first = first_line_exec(text.as_str());
                    m.append(first.as_str());
                    Err(m)
                },
            }
        },
    }
}

} // verus!
