//! The lines that a client in a browser sends out, where no console can be reached.

use vstd::prelude::*;
use vstd::string::*;
use crate::text::to_decimal;
use crate::text::decimal;

verus! {

/// A line of the log: its number, the build and the message.
pub open spec fn log_line(seq: u32, build: Seq<char>, message: Seq<char>) -> Seq<char> {
    "#"@ + decimal(seq as nat) + " ["@ + build + "] "@ + message
}

/// The line for a message. Lines are numbered, so that they can be put in order again; the
/// numbers start over when they run out.
pub fn log(seq: &mut u32, build: &str, message: &str) -> (line: String)
    ensures
        line@ == log_line(*old(seq), build@, message@),
        *final(seq) == (if *old(seq) == u32::MAX {
            0
        } else {
            (*old(seq) + 1) as u32
        }),
{
    let mut line: String = String::from_str("#");
    let n: String = to_decimal(*seq as u64);
    line.append(n.as_str());
    line.append(" [");
    line.append(build);
    line.append("] ");
    line.append(message);
    *seq =
    if *seq == u32::MAX {
        0
    } else {
        *seq + 1
    };
    line
}

/// The line of a panic.
pub fn panic_line(build: &str, info: &str) -> (line: String)
    ensures
        line@ == "PANIC ["@ + build@ + "] "@ + info@,
{
    let mut line: String = String::from_str("PANIC [");
    line.append(build);
    line.append("] ");
    line.append(info);
    line
}

/// The first line, with which the log begins.
pub fn init(seq: &mut u32, build: &str) -> (line: String)
    ensures
        line@ == log_line(*old(seq), build@, "boot"@),
        *final(seq) == (if *old(seq) == u32::MAX {
            0
        } else {
            (*old(seq) + 1) as u32
        }),
{
    log(seq, build, "boot")
}

/// A line has its number behind the sign, then the build in brackets, and ends with the message.
pub proof fn law_a_line_holds_its_message(seq: u32, build: Seq<char>, message: Seq<char>)
    ensures
        ({
            let line = log_line(seq, build, message);
            let (d, b, m) = (
                decimal(seq as nat).len() as int,
                build.len() as int,
                message.len() as int,
            );
            &&& line.len() == 5 + d + b + m
            &&& line[0] == '#'
            &&& line.subrange(1, 1 + d) == decimal(seq as nat)
            &&& line[1 + d] == ' ' && line[2 + d] == '['
            &&& line.subrange(3 + d, 3 + d + b) == build
            &&& line[3 + d + b] == ']' && line[4 + d + b] == ' '
            &&& line.subrange(5 + d + b, 5 + d + b + m) == message
        }),
{
    reveal_strlit("#");
    reveal_strlit(" [");
    reveal_strlit("] ");
}

} // verus!
