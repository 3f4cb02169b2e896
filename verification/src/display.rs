//! The short lines by which a tool call is shown while it runs and when it ends.
use vstd::prelude::*;
use vstd::string::*;
use crate::text::{
    byte_count, byte_len, chars_of, count_lines, lemma_parts_exist, line_count, parts_of,
    split_parts, take_chars, text_between, texts, trim, trimmed,
};

verus! {

/// How far a tool call has come.
#[derive(Clone, Copy, Debug, PartialEq, Eq, Structural)]
pub enum ToolDisplayStatus {
    /// It still runs.
    InProgress,
    /// It came to its end.
    Success,
    /// It failed.
    Error,
}

/// Sizes shown beside a tool call.
#[derive(Clone, Copy, Debug, PartialEq, Eq, Structural)]
pub struct ToolDisplayStats {
    pub matches: Option<u64>,
    pub lines: Option<u64>,
    pub bytes: Option<u64>,
}

impl Default for ToolDisplayStats {
    fn default() -> (r: ToolDisplayStats)
        ensures
            r == no_stats(),
    {
        ToolDisplayStats { matches: None, lines: None, bytes: None }
    }
}

/// Stats that hold no size.
pub open spec fn no_stats() -> ToolDisplayStats {
    ToolDisplayStats { matches: None, lines: None, bytes: None }
}

/// How a tool call is shown.
#[derive(Debug, PartialEq, Eq)]
pub struct ToolDisplay {
    /// What the tool was called with.
    pub args: String,
    pub status: ToolDisplayStatus,
    /// The words shown for the status.
    pub status_text: String,
    pub stats: ToolDisplayStats,
}

/// What a `ToolDisplay` holds.
pub struct Shown {
    pub args: Seq<char>,
    pub status: ToolDisplayStatus,
    pub status_text: Seq<char>,
    pub stats: ToolDisplayStats,
}

impl ToolDisplay {
    pub open spec fn view(&self) -> Shown {
        Shown {
            args: self.args@,
            status: self.status,
            status_text: self.status_text@,
            stats: self.stats,
        }
    }
}

/// The sizes of a text that a tool returned; none for the empty text.
pub open spec fn stats_of(text: Seq<char>) -> ToolDisplayStats {
    if text.len() == 0 {
        no_stats()
    } else {
        ToolDisplayStats {
            matches: None,
            lines: Some(line_count(text) as u64),
            bytes: Some(byte_len(text) as u64),
        }
    }
}

/// Measures a text that a tool returned.
pub fn text_stats(text: &str) -> (r: ToolDisplayStats)
    ensures
        r == stats_of(text@),
        text@.len() > 0 ==> (r.lines matches Some(n) && n == line_count(text@)),
        text@.len() > 0 ==> (r.bytes matches Some(n) && n == byte_len(text@)),
{
    if text.is_empty() {
        return ToolDisplayStats { matches: None, lines: None, bytes: None };
    }
    let lines: usize = count_lines(text);
    let bytes: usize = byte_count(text);
    ToolDisplayStats { matches: None, lines: Some(lines as u64), bytes: Some(bytes as u64) }
}

/// How a call that came to its end is shown.
pub open spec fn success_shown(args: Seq<char>) -> Shown {
    Shown {
        args,
        status: ToolDisplayStatus::Success,
        status_text: "ok"@,
        stats: no_stats(),
    }
}

/// Shows a call that came to its end.
pub fn success_display(args: &str) -> (r: ToolDisplay)
    ensures
        r@ == success_shown(args@),
{
    ToolDisplay {
        args: args.to_owned(),
        status: ToolDisplayStatus::Success,
        status_text: "ok".to_owned(),
        stats: ToolDisplayStats { matches: None, lines: None, bytes: None },
    }
}

/// The first line that holds more than whitespace, without the whitespace round
/// it; empty where there is none.
pub open spec fn first_filled(lines: Seq<Seq<char>>) -> Seq<char>
    decreases lines.len(),
{
    if lines.len() == 0 {
        Seq::empty()
    } else if trimmed(lines[0]).len() > 0 {
        trimmed(lines[0])
    } else {
        first_filled(lines.drop_first())
    }
}

/// The longest label of an error, in characters.
pub const ERROR_LABEL_LIMIT: usize = 64;

/// The words shown for an error with the given message.
pub open spec fn error_chip(message: Seq<char>) -> Seq<char> {
    let first = first_filled(parts_of(message, '\n'));
    if first.len() == 0 {
        "err"@
    } else if first.len() <= ERROR_LABEL_LIMIT {
        "err: "@ + first
    } else {
        "err: "@ + first.take(ERROR_LABEL_LIMIT - 1).push('…')
    }
}

/// Finds the first line that holds more than whitespace.
fn first_filled_line(message: &str) -> (r: String)
    ensures
        r@ == first_filled(parts_of(message@, '\n')),
{
    let lines = split_parts(message, '\n');
    let ghost all = texts(lines@);
    let mut i: usize = 0;
    assert(all.skip(0) =~= all);
    while i < lines.len()
        invariant
            i <= lines.len(),
            all == texts(lines@),
            first_filled(all) == first_filled(all.skip(i as int)),
            all == parts_of(message@, '\n'),
        decreases lines.len() - i,
    {
        proof {
            assert(all.skip(i as int).drop_first() =~= all.skip(i + 1));
            assert(all.skip(i as int)[0] == lines@[i as int]@);
        }
        let line = trim(lines[i].as_str());
        if !line.as_str().is_empty() {
            return line;
        }
        i += 1;
    }
    String::new()
}

/// The words shown for an error: its first line, shortened where it is long.
pub fn error_chip_text(message: &str) -> (r: String)
    ensures
        r@ == error_chip(message@),
{
    let first = first_filled_line(message);
    if first.as_str().is_empty() {
        return "err".to_owned();
    }
    let mut r = "err: ".to_owned();
    let count: usize = first.as_str().unicode_len();
    if count <= ERROR_LABEL_LIMIT {
        r.append(first.as_str());
    } else {
        let cut = take_chars(first.as_str(), ERROR_LABEL_LIMIT - 1);
        r.append(cut.as_str());
        r.push('…');
        assert(r@ =~= "err: "@ + first@.take(ERROR_LABEL_LIMIT - 1).push('…'));
    }
    r
}

/// How a call that failed is shown.
pub open spec fn error_shown(args: Seq<char>, message: Seq<char>) -> Shown {
    Shown {
        args,
        status: ToolDisplayStatus::Error,
        status_text: error_chip(message),
        stats: no_stats(),
    }
}

/// Shows a call that failed.
pub fn error_display(args: &str, message: &str) -> (r: ToolDisplay)
    ensures
        r@ == error_shown(args@, message@),
{
    ToolDisplay {
        args: args.to_owned(),
        status: ToolDisplayStatus::Error,
        status_text: error_chip_text(message),
        stats: ToolDisplayStats { matches: None, lines: None, bytes: None },
    }
}

// ---------------------------------------------------------------------------
// Calls that are still running
// ---------------------------------------------------------------------------

/// How a delegated task is shown while it runs: its name in brackets, beside the
/// size of what it was given.
pub open spec fn delegate_shown(task_name: Seq<char>, input_stats: ToolDisplayStats) -> Shown {
    Shown {
        args: seq!['['] + task_name + seq![']'],
        status: ToolDisplayStatus::InProgress,
        status_text: Seq::empty(),
        stats: input_stats,
    }
}

/// Shows a delegated task while it runs.
pub fn build_delegate_progress_display(task_name: &str, input_stats: ToolDisplayStats) -> (r: ToolDisplay)
    ensures
        r@ == delegate_shown(task_name@, input_stats),
{
    let mut args = String::new();
    args.push('[');
    args.append(task_name);
    args.push(']');
    assert(args@ =~= seq!['['] + task_name@ + seq![']']);
    ToolDisplay { args, status: ToolDisplayStatus::InProgress, status_text: String::new(), stats: input_stats }
}

/// How much is shown of each end of a long command, in characters.
pub const COMMAND_END_CHARS: usize = 20;

/// A shell command as it is shown: its first line, a long one without its middle.
pub open spec fn command_args(command: Seq<char>) -> Seq<char> {
    let line = parts_of(command, '\n')[0];
    if line.len() <= 2 * COMMAND_END_CHARS {
        line
    } else {
        line.take(COMMAND_END_CHARS as int) + "┄"@ + line.skip(line.len() - COMMAND_END_CHARS)
    }
}

/// Shows a shell command.
pub fn shell_command_args(command: &str) -> (r: String)
    ensures
        r@ == command_args(command@),
{
    let lines = split_parts(command, '\n');
    proof {
        lemma_parts_exist(command@, '\n');
        assert(texts(lines@)[0] == lines@[0]@);
    }
    let line = chars_of(lines[0].as_str());
    if line.len() <= 2 * COMMAND_END_CHARS {
        return lines[0].clone();
    }
    let mut r = text_between(&line, 0, COMMAND_END_CHARS);
    r.append("┄");
    let end = text_between(&line, line.len() - COMMAND_END_CHARS, line.len());
    r.append(end.as_str());
    proof {
        assert(line@.subrange(0, COMMAND_END_CHARS as int) =~= line@.take(COMMAND_END_CHARS as int));
        assert(line@.subrange(line@.len() - COMMAND_END_CHARS, line@.len() as int) =~= line@.skip(
            line@.len() - COMMAND_END_CHARS,
        ));
    }
    r
}

} // verus!
