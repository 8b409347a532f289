//! Reading RESP replies. The reader is a state machine: it is told each line
//! and each body the caller read, and answers with what to read next.

use vstd::prelude::*;
use vstd::utf8::{decode_utf8, valid_utf8};
use crate::text::{chars_of, field_after_first, parse_field_after_first};

verus! {

/// Where the reader of an array reply stands.
#[derive(Clone, Copy, Debug, PartialEq, Eq, Structural)]
pub enum ReplyPhase {
    /// The first line of the reply is expected.
    AwaitHeader,
    /// The header line of an element is expected; `rest` elements follow it.
    AwaitElement { rest: usize },
    /// The body of a bulk string, `length` bytes with its `\r\n`, is expected;
    /// `rest` elements follow it.
    AwaitBody { rest: usize, length: usize },
    /// The reply has been read.
    Finished,
}

/// What the caller is to read next.
#[derive(Clone, Copy, Debug, PartialEq, Eq, Structural)]
pub enum ReplyAction {
    /// Read one line, up to and including `\n`.
    ReadLine,
    /// Read exactly this many bytes.
    ReadExact(usize),
    /// Stop reading: the reply is complete.
    Finish,
}

/// Lines the reader cannot make sense of.
#[derive(Clone, Copy, Debug, PartialEq, Eq, Structural)]
pub enum ReplyError {
    /// An array header whose element count is not a number.
    BadCount,
    /// An element line that is empty or starts with a non-ASCII character.
    MalformedLine,
    /// An element line whose length is not a number.
    BadLength,
    /// A bulk length so large that the body size overflows.
    LengthOverflow,
    /// A line was handed over while no line was expected.
    UnexpectedLine,
    /// A body was handed over while no body was expected.
    UnexpectedBody,
}

/// A line that opens an array reply: it starts with `*`.
pub open spec fn opens_array(line: Seq<char>) -> bool {
    line.len() > 0 && line[0] == '*'
}

/// A null bulk string: the line starts with `$-1`.
pub open spec fn is_null_bulk(line: Seq<char>) -> bool {
    line.len() >= 3 && line[0] == '$' && line[1] == '-' && line[2] == '1'
}

/// A line whose text after the first character can be taken apart: it is not
/// empty and its first character is ASCII.
pub open spec fn has_ascii_lead(line: Seq<char>) -> bool {
    line.len() > 0 && (line[0] as u32) < 128
}

/// The state after an element is done, when `rest` more elements follow.
pub open spec fn after_element(rest: nat) -> (ReplyPhase, ReplyAction) {
    if rest == 0 {
        (ReplyPhase::Finished, ReplyAction::Finish)
    } else {
        (ReplyPhase::AwaitElement { rest: (rest - 1) as usize }, ReplyAction::ReadLine)
    }
}

/// The reader's answer to a line.
pub open spec fn line_step(phase: ReplyPhase, line: Seq<char>) -> Result<
    (ReplyPhase, ReplyAction),
    ReplyError,
> {
    match phase {
        ReplyPhase::AwaitHeader => {
            if !opens_array(line) {
                Ok((ReplyPhase::Finished, ReplyAction::Finish))
            } else {
                match field_after_first(line) {
                    Some(count) => Ok(after_element(count as nat)),
                    None => Err(ReplyError::BadCount),
                }
            }
        },
        ReplyPhase::AwaitElement { rest } => {
            if is_null_bulk(line) {
                Ok(after_element(rest as nat))
            } else if !has_ascii_lead(line) {
                Err(ReplyError::MalformedLine)
            } else {
                match field_after_first(line) {
                    None => Err(ReplyError::BadLength),
                    Some(len) => if len + 2 > usize::MAX {
                        Err(ReplyError::LengthOverflow)
                    } else {
                        Ok(
                            (
                                ReplyPhase::AwaitBody { rest, length: (len + 2) as usize },
                                ReplyAction::ReadExact((len + 2) as usize),
                            ),
                        )
                    },
                }
            }
        },
        _ => Err(ReplyError::UnexpectedLine),
    }
}

/// The reader's answer to a body.
pub open spec fn body_step(phase: ReplyPhase) -> Result<(ReplyPhase, ReplyAction), ReplyError> {
    match phase {
        ReplyPhase::AwaitBody { rest, length } => Ok(after_element(rest as nat)),
        _ => Err(ReplyError::UnexpectedBody),
    }
}

/// The action that belongs to a phase: a line while a header is awaited, the
/// body's bytes while a body is awaited, nothing once finished.
pub open spec fn action_fits(phase: ReplyPhase, action: ReplyAction) -> bool {
    match phase {
        ReplyPhase::AwaitHeader => action == ReplyAction::ReadLine,
        ReplyPhase::AwaitElement { .. } => action == ReplyAction::ReadLine,
        ReplyPhase::AwaitBody { rest, length } => action == ReplyAction::ReadExact(length),
        ReplyPhase::Finished => action == ReplyAction::Finish,
    }
}

/// Law: every answer of the reader asks for exactly what its new phase
/// awaits, so a caller that does what it is told always hands the reader what
/// it expects.
pub proof fn law_actions_fit_phases(phase: ReplyPhase, line: Seq<char>)
    ensures
        line_step(phase, line) matches Ok((next, action)) ==> action_fits(next, action),
        body_step(phase) matches Ok((next, action)) ==> action_fits(next, action),
{
}

/// How an array reply starts: nothing read yet, the first line to be read.
pub fn start_array_reply() -> (start: (ReplyPhase, ReplyAction))
    ensures
        start == (ReplyPhase::AwaitHeader, ReplyAction::ReadLine),
{
    (ReplyPhase::AwaitHeader, ReplyAction::ReadLine)
}

fn exec_after_element(rest: usize) -> (next: (ReplyPhase, ReplyAction))
    ensures
        next == after_element(rest as nat),
{
    if rest == 0 {
        (ReplyPhase::Finished, ReplyAction::Finish)
    } else {
        (ReplyPhase::AwaitElement { rest: rest - 1 }, ReplyAction::ReadLine)
    }
}

/// Hands the reader the line just read.
pub fn on_line(phase: ReplyPhase, line: &str) -> (next: Result<(ReplyPhase, ReplyAction), ReplyError>)
    ensures
        next == line_step(phase, line@),
{
    let chars = chars_of(line);
    let cs = chars.as_slice();
    match phase {
        ReplyPhase::AwaitHeader => {
            if cs.len() == 0 || cs[0] != '*' {
                return Ok((ReplyPhase::Finished, ReplyAction::Finish));
            }
            match parse_field_after_first(cs) {
                Some(count) => Ok(exec_after_element(count)),
                None => Err(ReplyError::BadCount),
            }
        },
        ReplyPhase::AwaitElement { rest } => {
            if cs.len() >= 3 && cs[0] == '$' && cs[1] == '-' && cs[2] == '1' {
                return Ok(exec_after_element(rest));
            }
            if cs.len() == 0 || (cs[0] as u32) >= 128 {
                return Err(ReplyError::MalformedLine);
            }
            match parse_field_after_first(cs) {
                None => Err(ReplyError::BadLength),
                Some(len) => {
                    if len > usize::MAX - 2 {
                        Err(ReplyError::LengthOverflow)
                    } else {
                        Ok((ReplyPhase::AwaitBody { rest, length: len + 2 }, ReplyAction::ReadExact(len + 2)))
                    }
                },
            }
        },
        _ => Err(ReplyError::UnexpectedLine),
    }
}

/// Tells the reader that the body it asked for has been read.
pub fn on_body(phase: ReplyPhase) -> (next: Result<(ReplyPhase, ReplyAction), ReplyError>)
    ensures
        next == body_step(phase),
{
    match phase {
        ReplyPhase::AwaitBody { rest, length } => Ok(exec_after_element(rest)),
        _ => Err(ReplyError::UnexpectedBody),
    }
}

/// What the benchmarks' string-reply reader decides about a line that may
/// announce a bulk string.
#[derive(Clone, Copy, Debug, PartialEq, Eq, Structural)]
pub enum BulkLine {
    /// The line is no bulk header the reader can use: nothing more is read.
    Skip,
    /// A bulk string of `length` bytes follows; `read` bytes (with the
    /// closing `\r\n`) are to be read.
    Body { length: usize, read: usize },
}

/// The decision about a line read where a bulk string is expected: a line that
/// starts with `$` and carries a length announces a body; any other line is skipped.
pub open spec fn bulk_line_decision(line: Seq<char>) -> Result<BulkLine, ReplyError> {
    if line.len() > 0 && line[0] == '$' {
        match field_after_first(line) {
            Some(len) => if len + 2 > usize::MAX {
                Err(ReplyError::LengthOverflow)
            } else {
                Ok(BulkLine::Body { length: len, read: (len + 2) as usize })
            },
            None => Ok(BulkLine::Skip),
        }
    } else {
        Ok(BulkLine::Skip)
    }
}

/// Law: a line of `$` and a length `n` that parses, with `n + 2` within
/// `usize`, always announces a body of `n` bytes of which `n + 2` are read: the
/// body and its closing `\r\n`. Every body decision has that form; the only
/// error is a length too large for that; every other line is skipped.
pub proof fn law_bulk_line_reads_body_and_crlf(line: Seq<char>)
    ensures
        ({
            let field = field_after_first(line);
            let announces = line.len() > 0 && line[0] == '$' && field is Some;
            &&& announces && field->0 + 2 <= usize::MAX ==> bulk_line_decision(line) == Ok::<BulkLine, ReplyError>(
                BulkLine::Body { length: field->0, read: (field->0 + 2) as usize },
            )
            &&& bulk_line_decision(line) matches Ok(BulkLine::Body { length, read }) ==> {
                &&& announces
                &&& field == Some(length)
                &&& read == length + 2
            }
            &&& bulk_line_decision(line) is Err <==> announces && field->0 + 2 > usize::MAX
            &&& bulk_line_decision(line) is Err ==> bulk_line_decision(line) == Err::<BulkLine, ReplyError>(
                ReplyError::LengthOverflow,
            )
            &&& bulk_line_decision(line) == Ok::<BulkLine, ReplyError>(BulkLine::Skip) <==> !announces
        }),
{
}

/// Decides what to read after a line where a bulk string is expected.
pub fn classify_bulk_line(line: &str) -> (decision: Result<BulkLine, ReplyError>)
    ensures
        decision == bulk_line_decision(line@),
{
    let chars = chars_of(line);
    let cs = chars.as_slice();
    if cs.len() == 0 || cs[0] != '$' {
        return Ok(BulkLine::Skip);
    }
    match parse_field_after_first(cs) {
        Some(len) => {
            if len > usize::MAX - 2 {
                Err(ReplyError::LengthOverflow)
            } else {
                Ok(BulkLine::Body { length: len, read: len + 2 })
            }
        },
        None => Ok(BulkLine::Skip),
    }
}

/// The length of the first line of `input`, up to and including its first `\n`;
/// `None` when `input` holds no `\n`.
pub open spec fn line_len(input: Seq<u8>) -> Option<nat>
    decreases input.len(),
{
    if input.len() == 0 {
        None
    } else if input[0] == 10 {
        Some(1)
    } else {
        match line_len(input.drop_first()) {
            Some(k) => Some(k + 1),
            None => None,
        }
    }
}

/// A line is never empty and never longer than its input.
pub proof fn lemma_line_len_bounds(input: Seq<u8>)
    ensures
        line_len(input) matches Some(k) ==> 1 <= k <= input.len(),
    decreases input.len(),
{
    if input.len() > 0 && input[0] != 10 {
        lemma_line_len_bounds(input.drop_first());
    }
}

/// Bodies come before lines in the measure that proves the reader stops.
pub open spec fn phase_rank(phase: ReplyPhase) -> nat {
    match phase {
        ReplyPhase::AwaitBody { .. } => 1,
        _ => 0,
    }
}

/// How many bytes of `input` the reader takes, starting in `phase`, when the
/// caller reads lines and bodies from `input` as the reader asks, until it says
/// `Finish`. `None` when `input` runs out first, a line is not UTF-8, or the
/// reader refuses a line.
pub open spec fn reply_consumes(phase: ReplyPhase, input: Seq<u8>) -> Option<nat>
    decreases input.len(), phase_rank(phase),
{
    match phase {
        ReplyPhase::Finished => Some(0),
        ReplyPhase::AwaitBody { rest, length } => {
            if input.len() < length {
                None
            } else {
                match reply_consumes(after_element(rest as nat).0, input.skip(length as int)) {
                    Some(c) => Some(c + length as nat),
                    None => None,
                }
            }
        },
        _ => {
            match line_len(input) {
                None => None,
                Some(k) => {
                    proof {
                        lemma_line_len_bounds(input);
                    }
                    let line = input.take(k as int);
                    if !valid_utf8(line) {
                        None
                    } else {
                        match line_step(phase, decode_utf8(line)) {
                            Ok((next, _)) => match reply_consumes(next, input.skip(k as int)) {
                                Some(c) => Some(c + k),
                                None => None,
                            },
                            Err(_) => None,
                        }
                    }
                }
            }
        },
    }
}

} // verus!
