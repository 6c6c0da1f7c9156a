//! Bounded, newline-terminated reads of worker responses.
//!
//! A response line may hold at most a configured number of bytes, newline
//! included, and must be UTF-8. `BoundedLine` decides over the chunks a stream
//! hands out; `read_bounded_line` reads one line from bytes already in memory.

use vstd::prelude::*;
use vstd::utf8::*;

use crate::text::{find_byte, first_byte_from, push_range, string_from_utf8};

verus! {

/// Why a response line was refused.
#[derive(Debug, Clone, Copy, PartialEq, Eq, Structural)]
pub enum LineError {
    /// The input ended inside a line.
    UnexpectedEof,
    /// The line, newline included, is longer than allowed.
    TooLong,
    /// The line is not UTF-8.
    InvalidUtf8,
}

/// What one line read from `input` gives: `Ok(None)` at the end of input, or
/// the text of the first line without its newline.
pub open spec fn line_outcome(input: Seq<u8>, max_bytes: int) -> Result<Option<Seq<char>>, LineError> {
    match first_byte_from(input, 0, 0x0a) {
        Some(n) => if n + 1 > max_bytes {
            Err(LineError::TooLong)
        } else if valid_utf8(input.take(n)) {
            Ok(Some(decode_utf8(input.take(n))))
        } else {
            Err(LineError::InvalidUtf8)
        },
        None => if input.len() == 0 {
            Ok(None)
        } else if input.len() > max_bytes {
            Err(LineError::TooLong)
        } else {
            Err(LineError::UnexpectedEof)
        },
    }
}

/// Read the first line of `input`, holding at most `max_bytes` bytes with its newline.
pub fn read_bounded_line(input: &[u8], max_bytes: usize) -> (line: Result<Option<String>, LineError>)
    ensures
        match line {
            Ok(Some(text)) => line_outcome(input@, max_bytes as int) == Ok::<Option<Seq<char>>, LineError>(Some(text@)),
            Ok(None) => line_outcome(input@, max_bytes as int) == Ok::<Option<Seq<char>>, LineError>(None),
            Err(error) => line_outcome(input@, max_bytes as int) == Err::<Option<Seq<char>>, LineError>(error),
        },
{
    match find_byte(input, 0, 0x0a) {
        Some(n) => {
            if n >= max_bytes {
                return Err(LineError::TooLong);
            }
            let mut bytes: Vec<u8> = Vec::new();
            push_range(&mut bytes, input, 0, n);
            assert(bytes@ =~= input@.take(n as int));
            match string_from_utf8(bytes) {
                Some(text) => Ok(Some(text)),
                None => Err(LineError::InvalidUtf8),
            }
        },
        None => {
            if input.len() == 0 {
                Ok(None)
            } else if input.len() > max_bytes {
                Err(LineError::TooLong)
            } else {
                Err(LineError::UnexpectedEof)
            }
        },
    }
}

/// What a chunk of input did to a line being read.
#[derive(Debug, Clone, PartialEq, Eq)]
pub enum LineStep {
    /// The chunk ended inside the line: hand over the next chunk.
    NeedMore,
    /// The line is complete.
    Complete(String),
    /// The line is refused.
    Failed(LineError),
}

/// A line read from a stream chunk by chunk.
pub struct BoundedLine {
    buffered: Vec<u8>,
    max_bytes: usize,
}

impl BoundedLine {
    /// The bytes of the line taken so far.
    pub closed spec fn taken(&self) -> Seq<u8> {
        self.buffered@
    }

    pub closed spec fn limit(&self) -> int {
        self.max_bytes as int
    }

    /// Start reading a line of at most `max_bytes` bytes, newline included.
    pub fn new(max_bytes: usize) -> (line: BoundedLine)
        ensures
            line.taken() == Seq::<u8>::empty(),
            line.limit() == max_bytes,
    {
        BoundedLine { buffered: Vec::new(), max_bytes }
    }

    /// Take what the line needs from the front of a non-empty chunk. Returns how
    /// many bytes of the chunk were consumed and where the line stands.
    pub fn feed(&mut self, available: &[u8]) -> (step: (usize, LineStep))
        requires
            available@.len() > 0,
        ensures
            final(self).limit() == old(self).limit(),
            match first_byte_from(available@, 0, 0x0a) {
                Some(n) => if old(self).taken().len() + n + 1 > old(self).limit() {
                    step.1 == LineStep::Failed(LineError::TooLong) && step.0 == 0
                } else {
                    step.0 == n + 1 && final(self).taken() == old(self).taken() + available@.take(n)
                        && match step.1 {
                        LineStep::Complete(text) => valid_utf8(final(self).taken()) && text@
                            == decode_utf8(final(self).taken()),
                        LineStep::Failed(error) => error == LineError::InvalidUtf8 && !valid_utf8(
                            final(self).taken(),
                        ),
                        LineStep::NeedMore => false,
                    }
                },
                None => if old(self).taken().len() + available@.len() > old(self).limit() {
                    step.1 == LineStep::Failed(LineError::TooLong) && step.0 == 0
                } else {
                    step.0 == available@.len() && step.1 == LineStep::NeedMore && final(self).taken()
                        == old(self).taken() + available@
                },
            },
    {
        match find_byte(available, 0, 0x0a) {
            Some(n) => {
                if n >= self.max_bytes || self.buffered.len() > self.max_bytes - n - 1 {
                    return (0, LineStep::Failed(LineError::TooLong));
                }
                push_range(&mut self.buffered, available, 0, n);
                assert(available@.subrange(0, n as int) =~= available@.take(n as int));
                let bytes = self.buffered.clone();
                assert(bytes@ =~= self.buffered@);
                match string_from_utf8(bytes) {
                    Some(text) => (n + 1, LineStep::Complete(text)),
                    None => (n + 1, LineStep::Failed(LineError::InvalidUtf8)),
                }
            },
            None => {
                if available.len() > self.max_bytes || self.buffered.len() > self.max_bytes
                    - available.len() {
                    return (0, LineStep::Failed(LineError::TooLong));
                }
                push_range(&mut self.buffered, available, 0, available.len());
                assert(available@.subrange(0, available@.len() as int) =~= available@);
                (available.len(), LineStep::NeedMore)
            },
        }
    }

    /// The stream ended: nothing was read, or the line was cut off.
    pub fn end_of_input(&self) -> (line: Result<Option<String>, LineError>)
        ensures
            self.taken().len() == 0 ==> line is Ok && line == Ok::<Option<String>, LineError>(None),
            self.taken().len() > 0 ==> line == Err::<Option<String>, LineError>(LineError::UnexpectedEof),
    {
        if self.buffered.len() == 0 {
            Ok(None)
        } else {
            Err(LineError::UnexpectedEof)
        }
    }
}

} // verus!
