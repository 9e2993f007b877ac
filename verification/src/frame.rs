//! The per-connection frame reader.  It consumes one trimmed line at a time
//! and accumulates the pending command: a line `*<count>` declares how many
//! arguments follow, a line `$<length>` declares that the very next line is
//! one argument's literal content (the length is advisory only and never
//! checked), and any other line is ignored.  As soon as the number of
//! collected arguments equals the declared count, the complete argument list
//! is emitted and the pending state resets for the next frame.

use vstd::prelude::*;

use crate::command::ProtocolError;
use crate::text::{all_digits, clone_bytes, digits_val, parse_decimal_from, seqs_of};

verus! {

/// The pending state of one connection's frame reader: the declared argument
/// count, if an array header arrived; the arguments collected so far; and
/// whether the next line is a bulk argument's literal content.
pub struct ReaderModel {
    pub expected: Option<int>,
    pub args: Seq<Seq<u8>>,
    pub bulk_next: bool,
}

/// What one line does to the reader: a fatal framing error, plain progress,
/// or a complete argument list emitted with the state reset.
pub enum StepResult {
    Failed,
    Progress(ReaderModel),
    Complete(ReaderModel, Seq<Seq<u8>>),
}

/// The reader's state at the start of a connection: nothing declared,
/// nothing collected.
pub open spec fn initial_reader() -> ReaderModel {
    ReaderModel { expected: None, args: Seq::empty(), bulk_next: false }
}

/// Emits the pending arguments when their number equals the declared count,
/// resetting the pending state; otherwise just carries the state forward.
pub open spec fn finish_check(s: ReaderModel) -> StepResult {
    if s.expected == Some(s.args.len() as int) {
        StepResult::Complete(
            ReaderModel { expected: None, args: Seq::empty(), bulk_next: s.bulk_next },
            s.args,
        )
    } else {
        StepResult::Progress(s)
    }
}

/// The reader's whole behaviour on one trimmed line.  `42` is `*`, `36` is
/// `$`.  An array header whose remainder is not a decimal count that fits in
/// `usize` is the one fatal framing error.
pub open spec fn reader_step(s: ReaderModel, line: Seq<u8>) -> StepResult {
    if s.bulk_next {
        finish_check(
            ReaderModel { expected: s.expected, args: s.args.push(line), bulk_next: false },
        )
    } else if line.len() > 0 && line[0] == 42 {
        let digits = line.subrange(1, line.len() as int);
        if digits.len() > 0 && all_digits(digits) && digits_val(digits) <= usize::MAX {
            finish_check(
                ReaderModel {
                    expected: Some(digits_val(digits) as int),
                    args: s.args,
                    bulk_next: s.bulk_next,
                },
            )
        } else {
            StepResult::Failed
        }
    } else if line.len() > 0 && line[0] == 36 {
        finish_check(ReaderModel { expected: s.expected, args: s.args, bulk_next: true })
    } else {
        StepResult::Progress(s)
    }
}

/// The frame reader for one connection.
pub struct FrameReader {
    expected: Option<usize>,
    args: Vec<Vec<u8>>,
    bulk_next: bool,
}

impl View for FrameReader {
    type V = ReaderModel;

    closed spec fn view(&self) -> ReaderModel {
        ReaderModel {
            expected: match self.expected {
                Some(n) => Some(n as int),
                None => None,
            },
            args: seqs_of(self.args@),
            bulk_next: self.bulk_next,
        }
    }
}

impl FrameReader {
    /// A fresh reader, with nothing pending.
    pub fn new() -> (r: Self)
        ensures
            r@ == initial_reader(),
    {
        let r = FrameReader { expected: None, args: Vec::new(), bulk_next: false };
        proof {
            assert(r@.args =~= initial_reader().args);
            assert(r@ =~= initial_reader());
        }
        r
    }

    /// Emits the collected arguments if they now satisfy the declared count.
    fn finish_frame(&mut self) -> (r: Option<Vec<Vec<u8>>>)
        ensures
            match finish_check(old(self)@) {
                StepResult::Complete(s2, out) => final(self)@ == s2 && (r matches Some(v)
                    && seqs_of(v@) == out),
                StepResult::Progress(s2) => final(self)@ == s2 && r is None,
                StepResult::Failed => false,
            },
    {
        let complete: bool = match self.expected {
            Some(n) => n == self.args.len(),
            None => false,
        };
        if complete {
            let mut out: Vec<Vec<u8>> = Vec::new();
            core::mem::swap(&mut out, &mut self.args);
            self.expected = None;
            proof {
                assert(self@.args =~= Seq::<Seq<u8>>::empty());
                assert(self@ =~= ReaderModel {
                    expected: None,
                    args: Seq::empty(),
                    bulk_next: old(self)@.bulk_next,
                });
            }
            Some(out)
        } else {
            None
        }
    }

    /// Feeds one trimmed line to the reader.  Returns the complete argument
    /// list when the line completes a frame, nothing when the frame is still
    /// pending, and the fatal framing error when the line is an array header
    /// whose count does not parse; in that last case the state is unchanged
    /// and the connection is expected to be torn down.
    pub fn feed_line(&mut self, line: &Vec<u8>) -> (r: Result<
        Option<Vec<Vec<u8>>>,
        ProtocolError,
    >)
        ensures
            match reader_step(old(self)@, line@) {
                StepResult::Failed => final(self)@ == old(self)@ && (r matches Err(e) && e
                    == ProtocolError::Framing),
                StepResult::Progress(s2) => final(self)@ == s2 && (r matches Ok(o) && o is None),
                StepResult::Complete(s2, out) => final(self)@ == s2 && (r matches Ok(o)
                    && o matches Some(v) && seqs_of(v@) == out),
            },
    {
        if self.bulk_next {
            self.args.push(clone_bytes(line));
            self.bulk_next = false;
            proof {
                assert(self@.args =~= old(self)@.args.push(line@));
            }
            return Ok(self.finish_frame());
        }
        if line.len() > 0 && line[0] == 42 {
            match parse_decimal_from(line, 1) {
                Some(n) => {
                    self.expected = Some(n);
                    return Ok(self.finish_frame());
                },
                None => {
                    return Err(ProtocolError::Framing);
                },
            }
        }
        if line.len() > 0 && line[0] == 36 {
            self.bulk_next = true;
            return Ok(self.finish_frame());
        }
        Ok(None)
    }
}

} // verus!
