//! Feeding lines of input into the buffer.

use vstd::prelude::*;
use crate::buffer::{Sample, SampleBuffer};
use crate::line::{line_outcome, parse_line, LineOutcome};

verus! {

/// The buffer contents after the line `line` arrived at time `timestamp`:
/// a reading is appended, anything else leaves the contents as they are.
pub open spec fn ingested(samples: Seq<Sample>, line: Seq<char>, timestamp: u128) -> Seq<Sample> {
    match line_outcome(line) {
        LineOutcome::Value(value) => samples.push(Sample { timestamp, value }),
        _ => samples,
    }
}

/// The buffer contents after the lines `lines` arrived one after the other,
/// line `i` at time `times[i]`.
pub open spec fn ingested_all(samples: Seq<Sample>, lines: Seq<Seq<char>>, times: Seq<u128>) -> Seq<
    Sample,
>
    recommends
        lines.len() == times.len(),
    decreases lines.len(),
{
    if lines.len() == 0 {
        samples
    } else {
        ingested(
            ingested_all(samples, lines.drop_last(), times.drop_last()),
            lines.last(),
            times.last(),
        )
    }
}

/// How many of `lines` hold a reading.
pub open spec fn count_readings(lines: Seq<Seq<char>>) -> nat
    decreases lines.len(),
{
    if lines.len() == 0 {
        0
    } else {
        count_readings(lines.drop_last()) + if line_outcome(lines.last()) is Value {
            1nat
        } else {
            0nat
        }
    }
}

/// What an attempt to read a line gave.
#[derive(Clone, Copy, Debug)]
pub enum ReadResult<'a> {
    /// The read failed.
    Failed,
    /// A line came in.
    Line(&'a str),
}

/// What the reading loop does after an attempt to read, before it reads again.
#[derive(Clone, Copy, Debug, PartialEq, Eq, Structural)]
pub enum IngestAction {
    /// The read failed: report it.
    ReportReadFailure,
    /// The line was blank: say nothing.
    PassOver,
    /// The line held no reading: report the line.
    ReportMalformed,
    /// The line held this reading, which is now the newest sample.
    Appended(i32),
}

/// The action that follows a line with the outcome `outcome`.
pub open spec fn action_for(outcome: LineOutcome) -> IngestAction {
    match outcome {
        LineOutcome::Blank => IngestAction::PassOver,
        LineOutcome::Malformed => IngestAction::ReportMalformed,
        LineOutcome::Value(value) => IngestAction::Appended(value),
    }
}

impl SampleBuffer {
    /// Takes in one line that arrived at time `timestamp`. A reading becomes
    /// the newest sample; a blank or malformed line changes nothing. The
    /// outcome tells the caller which it was, so that it can report a
    /// malformed line and pass over a blank one in silence.
    pub fn ingest(&mut self, line: &str, timestamp: u128) -> (r: LineOutcome)
        ensures
            r == line_outcome(line@),
            final(self)@ == ingested(old(self)@, line@, timestamp),
    {
        let outcome = parse_line(line);
        if let LineOutcome::Value(value) = outcome {
            self.push(Sample { timestamp, value });
        }
        outcome
    }

    /// One turn of the reading loop, for a read that ended at time
    /// `timestamp`: a failed read changes nothing and is to be reported; a
    /// line is taken in as by [`SampleBuffer::ingest`]. Whatever the action,
    /// the loop then reads again.
    pub fn on_read(&mut self, read: ReadResult<'_>, timestamp: u128) -> (r: IngestAction)
        ensures
            read is Failed ==> r == IngestAction::ReportReadFailure && final(self)@ == old(self)@,
            read matches ReadResult::Line(line) ==> {
                &&& r == action_for(line_outcome(line@))
                &&& final(self)@ == ingested(old(self)@, line@, timestamp)
            },
    {
        match read {
            ReadResult::Failed => IngestAction::ReportReadFailure,
            ReadResult::Line(line) => match self.ingest(line, timestamp) {
                LineOutcome::Blank => IngestAction::PassOver,
                LineOutcome::Malformed => IngestAction::ReportMalformed,
                LineOutcome::Value(value) => IngestAction::Appended(value),
            },
        }
    }
}

/// Feeding lines into a buffer lengthens it by the number of lines that hold
/// a reading: blank and malformed lines add nothing, and nothing is lost.
pub proof fn lemma_ingested_length(samples: Seq<Sample>, lines: Seq<Seq<char>>, times: Seq<u128>)
    requires
        lines.len() == times.len(),
    ensures
        ingested_all(samples, lines, times).len() == samples.len() + count_readings(lines),
        ingested_all(samples, lines, times).subrange(0, samples.len() as int) == samples,
    decreases lines.len(),
{
    if lines.len() > 0 {
        lemma_ingested_length(samples, lines.drop_last(), times.drop_last());
        let before = ingested_all(samples, lines.drop_last(), times.drop_last());
        assert(before.subrange(0, samples.len() as int) == samples);
        assert(ingested(before, lines.last(), times.last()).subrange(0, samples.len() as int)
            =~= before.subrange(0, samples.len() as int));
    } else {
        assert(samples.subrange(0, samples.len() as int) =~= samples);
    }
}

} // verus!
