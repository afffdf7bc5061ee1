//! The outcome of a run, file by file.

use crate::error::ConversionError;
use vstd::prelude::*;

verus! {

/// What became of one source file.
#[derive(Debug)]
pub enum Outcome {
    /// Its table was written, at this path.
    Written { source: String, table: String },
    /// It could not be converted, for this reason.
    Failed { source: String, error: ConversionError },
}

/// The outcomes of a run, in the order in which the files were taken up.
#[derive(Debug)]
pub struct Report {
    pub outcomes: Vec<Outcome>,
}

/// How many of the outcomes are tables written.
pub open spec fn written_among(outcomes: Seq<Outcome>) -> nat
    decreases outcomes.len(),
{
    if outcomes.len() == 0 {
        0
    } else if outcomes.last() is Written {
        written_among(outcomes.drop_last()) + 1
    } else {
        written_among(outcomes.drop_last())
    }
}

/// How many of the outcomes are failures.
pub open spec fn failed_among(outcomes: Seq<Outcome>) -> nat
    decreases outcomes.len(),
{
    if outcomes.len() == 0 {
        0
    } else if outcomes.last() is Failed {
        failed_among(outcomes.drop_last()) + 1
    } else {
        failed_among(outcomes.drop_last())
    }
}

/// Every file of a report counts once: as written or as failed.
pub proof fn lemma_every_outcome_counts(outcomes: Seq<Outcome>)
    ensures
        written_among(outcomes) + failed_among(outcomes) == outcomes.len(),
    decreases outcomes.len(),
{
    if outcomes.len() > 0 {
        lemma_every_outcome_counts(outcomes.drop_last());
    }
}

impl Report {
    /// A report with no outcome yet.
    pub fn new() -> (report: Report)
        ensures
            report.outcomes@.len() == 0,
    {
        Report { outcomes: Vec::new() }
    }

    /// Records that the table of a file was written. What was recorded
    /// before stays as it is.
    pub fn record_written(&mut self, source: String, table: String)
        ensures
            final(self).outcomes@ == old(self).outcomes@.push(Outcome::Written { source, table }),
    {
        self.outcomes.push(Outcome::Written { source, table });
    }

    /// Records that a file could not be converted. What was recorded
    /// before stays as it is.
    pub fn record_failed(&mut self, source: String, error: ConversionError)
        ensures
            final(self).outcomes@ == old(self).outcomes@.push(Outcome::Failed { source, error }),
    {
        self.outcomes.push(Outcome::Failed { source, error });
    }

    /// Takes up the result of one file. A table that was written is
    /// recorded, and so is a failure that concerns the one file. A failure
    /// that ends the whole run is not an outcome of the file: it is handed
    /// back, and the report stays as it is.
    pub fn record(&mut self, source: String, result: Result<String, ConversionError>) -> (stop:
        Option<ConversionError>)
        ensures
            match result {
                Ok(table) => stop is None && final(self).outcomes@ == old(self).outcomes@.push(
                    Outcome::Written { source, table },
                ),
                Err(error) => if error.fatal() {
                    stop == Some(error) && final(self).outcomes@ == old(self).outcomes@
                } else {
                    stop is None && final(self).outcomes@ == old(self).outcomes@.push(
                        Outcome::Failed { source, error },
                    )
                },
            },
    {
        match result {
            Ok(table) => {
                self.record_written(source, table);
                None
            },
            Err(error) => {
                if error.is_fatal() {
                    Some(error)
                } else {
                    self.record_failed(source, error);
                    None
                }
            },
        }
    }

    /// The number of files whose table was written.
    pub fn written(&self) -> (n: usize)
        ensures
            n == written_among(self.outcomes@),
    {
        let mut n: usize = 0;
        let mut i: usize = 0;
        while i < self.outcomes.len()
            invariant
                i <= self.outcomes.len(),
                n <= i,
                n == written_among(self.outcomes@.take(i as int)),
            decreases self.outcomes.len() - i,
        {
            assert(self.outcomes@.take(i + 1).drop_last() =~= self.outcomes@.take(i as int));
            if let Outcome::Written { .. } = self.outcomes[i] {
                n += 1;
            }
            i += 1;
        }
        assert(self.outcomes@.take(self.outcomes.len() as int) =~= self.outcomes@);
        n
    }

    /// The number of files that could not be converted.
    pub fn failed(&self) -> (n: usize)
        ensures
            n == failed_among(self.outcomes@),
    {
        let mut n: usize = 0;
        let mut i: usize = 0;
        while i < self.outcomes.len()
            invariant
                i <= self.outcomes.len(),
                n <= i,
                n == failed_among(self.outcomes@.take(i as int)),
            decreases self.outcomes.len() - i,
        {
            assert(self.outcomes@.take(i + 1).drop_last() =~= self.outcomes@.take(i as int));
            if let Outcome::Failed { .. } = self.outcomes[i] {
                n += 1;
            }
            i += 1;
        }
        assert(self.outcomes@.take(self.outcomes.len() as int) =~= self.outcomes@);
        n
    }
}

/// The status with which the process ends: zero unless the scan itself
/// failed. What went wrong with single files is in the report and does not
/// change the status.
pub fn exit_status(run: &Result<Report, ConversionError>) -> (status: u8)
    ensures
        (status != 0) == (run matches Err(error) && error is ScanError),
{
    match run {
        Err(ConversionError::ScanError) => 1,
        _ => 0,
    }
}

} // verus!
