//! The progress of a run. The planned files are written in order, one at a
//! time; the first failure to write ends the run, and a run that gets
//! through reports how many files it wrote.
//!
//! Rendering and writing happen outside this module. The caller asks for
//! the next job, renders and writes it, and records how that went: a file
//! that was written moves the run on, a failure ends it.

use vstd::prelude::*;
use crate::error::{AppError, ErrorKind, FileOperation};
use crate::plan::{Format, RenderJob};
use crate::report::{render_summary, summary_text};

verus! {

/// A run in progress: its plan, and how far it has got.
pub struct Conversion {
    jobs: Vec<RenderJob>,
    format: Format,
    written: usize,
    failed: bool,
}

impl Conversion {
    #[verifier::type_invariant]
    spec fn well_formed(self) -> bool {
        self.written <= self.jobs@.len()
    }

    /// The planned files, in the order in which they are written.
    pub closed spec fn plan(&self) -> Seq<RenderJob> {
        self.jobs@
    }

    /// The format of the files.
    pub closed spec fn format(&self) -> Format {
        self.format
    }

    /// How many files have been written. They are the first so many of the
    /// plan.
    pub closed spec fn written(&self) -> nat {
        self.written as nat
    }

    /// Whether a failure to write has ended the run.
    pub closed spec fn failed(&self) -> bool {
        self.failed
    }

    /// Whether the run is over: it has failed, or all files are written.
    pub open spec fn over(&self) -> bool {
        self.failed() || self.written() == self.plan().len()
    }

    /// A run that is about to write its first file.
    pub fn new(jobs: Vec<RenderJob>, format: Format) -> (run: Conversion)
        ensures
            run.plan() == jobs@,
            run.format() == format,
            run.written() == 0,
            !run.failed(),
    {
        Conversion { jobs, format, written: 0, failed: false }
    }

    /// Whether the run is over.
    pub fn is_over(&self) -> (over: bool)
        ensures
            over == self.over(),
    {
        proof {
            use_type_invariant(self);
        }
        self.failed || self.written == self.jobs.len()
    }

    /// The file to write next, or nothing where the run is over.
    pub fn next_job(&self) -> (job: Option<&RenderJob>)
        ensures
            self.written() <= self.plan().len(),
            job is None <==> self.over(),
            job matches Some(next) ==> *next == self.plan()[self.written() as int],
    {
        proof {
            use_type_invariant(self);
        }
        if !self.failed && self.written < self.jobs.len() {
            Some(&self.jobs[self.written])
        } else {
            None
        }
    }

    /// Records that the next file has been written. A run that is over
    /// stays as it is.
    pub fn file_written(&mut self)
        ensures
            final(self).plan() == old(self).plan(),
            final(self).format() == old(self).format(),
            final(self).failed() == old(self).failed(),
            final(self).written() == if old(self).over() {
                old(self).written()
            } else {
                old(self).written() + 1
            },
    {
        proof {
            use_type_invariant(&*self);
        }
        if !self.failed && self.written < self.jobs.len() {
            self.written = self.written + 1;
        }
    }

    /// Records that the next file could not be written, which ends the run,
    /// and gives the error to end it with; `detail` is the operating
    /// system's account of the failure.
    pub fn write_failed(&mut self, detail: &str) -> (error: AppError)
        ensures
            final(self).failed(),
            final(self).plan() == old(self).plan(),
            final(self).format() == old(self).format(),
            final(self).written() == old(self).written(),
            error.kind == ErrorKind::FileSystem,
            error.message@ == FileOperation::WriteOutput(old(self).format()).failure_text() + ": "@
                + detail@,
    {
        proof {
            use_type_invariant(&*self);
        }
        self.failed = true;
        AppError::file_system(FileOperation::WriteOutput(self.format), detail)
    }

    /// How many files have been written.
    pub fn files_written(&self) -> (count: usize)
        ensures
            count == self.written(),
    {
        self.written
    }

    /// The summary of the run as far as it has got.
    pub fn summary(&self, output: &str, input: &str) -> (text: String)
        ensures
            text@ == summary_text(self.format(), self.written() as usize, output@, input@),
    {
        render_summary(self.format, self.written, output, input)
    }
}

} // verus!
