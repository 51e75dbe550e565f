//! Error reporters: a queue of diagnostics behind a small interface.

use vstd::prelude::*;
use crate::errors::ShorkError;

verus! {

/// A trait that must be implemented by all error reporters. A reporter
/// keeps a queue of diagnostics; how it shows them is its own business.
pub trait Reporter {
    /// The queue of diagnostics, oldest first.
    spec fn errors_model(&self) -> Seq<ShorkError>;

    /// Add an error to the queue
    fn add_error(&mut self, e: ShorkError)
        ensures
            final(self).errors_model() == old(self).errors_model().push(e),
    ;

    /// Get all errors in the queue
    fn get_errors(&self) -> (r: &Vec<ShorkError>)
        ensures
            r@ == self.errors_model(),
    ;
}

/// A reporter whose queue is meant for the standard error channel.
#[derive(Debug)]
pub struct StderrReporter {
    errors: Vec<ShorkError>,
}

impl StderrReporter {
    /// create a new, empty reporter
    pub fn new() -> (r: StderrReporter)
        ensures
            r.errors_model() == Seq::<ShorkError>::empty(),
    {
        StderrReporter { errors: Vec::new() }
    }
}

impl Reporter for StderrReporter {
    closed spec fn errors_model(&self) -> Seq<ShorkError> {
        self.errors@
    }

    fn add_error(&mut self, e: ShorkError) {
        self.errors.push(e)
    }

    fn get_errors(&self) -> (r: &Vec<ShorkError>) {
        &self.errors
    }
}

} // verus!
