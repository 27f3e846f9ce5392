use vstd::prelude::*;
use crate::report::Report;

verus! {

/// A batch of reports bound to the one source text they are about.
pub struct DiagnosticTuple {
    pub path: String,
    pub source: String,
    pub reports: Vec<Report>,
}

/// Accumulates the reports of one source file, in the order they are given.
pub struct DiagnosticTupleBuilder {
    path: String,
    errors: Vec<Report>,
}

impl DiagnosticTupleBuilder {
    pub closed spec fn path(&self) -> String {
        self.path
    }

    /// The reports given so far, in order.
    pub closed spec fn reports(&self) -> Seq<Report> {
        self.errors@
    }

    pub fn new(path: String) -> (r: DiagnosticTupleBuilder)
        ensures
            r.path() == path,
            r.reports().len() == 0,
    {
        DiagnosticTupleBuilder { path, errors: Vec::new() }
    }

    /// Appends one report.
    pub fn diagnose(&mut self, err: Report) -> (r: &mut DiagnosticTupleBuilder)
        ensures
            r.path() == old(self).path(),
            r.reports() == old(self).reports().push(err),
            *final(self) == *final(r),
    {
        self.errors.push(err);
        self
    }

    /// Appends reports, keeping their order.
    pub fn diagnoses(&mut self, errs: Vec<Report>) -> (r: &mut DiagnosticTupleBuilder)
        ensures
            r.path() == old(self).path(),
            r.reports() == old(self).reports() + errs@,
            *final(self) == *final(r),
    {
        let mut errs = errs;
        self.errors.append(&mut errs);
        self
    }

    /// Binds the reports to the text of the source they are about.
    pub fn build(self, source: String) -> (r: DiagnosticTuple)
        ensures
            r.path == self.path(),
            r.source == source,
            r.reports@ == self.reports(),
    {
        DiagnosticTuple { path: self.path, source, reports: self.errors }
    }
}

} // verus!
