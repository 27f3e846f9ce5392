use vstd::prelude::*;
use crate::span::Span;

verus! {

/// A located hint: the span it points at and a short text.
pub struct Label {
    pub span: Span,
    pub hint: String,
}

/// One diagnostic, independent of how it is rendered: a message, the offset
/// it is reported at, and the labels that locate it.
pub struct Report {
    pub message: String,
    pub offset: usize,
    pub labels: Vec<Label>,
}

pub struct LabelView {
    pub span: Span,
    pub hint: Seq<char>,
}

pub struct ReportView {
    pub message: Seq<char>,
    pub offset: usize,
    pub labels: Seq<LabelView>,
}

impl View for Label {
    type V = LabelView;

    open spec fn view(&self) -> LabelView {
        LabelView { span: self.span, hint: self.hint@ }
    }
}

impl View for Report {
    type V = ReportView;

    open spec fn view(&self) -> ReportView {
        ReportView {
            message: self.message@,
            offset: self.offset,
            labels: self.labels@.map_values(|l: Label| l@),
        }
    }
}

/// A report has a message and at least one label, and its offset and every
/// label lie within a source of `len` bytes.
pub open spec fn located(r: ReportView, len: int) -> bool {
    &&& r.message.len() > 0
    &&& r.labels.len() > 0
    &&& r.offset <= len
    &&& forall|i: int| 0 <= i < r.labels.len() ==> (#[trigger] r.labels[i]).span.within(len)
}

/// Builds a `Report` piece by piece; `finish` needs the message and the
/// offset set.
pub struct ReportBuilder {
    pub message: Option<String>,
    pub offset: Option<usize>,
    pub labels: Vec<Label>,
}

impl ReportBuilder {
    pub fn new() -> (r: ReportBuilder)
        ensures
            r.message is None,
            r.offset is None,
            r.labels@.len() == 0,
    {
        ReportBuilder { message: None, offset: None, labels: Vec::new() }
    }

    pub fn message(self, message: String) -> (r: ReportBuilder)
        ensures
            r.message == Some(message),
            r.offset == self.offset,
            r.labels@ == self.labels@,
    {
        ReportBuilder { message: Some(message), ..self }
    }

    pub fn offset(self, offset: usize) -> (r: ReportBuilder)
        ensures
            r.message == self.message,
            r.offset == Some(offset),
            r.labels@ == self.labels@,
    {
        ReportBuilder { offset: Some(offset), ..self }
    }

    /// Appends a label after those already given.
    pub fn label(self, span: Span, hint: String) -> (r: ReportBuilder)
        ensures
            r.message == self.message,
            r.offset == self.offset,
            r.labels@ == self.labels@.push(Label { span, hint }),
    {
        let mut b = self;
        b.labels.push(Label { span, hint });
        b
    }

    pub fn finish(self) -> (r: Report)
        requires
            self.message is Some,
            self.offset is Some,
        ensures
            r.message == self.message->0,
            r.offset == self.offset->0,
            r.labels@ == self.labels@,
    {
        match (self.message, self.offset) {
            (Some(message), Some(offset)) => Report { message, offset, labels: self.labels },
            _ => vstd::pervasive::unreached(),
        }
    }
}

} // verus!
