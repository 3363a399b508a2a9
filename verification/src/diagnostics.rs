//! Structured diagnostics: a message, one or more labelled spans into the
//! reconstructed source text of a statement, and the text itself. Rendering
//! to a terminal is left to unverified callers; the evaluator and parser only
//! build these values.

#![allow(unused_imports)]
use vstd::prelude::*;

verus! {

/// A half-open byte range `start..end` into a piece of source text.
#[derive(Debug, Clone, Copy, PartialEq, Eq, Structural)]
pub struct Span {
    pub start: usize,
    pub end: usize,
}

/// How severe the condition a label points at is.
#[derive(Debug, Clone, Copy, PartialEq, Eq, Structural)]
pub enum Severity {
    Error,
    Warning,
}

/// One labelled span of a diagnostic.
#[derive(Debug)]
pub struct Label {
    pub span: Span,
    pub message: String,
    pub severity: Severity,
}

/// The model of a label: the message as a character sequence.
pub struct SpecLabel {
    pub span: Span,
    pub message: Seq<char>,
    pub severity: Severity,
}

impl DeepView for Label {
    type V = SpecLabel;

    open spec fn deep_view(&self) -> SpecLabel {
        SpecLabel { span: self.span, message: self.message@, severity: self.severity }
    }
}

/// A diagnostic report: a headline message, labelled spans, and the source
/// text the spans index into.
#[derive(Debug)]
pub struct Diag {
    pub message: String,
    pub labels: Vec<Label>,
    pub source: String,
}

/// The model of a diagnostic.
pub struct SpecDiag {
    pub message: Seq<char>,
    pub labels: Seq<SpecLabel>,
    pub source: Seq<char>,
}

impl DeepView for Diag {
    type V = SpecDiag;

    open spec fn deep_view(&self) -> SpecDiag {
        SpecDiag {
            message: self.message@,
            labels: self.labels.deep_view(),
            source: self.source@,
        }
    }
}

/// A diagnostic for a failure inside a call, pointing at nothing more
/// specific than the call itself.
pub fn simple_diag(message: &str, detail: &str) -> (d: Diag)
    ensures
        d.message@ == message@,
        d.labels@.len() == 1,
        d.labels@[0].message@ == detail@,
{
    let mut labels: Vec<Label> = Vec::new();
    labels.push(
        Label {
            span: Span { start: 0, end: 0 },
            message: detail.to_owned(),
            severity: Severity::Error,
        },
    );
    Diag { message: message.to_owned(), labels, source: String::new() }
}

/// A diagnostic like `simple_diag`, with an already built detail line.
pub fn simple_diag_with(message: &str, detail: String) -> (d: Diag)
    ensures
        d.deep_view().message == message@,
        d.deep_view().labels.len() == 1,
        d.deep_view().labels[0].message == detail@,
        d.deep_view().labels[0].severity == Severity::Error,
{
    let mut labels: Vec<Label> = Vec::new();
    labels.push(
        Label { span: Span { start: 0, end: 0 }, message: detail, severity: Severity::Error },
    );
    proof {
        assert(labels.deep_view() =~= seq![labels@[0].deep_view()]);
    }
    Diag { message: message.to_owned(), labels, source: String::new() }
}

} // verus!
