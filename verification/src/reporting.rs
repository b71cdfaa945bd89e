//! What a report of an error holds: its region, the regions it points at, helps, notes, a
//! message and the frames of the calls in progress.

use vstd::prelude::*;
use crate::runtime::{FunctionName, function_name_text};
use crate::span::SourceSpan;

verus! {

/// A frame of a stack trace, as reports show it: the function's name and where it was called.
#[derive(Debug, Clone)]
pub struct StackFrame<S> {
    pub function_name: String,
    pub location: Option<S>,
}

impl<S> StackFrame<S> {
    /// A frame made of its parts.
    pub fn new(function_name: String, location: Option<S>) -> (r: StackFrame<S>)
        ensures
            r.function_name == function_name,
            r.location == location,
    {
        StackFrame { function_name, location }
    }
}

impl StackFrame<SourceSpan> {
    /// The frame a report shows for a frame of the runtime: the function's name as text.
    pub fn from_runtime(frame: crate::runtime::StackFrame) -> (r: StackFrame<SourceSpan>)
        ensures
            r.function_name@ == function_name_text(frame.function_name),
            r.location == frame.location,
    {
        let name = frame.function_name.display_name();
        StackFrame { function_name: name, location: frame.location }
    }
}

/// The contents of a report.
#[derive(Debug, Clone)]
pub struct DiagnosticConfig<S> {
    pub span: Option<S>,
    pub labels: Vec<S>,
    pub helps: Vec<String>,
    pub notes: Vec<String>,
    pub message: String,
    pub stacktrace: Vec<StackFrame<S>>,
}

impl<S> DiagnosticConfig<S> {
    /// A report made of its parts.
    pub fn new(
        span: Option<S>,
        labels: Vec<S>,
        helps: Vec<String>,
        notes: Vec<String>,
        message: String,
        stacktrace: Vec<StackFrame<S>>,
    ) -> (r: DiagnosticConfig<S>)
        ensures
            r.span == span,
            r.labels@ == labels@,
            r.helps@ == helps@,
            r.notes@ == notes@,
            r.message == message,
            r.stacktrace@ == stacktrace@,
    {
        DiagnosticConfig { span, labels, helps, notes, message, stacktrace }
    }

    /// The same report with the region `new_span`.
    pub fn span(self, new_span: Option<S>) -> (r: DiagnosticConfig<S>)
        ensures
            r.span == new_span,
            r.labels@ == self.labels@,
            r.helps@ == self.helps@,
            r.notes@ == self.notes@,
            r.message == self.message,
            r.stacktrace@ == self.stacktrace@,
    {
        let mut c = self;
        c.span = new_span;
        c
    }

    /// The same report pointing at `new_labels` too, after its regions.
    pub fn labels(self, new_labels: Vec<S>) -> (r: DiagnosticConfig<S>)
        ensures
            r.span == self.span,
            r.labels@ == self.labels@ + new_labels@,
            r.helps@ == self.helps@,
            r.notes@ == self.notes@,
            r.message == self.message,
            r.stacktrace@ == self.stacktrace@,
    {
        let mut c = self;
        let mut more = new_labels;
        c.labels.append(&mut more);
        c
    }

    /// The same report with the helps `new_helps` too, after its own.
    pub fn helps(self, new_helps: Vec<String>) -> (r: DiagnosticConfig<S>)
        ensures
            r.span == self.span,
            r.labels@ == self.labels@,
            r.helps@ == self.helps@ + new_helps@,
            r.notes@ == self.notes@,
            r.message == self.message,
            r.stacktrace@ == self.stacktrace@,
    {
        let mut c = self;
        let mut more = new_helps;
        c.helps.append(&mut more);
        c
    }

    /// The same report with the notes `new_notes` too, after its own.
    pub fn notes(self, new_notes: Vec<String>) -> (r: DiagnosticConfig<S>)
        ensures
            r.span == self.span,
            r.labels@ == self.labels@,
            r.helps@ == self.helps@,
            r.notes@ == self.notes@ + new_notes@,
            r.message == self.message,
            r.stacktrace@ == self.stacktrace@,
    {
        let mut c = self;
        let mut more = new_notes;
        c.notes.append(&mut more);
        c
    }

    /// The same report with the message `new_message`.
    pub fn message(self, new_message: String) -> (r: DiagnosticConfig<S>)
        ensures
            r.span == self.span,
            r.labels@ == self.labels@,
            r.helps@ == self.helps@,
            r.notes@ == self.notes@,
            r.message == new_message,
            r.stacktrace@ == self.stacktrace@,
    {
        let mut c = self;
        c.message = new_message;
        c
    }

    /// The same report with the frames `new_stacktrace` too, after its own.
    pub fn stacktrace(self, new_stacktrace: Vec<StackFrame<S>>) -> (r: DiagnosticConfig<S>)
        ensures
            r.span == self.span,
            r.labels@ == self.labels@,
            r.helps@ == self.helps@,
            r.notes@ == self.notes@,
            r.message == self.message,
            r.stacktrace@ == self.stacktrace@ + new_stacktrace@,
    {
        let mut c = self;
        let mut more = new_stacktrace;
        c.stacktrace.append(&mut more);
        c
    }
}

} // verus!
