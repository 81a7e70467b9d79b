//! The data that a scan yields, and the capability of scanning.

use vstd::prelude::*;

pub mod file_matcher;
pub mod order;
pub mod pattern;
pub mod span;

verus! {

/// One reported line, as a mathematical value.
pub struct MatchRecord {
    pub content: Seq<char>,
    pub line_no: nat,
    pub start: nat,
    pub end: nat,
}

/// One line in which the pattern has a match.
///
/// `first_word_start` and `first_word_end` bound the first match as a
/// half-open range of character positions in `content`.
#[derive(Debug, Clone, PartialEq, Eq)]
pub struct MatchedLine {
    pub content: String,
    pub line_no: usize,
    pub first_word_start: usize,
    pub first_word_end: usize,
}

impl View for MatchedLine {
    type V = MatchRecord;

    open spec fn view(&self) -> MatchRecord {
        MatchRecord {
            content: self.content@,
            line_no: self.line_no as nat,
            start: self.first_word_start as nat,
            end: self.first_word_end as nat,
        }
    }
}

/// Why the scan of one file yielded no result.
#[derive(Debug, Clone, PartialEq, Eq)]
pub enum MatchError {
    /// The file could not be opened or read.
    Io(String),
    /// The pattern is no regular expression.
    Pattern(String),
    /// The evaluation of one line broke off.
    TaskFailure(String),
}

impl MatchError {
    /// The message that the error carries.
    pub fn message(&self) -> (r: &String)
        ensures
            *r == match *self {
                MatchError::Io(m) => m,
                MatchError::Pattern(m) => m,
                MatchError::TaskFailure(m) => m,
            },
    {
        match self {
            MatchError::Io(m) => m,
            MatchError::Pattern(m) => m,
            MatchError::TaskFailure(m) => m,
        }
    }
}

/// The capability of scanning for the lines in which a pattern has a match.
pub trait LineMatcher {
    /// Reports the matched lines, or why there is no report.
    ///
    /// Whatever is reported stands in the order of the line numbers, no
    /// number twice, and every span lies inside its line.
    fn match_line(&self, pattern: String) -> (r: Result<Vec<MatchedLine>, MatchError>)
        ensures
            r matches Ok(found) ==> {
                &&& forall|i: int| 0 <= i < found@.len() ==> (#[trigger] found@[i]).wf()
                &&& forall|i: int, j: int|
                    0 <= i < j < found@.len() ==> found@[i].line_no < found@[j].line_no
            },
    ;
}

impl MatchRecord {
    /// The span is a range of character positions of the line.
    pub open spec fn span_ok(self) -> bool {
        self.start <= self.end <= self.content.len()
    }

    /// The line number counts from one and the span lies inside the line.
    pub open spec fn wf(self) -> bool {
        &&& 1 <= self.line_no
        &&& self.span_ok()
    }
}

impl MatchedLine {
    /// The span is a range of character positions of the line.
    pub open spec fn span_ok(&self) -> bool {
        self@.span_ok()
    }

    /// The line number counts from one and the span lies inside the line.
    pub open spec fn wf(&self) -> bool {
        self@.wf()
    }
}

} // verus!
