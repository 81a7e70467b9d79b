//! The regular expression engine, and what this library takes from it.

use vstd::prelude::*;
use crate::matcher::MatchError;
use crate::matcher::span::{char_index, char_span, on_boundary};

verus! {

/// `regex::Regex`, a compiled regular expression. Nothing inside it is
/// seen here: it is kept and handed back to the engine.
#[verifier::external_type_specification]
#[verifier::external_body]
pub struct ExRegex(regex::Regex);

/// `regex::Error`, the engine's account of a pattern that it refuses.
/// Nothing inside it is seen here.
#[verifier::external_type_specification]
#[verifier::external_body]
pub struct ExRegexError(regex::Error);

/// Whether `regex::Regex::new` accepts `pattern` as a regular expression.
/// The engine decides it from the text of the pattern alone.
pub uninterp spec fn pattern_compiles(pattern: Seq<char>) -> bool;

/// What `regex::Regex::find` yields for the expression compiled from
/// `pattern` on `text`: the first match, as the byte offsets of its start
/// and its end in the UTF-8 form of `text`, or nothing.
pub uninterp spec fn first_match(pattern: Seq<char>, text: Seq<char>) -> Option<(usize, usize)>;

/// A byte span that can be cut out of `text`: its ends are in order and lie
/// on character boundaries.
pub open spec fn byte_span_ok(text: Seq<char>, span: (usize, usize)) -> bool {
    &&& span.0 <= span.1
    &&& on_boundary(text, span.0 as int)
    &&& on_boundary(text, span.1 as int)
}

/// The first match of `pattern` in `text` in character positions.
pub open spec fn first_match_chars(pattern: Seq<char>, text: Seq<char>) -> Option<(nat, nat)> {
    match first_match(pattern, text) {
        Some(span) => Some((char_index(text, span.0 as int), char_index(text, span.1 as int))),
        None => None,
    }
}

/// A compiled regular expression together with the text it was compiled from.
pub struct Pattern {
    source: String,
    engine: regex::Regex,
}

impl View for Pattern {
    type V = Seq<char>;

    closed spec fn view(&self) -> Seq<char> {
        self.source@
    }
}

impl Pattern {
    /// Calls `regex::Regex::new`. It is taken to succeed on exactly the
    /// patterns of which `pattern_compiles` holds, and the value it yields
    /// is kept beside the text it was made from.
    #[verifier::external_body]
    fn build(pattern: &str) -> (r: Result<Pattern, regex::Error>)
        ensures
            r is Ok <==> pattern_compiles(pattern@),
            r is Ok ==> r->Ok_0@ == pattern@,
    {
        match regex::Regex::new(pattern) {
            Ok(engine) => Ok(Pattern { source: pattern.to_string(), engine }),
            Err(e) => Err(e),
        }
    }

    /// Calls `regex::Regex::find` and reads `start` and `end` of the match.
    /// The result is named `first_match`; the engine documents that the two
    /// offsets are in order and fall on character boundaries of `text`.
    #[verifier::external_body]
    fn search(&self, text: &str) -> (r: Option<(usize, usize)>)
        ensures
            r == first_match(self@, text@),
            r is Some ==> byte_span_ok(text@, r->Some_0),
    {
        match self.engine.find(text) {
            Some(m) => Some((m.start(), m.end())),
            None => None,
        }
    }

    /// Compiles `pattern`, or says why it is no regular expression.
    pub fn compile(pattern: &str) -> (r: Result<Pattern, MatchError>)
        ensures
            r is Ok <==> pattern_compiles(pattern@),
            r is Ok ==> r->Ok_0@ == pattern@,
            r is Err ==> r->Err_0 is Pattern,
    {
        match Pattern::build(pattern) {
            Ok(p) => Ok(p),
            Err(e) => Err(MatchError::Pattern(describe(&e))),
        }
    }

    /// The text this pattern was compiled from.
    pub fn as_str(&self) -> (r: &str)
        ensures
            r@ == self@,
    {
        self.source.as_str()
    }

    /// The first match in `text`, as a half-open range of byte offsets into
    /// its UTF-8 form: the range that cuts the match out of `text`.
    pub fn find_first_bytes(&self, text: &str) -> (r: Option<(usize, usize)>)
        ensures
            r == first_match(self@, text@),
            r is Some ==> byte_span_ok(text@, r->Some_0),
    {
        self.search(text)
    }

    /// The first match in `text`, as a half-open range of character
    /// positions.
    pub fn find_first(&self, text: &str) -> (r: Option<(usize, usize)>)
        ensures
            match r {
                Some(span) => first_match_chars(self@, text@) == Some(
                    (span.0 as nat, span.1 as nat),
                ),
                None => first_match_chars(self@, text@) is None,
            },
            r matches Some(span) ==> span.0 <= span.1 <= text@.len(),
    {
        match self.search(text) {
            Some(bytes) => char_span(text, bytes.0, bytes.1),
            None => None,
        }
    }
}

/// Calls the `Display` of `regex::Error`: the engine's own account of what
/// is wrong with a pattern. Nothing is claimed of the wording.
#[verifier::external_body]
fn describe(err: &regex::Error) -> (r: String) {
    format!("{}", err)
}

} // verus!
