//! A line search library: for the lines of one text file it reports each
//! line in which a regular expression has a match, with the line's number
//! and the span of the first match counted in characters, and composes the
//! coloured text in which the matched lines are shown.

use vstd::prelude::*;
use crate::matcher::file_matcher::{line_texts, matches_in, TextFileLineMatcher};
use crate::matcher::pattern::pattern_compiles;
use crate::matcher::{LineMatcher, MatchError};
use crate::writer::printer::{layout_of, renders, ColoredPrinter};
use crate::writer::Writer;

pub mod matcher;
pub mod utils;
pub mod writer;

verus! {

/// Scans the lines of the file at `file_path` for `pattern` and composes
/// what is shown for it.
///
/// Fails on exactly the patterns that do not compile. A file without a
/// matching line is passed over in silence: nothing is shown for it.
pub fn grep_single_file(file_path: String, lines: Vec<String>, pattern: String) -> (r: Result<
    Option<String>,
    MatchError,
>)
    ensures
        r is Ok <==> pattern_compiles(pattern@),
        r is Err ==> r->Err_0 is Pattern,
        r matches Ok(shown) ==> {
            let found = matches_in(pattern@, line_texts(lines@));
            match shown {
                Some(text) => found.len() > 0 && renders(text@, layout_of(file_path@, found)),
                None => found.len() == 0,
            }
        },
{
    let line_matcher = TextFileLineMatcher::new(file_path.as_str(), lines);
    let matched_lines = match line_matcher.match_line(pattern) {
        Ok(found) => found,
        Err(e) => {
            return Err(e);
        },
    };
    if matched_lines.len() == 0 {
        return Ok(None);
    }
    match ColoredPrinter::write_all(file_path, matched_lines) {
        Ok(text) => Ok(Some(text)),
        Err(e) => Err(e),
    }
}

} // verus!
