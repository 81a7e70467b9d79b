//! The scan of one text file: every line is evaluated by itself, and the
//! outcomes are brought together in the order of the file.

use vstd::prelude::*;
use vstd::seq_lib::*;
use crate::matcher::{LineMatcher, MatchError, MatchRecord, MatchedLine};
use crate::matcher::order::{
    ascending, lemma_ascending_unique, records, restore_order, strictly_ascending,
};
use crate::matcher::pattern::{first_match_chars, pattern_compiles, Pattern};

verus! {

broadcast use vstd::multiset::group_multiset_axioms;

/// What one evaluation hands back: a matched line, none, or a failure.
pub type Outcome = Result<Option<MatchedLine>, MatchError>;

/// The texts of a sequence of lines.
pub open spec fn line_texts(lines: Seq<String>) -> Seq<Seq<char>> {
    lines.map_values(|l: String| l@)
}

/// The record of the line `text` with number `line_no`, where `pattern`
/// has a match in it.
pub open spec fn record_at(pattern: Seq<char>, text: Seq<char>, line_no: nat) -> Option<
    MatchRecord,
> {
    match first_match_chars(pattern, text) {
        Some(span) => Some(
            MatchRecord { content: text, line_no: line_no, start: span.0, end: span.1 },
        ),
        None => None,
    }
}

/// The records of the lines in which `pattern` has a match, in the order
/// of the lines, each with the position of its line counted from one.
pub open spec fn matches_in(pattern: Seq<char>, lines: Seq<Seq<char>>) -> Seq<MatchRecord>
    decreases lines.len(),
{
    if lines.len() == 0 {
        seq![]
    } else {
        let before = matches_in(pattern, lines.drop_last());
        match record_at(pattern, lines.last(), lines.len()) {
            Some(r) => before.push(r),
            None => before,
        }
    }
}

/// The records among `outcomes`, in their order there.
pub open spec fn hits(outcomes: Seq<Outcome>) -> Seq<MatchRecord>
    decreases outcomes.len(),
{
    if outcomes.len() == 0 {
        seq![]
    } else {
        let before = hits(outcomes.drop_last());
        match outcomes.last() {
            Ok(Some(m)) => before.push(m@),
            _ => before,
        }
    }
}

/// The failure among `outcomes` that stands first from position `from` on.
pub open spec fn failure_from(outcomes: Seq<Outcome>, from: int) -> Option<MatchError>
    decreases outcomes.len() - from,
{
    if from < 0 || from >= outcomes.len() {
        None
    } else {
        match outcomes[from] {
            Err(e) => Some(e),
            Ok(_) => failure_from(outcomes, from + 1),
        }
    }
}

/// The failure that stands first among `outcomes`.
pub open spec fn first_failure(outcomes: Seq<Outcome>) -> Option<MatchError> {
    failure_from(outcomes, 0)
}

/// What bringing `outcomes` together comes to: the failure that stands
/// first, or else their records in the order of the line numbers.
pub open spec fn gathered(outcomes: Seq<Outcome>, r: Result<Vec<MatchedLine>, MatchError>) -> bool {
    match r {
        Err(e) => first_failure(outcomes) == Some(e),
        Ok(found) => {
            &&& first_failure(outcomes) is None
            &&& ascending(records(found@))
            &&& records(found@).to_multiset() == hits(outcomes).to_multiset()
            &&& found@.len() == hits(outcomes).len()
        },
    }
}

/// Evaluates one line against a compiled pattern.
///
/// Yields the line with the number it was given and the span of the first
/// match in characters, or nothing where the pattern has no match in it.
pub fn match_one(pattern: &Pattern, line: String, line_no: usize) -> (r: Option<MatchedLine>)
    ensures
        match r {
            Some(m) => record_at(pattern@, line@, line_no as nat) == Some(m@),
            None => record_at(pattern@, line@, line_no as nat) is None,
        },
        r matches Some(m) ==> m.content == line && m.line_no == line_no
            && m.first_word_start <= m.first_word_end <= line@.len(),
{
    match pattern.find_first(line.as_str()) {
        Some(span) => Some(
            MatchedLine {
                content: line,
                line_no: line_no,
                first_word_start: span.0,
                first_word_end: span.1,
            },
        ),
        None => None,
    }
}

/// Evaluates one line against a pattern that is given as text: the unit of
/// work that can be handed out line by line.
pub fn evaluate_line(line: String, pattern: &str, line_no: usize) -> (r: Outcome)
    ensures
        r is Ok <==> pattern_compiles(pattern@),
        r is Err ==> r->Err_0 is Pattern,
        r matches Ok(found) ==> match found {
            Some(m) => record_at(pattern@, line@, line_no as nat) == Some(m@),
            None => record_at(pattern@, line@, line_no as nat) is None,
        },
        r matches Ok(Some(m)) ==> m.content == line && m.line_no == line_no
            && m.first_word_start <= m.first_word_end <= line@.len(),
{
    match Pattern::compile(pattern) {
        Ok(compiled) => Ok(match_one(&compiled, line, line_no)),
        Err(e) => Err(e),
    }
}

/// Brings the outcomes of the evaluations together, in whatever order they
/// arrive.
///
/// Where an evaluation failed, the failure that stands first is handed on
/// and no line is reported. Otherwise the matched lines are reported in the
/// order of their line numbers.
pub fn gather(outcomes: Vec<Outcome>) -> (r: Result<Vec<MatchedLine>, MatchError>)
    ensures
        gathered(outcomes@, r),
{
    let ghost all = outcomes@;
    let mut rest = outcomes;
    let mut found: Vec<MatchedLine> = Vec::new();
    let mut failure: Option<MatchError> = None;
    proof {
        assert(records(found@) =~= Seq::<MatchRecord>::empty());
        to_multiset_len(records(found@));
        assert(rest@ =~= all.take(rest@.len() as int));
        assert(records(found@).to_multiset().add(hits(rest@).to_multiset()) =~= hits(
            all,
        ).to_multiset());
    }
    while rest.len() > 0
        invariant
            rest@ == all.take(rest@.len() as int),
            rest@.len() <= all.len(),
            failure == failure_from(all, rest@.len() as int),
            records(found@).to_multiset().add(hits(rest@).to_multiset()) == hits(
                all,
            ).to_multiset(),
        decreases rest.len(),
    {
        let ghost before = rest@;
        let ghost had = found@;
        let outcome = rest.pop().unwrap();
        proof {
            assert(outcome == all[rest@.len() as int]);
            assert(rest@ =~= all.take(rest@.len() as int));
            assert(before.drop_last() =~= rest@);
            assert(before.last() == outcome);
        }
        match outcome {
            Ok(Some(m)) => {
                proof {
                    to_multiset_build(hits(rest@), m@);
                    to_multiset_build(records(had), m@);
                    assert(records(had.push(m)) =~= records(had).push(m@));
                }
                found.push(m);
                assert(records(found@).to_multiset().add(hits(rest@).to_multiset()) =~= hits(
                    all,
                ).to_multiset());
            },
            Ok(None) => {},
            Err(e) => {
                failure = Some(e);
            },
        }
    }
    match failure {
        Some(e) => Err(e),
        None => {
            proof {
                assert(hits(rest@) =~= Seq::<MatchRecord>::empty());
                to_multiset_len(hits(rest@));
                assert(records(found@).to_multiset() =~= hits(all).to_multiset());
                to_multiset_len(records(found@));
                to_multiset_len(hits(all));
            }
            Ok(restore_order(found))
        },
    }
}

/// What the scan of `lines` for `pattern` reports: the matching lines in
/// the order of the file, or nothing where the pattern does not compile.
pub open spec fn scan_result(pattern: Seq<char>, lines: Seq<Seq<char>>) -> Option<
    Seq<MatchRecord>,
> {
    if pattern_compiles(pattern) {
        Some(matches_in(pattern, lines))
    } else {
        None
    }
}

/// The records of a report, or nothing where the scan failed.
pub open spec fn reported(r: Result<Vec<MatchedLine>, MatchError>) -> Option<Seq<MatchRecord>> {
    match r {
        Ok(found) => Some(records(found@)),
        Err(_) => None,
    }
}

/// The lines of one text file, held for scanning.
pub struct TextFileLineMatcher {
    text_file_path: String,
    lines: Vec<String>,
}

impl TextFileLineMatcher {
    /// The path of the file.
    pub closed spec fn path(&self) -> Seq<char> {
        self.text_file_path@
    }

    /// The lines of the file, the first line first.
    pub closed spec fn lines(&self) -> Seq<Seq<char>> {
        line_texts(self.lines@)
    }

    /// Holds the lines that were read from the file at `path`, each without
    /// its line ending.
    pub fn new(path: &str, lines: Vec<String>) -> (r: TextFileLineMatcher)
        ensures
            r.path() == path@,
            r.lines() == line_texts(lines@),
    {
        TextFileLineMatcher { text_file_path: path.to_owned(), lines: lines }
    }

    /// The path of the file.
    pub fn text_file_path(&self) -> (r: &str)
        ensures
            r@ == self.path(),
    {
        self.text_file_path.as_str()
    }

    /// The number of lines.
    pub fn line_count(&self) -> (r: usize)
        ensures
            r == self.lines().len(),
    {
        self.lines.len()
    }

    /// The lines, each with its number: the position of the line in the
    /// file, counted from one. These are the units of work that can be
    /// handed out one by one.
    pub fn numbered_lines(&self) -> (r: Vec<(usize, String)>)
        ensures
            r@.len() == self.lines().len(),
            forall|k: int|
                0 <= k < r@.len() ==> (#[trigger] r@[k]).0 == k + 1 && r@[k].1@ == self.lines()[k],
    {
        let mut r: Vec<(usize, String)> = Vec::new();
        let mut i: usize = 0;
        while i < self.lines.len()
            invariant
                i <= self.lines@.len(),
                r@.len() == i,
                forall|k: int|
                    0 <= k < i ==> (#[trigger] r@[k]).0 == k + 1 && r@[k].1@ == self.lines@[k]@,
            decreases self.lines@.len() - i,
        {
            r.push((i + 1, self.lines[i].clone()));
            i += 1;
        }
        r
    }
}

impl LineMatcher for TextFileLineMatcher {
    /// Scans the lines for `pattern`.
    ///
    /// Fails on exactly the patterns that do not compile, whatever the
    /// lines are. Otherwise it reports every line in which the pattern has a
    /// match, in the order of the file, with the position of the line
    /// counted from one and the span of the first match in characters.
    fn match_line(&self, pattern: String) -> (r: Result<Vec<MatchedLine>, MatchError>)
        ensures
            reported(r) == scan_result(pattern@, self.lines()),
            r is Err ==> r->Err_0 is Pattern,
    {
        let compiled = match Pattern::compile(pattern.as_str()) {
            Ok(c) => c,
            Err(e) => {
                return Err(e);
            },
        };
        let ghost texts = self.lines();
        let ghost expected = matches_in(pattern@, texts);
        let mut tasks = self.numbered_lines();
        let mut outcomes: Vec<Outcome> = Vec::new();
        proof {
            assert(texts.take(tasks@.len() as int) =~= texts);
            assert(hits(outcomes@) =~= Seq::<MatchRecord>::empty());
            to_multiset_len(hits(outcomes@));
            assert(hits(outcomes@).to_multiset().add(expected.to_multiset()) =~= expected.to_multiset());
        }
        // the lines are evaluated from the last to the first
        while tasks.len() > 0
            invariant
                compiled@ == pattern@,
                texts == self.lines(),
                expected == matches_in(pattern@, texts),
                tasks@.len() <= texts.len(),
                forall|k: int|
                    0 <= k < tasks@.len() ==> (#[trigger] tasks@[k]).0 == k + 1 && tasks@[k].1@
                        == texts[k],
                first_failure(outcomes@) is None,
                hits(outcomes@).to_multiset().add(
                    matches_in(pattern@, texts.take(tasks@.len() as int)).to_multiset(),
                ) == expected.to_multiset(),
                forall|k: int|
                    0 <= k < hits(outcomes@).len() ==> (#[trigger] hits(outcomes@)[k]).wf(),
            decreases tasks@.len(),
        {
            let ghost before = outcomes@;
            let ghost n = tasks@.len() as int;
            let (line_no, line) = tasks.pop().unwrap();
            let found = match_one(&compiled, line, line_no);
            outcomes.push(Ok(found));
            proof {
                assert(outcomes@.drop_last() =~= before);
                assert(texts.take(n).drop_last() =~= texts.take(n - 1));
                assert(texts.take(n).last() == texts[n - 1]);
                lemma_failure_from_push(before, Ok(found), 0);
                if found is Some {
                    let m = found->Some_0@;
                    to_multiset_build(hits(before), m);
                    to_multiset_build(matches_in(pattern@, texts.take(n - 1)), m);
                }
                assert(hits(outcomes@).to_multiset().add(
                    matches_in(pattern@, texts.take(n - 1)).to_multiset(),
                ) =~= expected.to_multiset());
            }
        }
        let ghost arrived = hits(outcomes@);
        let r = gather(outcomes);
        proof {
            assert(texts.take(0) =~= Seq::<Seq<char>>::empty());
            to_multiset_len(matches_in(pattern@, texts.take(0)));
            assert(arrived.to_multiset() =~= expected.to_multiset());
            let found = r->Ok_0;
            lemma_matches_in_positions(pattern@, texts);
            lemma_ascending_unique(expected, records(found@));
            assert forall|k: int| 0 <= k < found@.len() implies (#[trigger] found@[k]).wf() by {
                let m = found@[k]@;
                assert(records(found@)[k] == m);
                assert(expected.contains(m));
                to_multiset_contains(expected, m);
                to_multiset_contains(arrived, m);
                let at = choose|at: int| 0 <= at < arrived.len() && arrived[at] == m;
                assert(arrived[at].wf());
            }
            assert forall|a: int, b: int| 0 <= a < b < found@.len() implies found@[a].line_no
                < found@[b].line_no by {
                assert(records(found@)[a] == found@[a]@);
                assert(records(found@)[b] == found@[b]@);
            }
        }
        r
    }
}

/// One more outcome at the end changes the first failure only where there
/// was none.
proof fn lemma_failure_from_push(outcomes: Seq<Outcome>, last: Outcome, from: int)
    requires
        0 <= from <= outcomes.len(),
    ensures
        failure_from(outcomes.push(last), from) == match failure_from(outcomes, from) {
            Some(e) => Some(e),
            None => match last {
                Err(e) => Some(e),
                Ok(_) => None,
            },
        },
    decreases outcomes.len() - from,
{
    let grown = outcomes.push(last);
    if from < outcomes.len() {
        assert(grown[from] == outcomes[from]);
        lemma_failure_from_push(outcomes, last, from + 1);
    } else {
        assert(grown[from] == last);
        assert(failure_from(grown, from + 1) is None);
    }
}

/// Each reported record stands for the line at the position that its line
/// number names; the line numbers rise strictly; and every line in which
/// the pattern has a match is reported.
pub proof fn lemma_matches_in_positions(pattern: Seq<char>, lines: Seq<Seq<char>>)
    ensures
        strictly_ascending(matches_in(pattern, lines)),
        matches_in(pattern, lines).len() <= lines.len(),
        forall|k: int|
            0 <= k < matches_in(pattern, lines).len() ==> {
                let r = #[trigger] matches_in(pattern, lines)[k];
                &&& 1 <= r.line_no <= lines.len()
                &&& r.content == lines[r.line_no - 1]
                &&& record_at(pattern, lines[r.line_no - 1], r.line_no) == Some(r)
            },
        forall|n: int|
            0 <= n < lines.len() && (#[trigger] record_at(pattern, lines[n], (n + 1) as nat))
                is Some ==> matches_in(pattern, lines).contains(
                record_at(pattern, lines[n], (n + 1) as nat)->Some_0,
            ),
    decreases lines.len(),
{
    let all = matches_in(pattern, lines);
    if lines.len() > 0 {
        let shorter = lines.drop_last();
        let before = matches_in(pattern, shorter);
        lemma_matches_in_positions(pattern, shorter);
        assert forall|k: int| 0 <= k < all.len() implies {
            let r = #[trigger] all[k];
            &&& 1 <= r.line_no <= lines.len()
            &&& r.content == lines[r.line_no - 1]
            &&& record_at(pattern, lines[r.line_no - 1], r.line_no) == Some(r)
        } by {
            if k < before.len() {
                assert(all[k] == before[k]);
                assert(shorter[before[k].line_no - 1] == lines[before[k].line_no - 1]);
            }
        }
        assert forall|i: int, j: int| 0 <= i < j < all.len() implies all[i].line_no
            < all[j].line_no by {
            assert(all[i] == before[i]);
            if j < before.len() {
                assert(all[j] == before[j]);
            }
        }
        assert forall|n: int|
            0 <= n < lines.len() && (#[trigger] record_at(pattern, lines[n], (n + 1) as nat))
                is Some implies all.contains(
            record_at(pattern, lines[n], (n + 1) as nat)->Some_0,
        ) by {
            let r = record_at(pattern, lines[n], (n + 1) as nat)->Some_0;
            if n < shorter.len() {
                assert(shorter[n] == lines[n]);
                assert(before.contains(r));
                let k = choose|k: int| 0 <= k < before.len() && before[k] == r;
                assert(all[k] == r);
            } else {
                assert(all[all.len() - 1] == r);
            }
        }
    }
}

/// Where no evaluation failed and the outcomes hold the records of the
/// matching lines, in whatever order they arrived, what is gathered is the
/// report of the scan: the records in the order of the file.
pub proof fn lemma_arrival_order_is_restored(
    pattern: Seq<char>,
    lines: Seq<Seq<char>>,
    outcomes: Seq<Outcome>,
    r: Result<Vec<MatchedLine>, MatchError>,
)
    requires
        first_failure(outcomes) is None,
        hits(outcomes).to_multiset() == matches_in(pattern, lines).to_multiset(),
        gathered(outcomes, r),
    ensures
        r is Ok,
        records(r->Ok_0@) == matches_in(pattern, lines),
{
    lemma_matches_in_positions(pattern, lines);
    lemma_ascending_unique(matches_in(pattern, lines), records(r->Ok_0@));
}

/// Scanning twice gives one report: what is reported is a function of the
/// pattern and the lines alone.
pub proof fn lemma_scan_repeatable(
    pattern: Seq<char>,
    lines: Seq<Seq<char>>,
    first: Result<Vec<MatchedLine>, MatchError>,
    second: Result<Vec<MatchedLine>, MatchError>,
)
    requires
        reported(first) == scan_result(pattern, lines),
        reported(second) == scan_result(pattern, lines),
    ensures
        first is Ok <==> second is Ok,
        first is Ok ==> records(first->Ok_0@) == records(second->Ok_0@),
        first is Ok ==> first->Ok_0@.len() == second->Ok_0@.len(),
{
    if first is Ok {
        assert(records(first->Ok_0@).len() == first->Ok_0@.len());
        assert(records(second->Ok_0@).len() == second->Ok_0@.len());
    }
}

/// A pattern that compiles and has a match in no line yields an empty
/// report, not a failure.
pub proof fn lemma_no_match_empty_report(pattern: Seq<char>, lines: Seq<Seq<char>>)
    requires
        pattern_compiles(pattern),
        forall|i: int| 0 <= i < lines.len() ==> first_match_chars(pattern, #[trigger] lines[i]) is None,
    ensures
        scan_result(pattern, lines) == Some(Seq::<MatchRecord>::empty()),
    decreases lines.len(),
{
    if lines.len() > 0 {
        let shorter = lines.drop_last();
        assert forall|i: int| 0 <= i < shorter.len() implies first_match_chars(
            pattern,
            #[trigger] shorter[i],
        ) is None by {
            assert(shorter[i] == lines[i]);
        }
        lemma_no_match_empty_report(pattern, shorter);
        assert(first_match_chars(pattern, lines[lines.len() - 1]) is None);
    }
    assert(matches_in(pattern, lines) =~= Seq::<MatchRecord>::empty());
}

/// A pattern that does not compile yields no report, whatever the lines.
pub proof fn lemma_bad_pattern_no_report(pattern: Seq<char>, lines: Seq<Seq<char>>)
    requires
        !pattern_compiles(pattern),
    ensures
        scan_result(pattern, lines) is None,
{
}

} // verus!
