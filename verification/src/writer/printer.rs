//! Matched lines as coloured text: the path in green, line number and
//! column in blue, the matched span in red.

use vstd::prelude::*;
use vstd::string::*;
use colored::Colorize;
use crate::matcher::order::records;
use crate::matcher::{MatchError, MatchRecord, MatchedLine};
use crate::writer::{joined, pieces, Piece, Segment, Tone, Writer};

verus! {

/// The width to which the column is filled up.
pub const COLUMN_WIDTH: usize = 4;

/// The character of one decimal digit.
pub open spec fn digit_char(d: nat) -> char {
    if d == 0 {
        '0'
    } else if d == 1 {
        '1'
    } else if d == 2 {
        '2'
    } else if d == 3 {
        '3'
    } else if d == 4 {
        '4'
    } else if d == 5 {
        '5'
    } else if d == 6 {
        '6'
    } else if d == 7 {
        '7'
    } else if d == 8 {
        '8'
    } else {
        '9'
    }
}

/// The decimal numeral of `n`, without leading zeros.
pub open spec fn decimal_text(n: nat) -> Seq<char>
    decreases n,
{
    if n < 10 {
        seq![digit_char(n)]
    } else {
        decimal_text(n / 10).push(digit_char(n % 10))
    }
}

/// `text` followed by as many spaces as it lacks to `width` characters.
pub open spec fn padded(text: Seq<char>, width: nat) -> Seq<char> {
    if text.len() >= width {
        text
    } else {
        text + Seq::new((width - text.len()) as nat, |i: int| ' ')
    }
}

/// A piece that is shown without colour.
pub open spec fn plain(text: Seq<char>) -> Piece {
    Piece { text: text, tone: Tone::Plain }
}

/// The pieces of the line that names the file.
pub open spec fn header(path: Seq<char>) -> Seq<Piece> {
    seq![Piece { text: path, tone: Tone::Green }, plain(seq![':']), plain(seq!['\n'])]
}

/// The pieces of the line that shows one record.
pub open spec fn row(m: MatchRecord) -> Seq<Piece> {
    seq![
        plain(seq![' ', ' ', ' ', ' ']),
        Piece { text: decimal_text(m.line_no), tone: Tone::Blue },
        plain(seq![':']),
        Piece { text: padded(decimal_text(m.start), COLUMN_WIDTH as nat), tone: Tone::Blue },
        plain(seq![' ']),
        plain(m.content.subrange(0, m.start as int)),
        Piece { text: m.content.subrange(m.start as int, m.end as int), tone: Tone::Red },
        plain(m.content.subrange(m.end as int, m.content.len() as int)),
        plain(seq!['\n']),
    ]
}

/// The pieces of the lines that show `ms`, one line for each record.
pub open spec fn rows(ms: Seq<MatchRecord>) -> Seq<Piece>
    decreases ms.len(),
{
    if ms.len() == 0 {
        seq![]
    } else {
        rows(ms.drop_last()) + row(ms.last())
    }
}

/// All pieces that are shown for the records `ms` of the file at `path`.
pub open spec fn layout_of(path: Seq<char>, ms: Seq<MatchRecord>) -> Seq<Piece> {
    header(path) + rows(ms)
}

/// `text` is what `layout` comes to once each piece is painted: a plain
/// piece stands in it as it is, a coloured one as whatever the painting
/// made of it.
pub open spec fn renders(text: Seq<char>, layout: Seq<Piece>) -> bool {
    exists|painted: Seq<Seq<char>>|
        {
            &&& painted.len() == layout.len()
            &&& forall|i: int|
                0 <= i < layout.len() && layout[i].tone is Plain ==> #[trigger] painted[i]
                    == layout[i].text
            &&& text == joined(painted)
        }
}

fn digit(d: usize) -> (r: &'static str)
    requires
        d < 10,
    ensures
        r@ == seq![digit_char(d as nat)],
{
    let r = if d == 0 {
        "0"
    } else if d == 1 {
        "1"
    } else if d == 2 {
        "2"
    } else if d == 3 {
        "3"
    } else if d == 4 {
        "4"
    } else if d == 5 {
        "5"
    } else if d == 6 {
        "6"
    } else if d == 7 {
        "7"
    } else if d == 8 {
        "8"
    } else {
        "9"
    };
    proof {
        reveal_strlit("0");
        reveal_strlit("1");
        reveal_strlit("2");
        reveal_strlit("3");
        reveal_strlit("4");
        reveal_strlit("5");
        reveal_strlit("6");
        reveal_strlit("7");
        reveal_strlit("8");
        reveal_strlit("9");
        assert(r@ =~= seq![digit_char(d as nat)]);
    }
    r
}

/// The decimal numeral of `n`.
pub fn decimal(n: usize) -> (r: String)
    ensures
        r@ == decimal_text(n as nat),
    decreases n,
{
    if n < 10 {
        digit(n).to_owned()
    } else {
        let mut r = decimal(n / 10);
        let ghost before = r@;
        r.append(digit(n % 10));
        assert(r@ =~= before.push(digit_char((n % 10) as nat)));
        r
    }
}

/// Fills `text` up with spaces on the right to `width` characters.
pub fn pad_right(text: String, width: usize) -> (r: String)
    ensures
        r@ == padded(text@, width as nat),
{
    let mut r = text;
    let mut len: usize = r.as_str().unicode_len();
    if len >= width {
        return r;
    }
    let ghost start = len;
    while len < width
        invariant
            start <= len <= width,
            start == text@.len(),
            r@ == text@ + Seq::new((len - start) as nat, |i: int| ' '),
        decreases width - len,
    {
        proof {
            reveal_strlit(" ");
        }
        r.append(" ");
        len += 1;
        assert(r@ =~= text@ + Seq::new((len - start) as nat, |i: int| ' '));
    }
    r
}

/// The part of `content` between two character positions.
fn cut(content: &str, from: usize, to: usize) -> (r: String)
    requires
        from <= to <= content@.len(),
    ensures
        r@ == content@.subrange(from as int, to as int),
{
    content.substring_char(from, to).to_owned()
}

fn plain_segment(text: &'static str) -> (r: Segment)
    ensures
        r@ == plain(text@),
{
    Segment { text: text.to_owned(), tone: Tone::Plain }
}

/// Adds the pieces of the line that shows `m`.
fn push_row(out: &mut Vec<Segment>, m: &MatchedLine)
    requires
        m.span_ok(),
    ensures
        pieces(final(out)@) == pieces(old(out)@) + row(m@),
{
    let ghost before = out@;
    let content = m.content.as_str();
    let len = content.unicode_len();
    proof {
        reveal_strlit("    ");
        reveal_strlit(":");
        reveal_strlit(" ");
        reveal_strlit("\n");
        assert("    "@ =~= seq![' ', ' ', ' ', ' ']);
        assert(":"@ =~= seq![':']);
        assert(" "@ =~= seq![' ']);
        assert("\n"@ =~= seq!['\n']);
    }
    out.push(plain_segment("    "));
    out.push(Segment { text: decimal(m.line_no), tone: Tone::Blue });
    out.push(plain_segment(":"));
    out.push(
        Segment { text: pad_right(decimal(m.first_word_start), COLUMN_WIDTH), tone: Tone::Blue },
    );
    out.push(plain_segment(" "));
    out.push(Segment { text: cut(content, 0, m.first_word_start), tone: Tone::Plain });
    out.push(
        Segment { text: cut(content, m.first_word_start, m.first_word_end), tone: Tone::Red },
    );
    out.push(Segment { text: cut(content, m.first_word_end, len), tone: Tone::Plain });
    out.push(plain_segment("\n"));
    assert(pieces(out@) =~= pieces(before) + row(m@));
}

/// Calls `colored::Colorize::green` and the `Display` of the coloured
/// string it yields. Whether escape codes are written depends on the
/// terminal and the environment, so nothing is claimed of the result.
#[verifier::external_body]
fn paint_green(text: &str) -> (r: String) {
    format!("{}", text.green())
}

/// Calls `colored::Colorize::blue` and the `Display` of the coloured string
/// it yields. Nothing is claimed of the result.
#[verifier::external_body]
fn paint_blue(text: &str) -> (r: String) {
    format!("{}", text.blue())
}

/// Calls `colored::Colorize::red` and the `Display` of the coloured string
/// it yields. Nothing is claimed of the result.
#[verifier::external_body]
fn paint_red(text: &str) -> (r: String) {
    format!("{}", text.red())
}

/// The text of `parts`, one after another.
pub fn assemble(parts: &Vec<String>) -> (r: String)
    ensures
        r@ == joined(parts.deep_view()),
{
    let mut r = String::new();
    let mut i: usize = 0;
    proof {
        assert(parts.deep_view().take(0) =~= Seq::<Seq<char>>::empty());
    }
    while i < parts.len()
        invariant
            i <= parts@.len(),
            r@ == joined(parts.deep_view().take(i as int)),
        decreases parts@.len() - i,
    {
        proof {
            let next = parts.deep_view().take(i + 1);
            assert(next.drop_last() =~= parts.deep_view().take(i as int));
            assert(next.last() == parts@[i as int]@);
        }
        r.append(parts[i].as_str());
        i += 1;
    }
    proof {
        assert(parts.deep_view().take(i as int) =~= parts.deep_view());
    }
    r
}

/// Shows matched lines in colour.
pub struct ColoredPrinter {}

impl ColoredPrinter {
    /// Lays out what is shown for `lines` of the file at `relative_path`:
    /// a line that names the file, then one line for each matched line
    /// with its number, the column of the match, and the content cut into
    /// what stands before, inside and after the matched span.
    pub fn layout(relative_path: &str, lines: &Vec<MatchedLine>) -> (r: Vec<Segment>)
        requires
            forall|i: int| 0 <= i < lines@.len() ==> (#[trigger] lines@[i]).span_ok(),
        ensures
            pieces(r@) == layout_of(relative_path@, records(lines@)),
    {
        let mut out: Vec<Segment> = Vec::new();
        proof {
            reveal_strlit(":");
            reveal_strlit("\n");
            assert(":"@ =~= seq![':']);
            assert("\n"@ =~= seq!['\n']);
        }
        out.push(Segment { text: relative_path.to_owned(), tone: Tone::Green });
        out.push(plain_segment(":"));
        out.push(plain_segment("\n"));
        let mut i: usize = 0;
        proof {
            assert(pieces(out@) =~= header(relative_path@));
            assert(records(lines@).take(0) =~= Seq::<MatchRecord>::empty());
            assert(pieces(out@) =~= header(relative_path@) + rows(records(lines@).take(0)));
        }
        while i < lines.len()
            invariant
                i <= lines@.len(),
                forall|k: int| 0 <= k < lines@.len() ==> (#[trigger] lines@[k]).span_ok(),
                pieces(out@) == header(relative_path@) + rows(records(lines@).take(i as int)),
            decreases lines@.len() - i,
        {
            proof {
                let next = records(lines@).take(i + 1);
                assert(next.drop_last() =~= records(lines@).take(i as int));
                assert(next.last() == lines@[i as int]@);
            }
            push_row(&mut out, &lines[i]);
            i += 1;
            assert(pieces(out@) =~= header(relative_path@) + rows(
                records(lines@).take(i as int),
            ));
        }
        proof {
            assert(records(lines@).take(i as int) =~= records(lines@));
        }
        out
    }

    /// Paints each segment in its colour and puts the results together.
    pub fn render(segments: &Vec<Segment>) -> (r: String)
        ensures
            renders(r@, pieces(segments@)),
    {
        let mut painted: Vec<String> = Vec::new();
        let mut i: usize = 0;
        while i < segments.len()
            invariant
                i <= segments@.len(),
                painted@.len() == i,
                forall|k: int|
                    0 <= k < i && segments@[k].tone is Plain ==> (#[trigger] painted@[k])@
                        == segments@[k].text@,
            decreases segments@.len() - i,
        {
            let segment = &segments[i];
            let text = match segment.tone {
                Tone::Plain => segment.text.clone(),
                Tone::Green => paint_green(segment.text.as_str()),
                Tone::Blue => paint_blue(segment.text.as_str()),
                Tone::Red => paint_red(segment.text.as_str()),
            };
            painted.push(text);
            i += 1;
        }
        let r = assemble(&painted);
        proof {
            let layout = pieces(segments@);
            let texts = painted.deep_view();
            assert forall|k: int| 0 <= k < layout.len() && layout[k].tone is Plain implies #[trigger] texts[k]
                == layout[k].text by {
                assert(texts[k] == painted@[k]@);
            }
        }
        r
    }
}

impl Writer for ColoredPrinter {
    /// The coloured text for `lines`: the layout of the lines, each piece
    /// painted in its colour.
    fn write_all(relative_path: String, lines: Vec<MatchedLine>) -> (r: Result<String, MatchError>)
        ensures
            r is Ok,
            renders(r->Ok_0@, layout_of(relative_path@, records(lines@))),
    {
        let segments = ColoredPrinter::layout(relative_path.as_str(), &lines);
        Ok(ColoredPrinter::render(&segments))
    }
}

} // verus!
