//! Parsing a text pattern into a grid.
//!
//! The pattern is a sequence of newline-separated lines; a `#` marks a filled
//! cell and every other character an empty one. The grid's width is the
//! longest line's length, shorter lines are right-padded with empty cells,
//! and a pattern whose width comes to zero (no lines, or only empty lines)
//! is rejected.

use vstd::prelude::*;

use vstd::string::StrSliceExecFns;

use crate::block::Block;
use crate::grid::Nonogram;

verus! {

/// The one character of the pattern format that carries meaning.
pub const BLOCK_CHAR: char = '#';

/// Why a pattern was rejected.
#[derive(Debug, PartialEq, Eq)]
pub enum NonogramError {
    /// The pattern text could not be read at all; carries the underlying
    /// cause's description.
    ResourceUnavailable(String),
    /// The pattern parsed to a zero-width (equivalently zero-height) grid.
    InvalidDimensions,
}

/// The cell a single pattern character stands for.
pub open spec fn cell_of_char(c: char) -> Block {
    if c == BLOCK_CHAR {
        Block::Filled
    } else {
        Block::Empty
    }
}

/// One grid row of the given width read from one pattern line: each position
/// covered by the line maps its character through [`cell_of_char`], and the
/// padding region beyond the line's end is all `Empty`.
pub open spec fn spec_parse_line(line: Seq<char>, width: nat) -> Seq<Block> {
    Seq::new(
        width,
        |i: int|
            if i < line.len() {
                cell_of_char(line[i])
            } else {
                Block::Empty
            },
    )
}

/// The position of the first line feed in `s`, or `s.len()` if there is none.
pub open spec fn first_nl(s: Seq<char>) -> int
    decreases s.len(),
{
    if s.len() == 0 {
        0
    } else if s[0] == '\n' {
        0
    } else {
        1 + first_nl(s.drop_first())
    }
}

/// A line with a trailing carriage return dropped, so that a `\r\n` ending
/// counts as one line break.
pub open spec fn strip_cr(line: Seq<char>) -> Seq<char> {
    if line.len() > 0 && line[line.len() - 1] == '\r' {
        line.drop_last()
    } else {
        line
    }
}

/// The lines of a text: split at each line feed, with a carriage return
/// directly before a line feed dropped, and with no empty final line for a
/// text that ends in a line break. A line feed at the very end terminates
/// the last line rather than opening a new one.
pub open spec fn spec_lines(s: Seq<char>) -> Seq<Seq<char>>
    decreases s.len(),
    via spec_lines_decreases
{
    if s.len() == 0 {
        Seq::empty()
    } else {
        let i = first_nl(s);
        if i == s.len() {
            seq![s]
        } else {
            seq![strip_cr(s.take(i))] + spec_lines(s.skip(i + 1))
        }
    }
}

#[via_fn]
proof fn spec_lines_decreases(s: Seq<char>) {
    lemma_first_nl(s);
}

/// The length of the longest of the given lines; zero when there are none.
pub open spec fn max_line_len(lines: Seq<Seq<char>>) -> nat
    decreases lines.len(),
{
    if lines.len() == 0 {
        0
    } else {
        let rest = max_line_len(lines.drop_last());
        if lines.last().len() > rest {
            lines.last().len()
        } else {
            rest
        }
    }
}

/// `first_nl` lands on the first line feed: it stays within the text, no
/// earlier position holds a line feed, and the position it names holds one
/// unless it is the text's end.
pub proof fn lemma_first_nl(s: Seq<char>)
    ensures
        0 <= first_nl(s) <= s.len(),
        forall|j: int| 0 <= j < first_nl(s) ==> s[j] != '\n',
        first_nl(s) < s.len() ==> s[first_nl(s)] == '\n',
    decreases s.len(),
{
    if s.len() == 0 {
    } else if s[0] == '\n' {
    } else {
        lemma_first_nl(s.drop_first());
        assert forall|j: int| 0 <= j < first_nl(s) implies s[j] != '\n' by {
            if j > 0 {
                assert(s.drop_first()[j - 1] == s[j]);
            }
        }
        if first_nl(s) < s.len() {
            assert(s.drop_first()[first_nl(s) - 1] == s[first_nl(s)]);
        }
    }
}

/// The converse: a position within the text with no line feed before it,
/// and a line feed on it unless it is the end, is exactly `first_nl`.
pub proof fn lemma_first_nl_unique(s: Seq<char>, i: int)
    requires
        0 <= i <= s.len(),
        forall|j: int| 0 <= j < i ==> s[j] != '\n',
        i < s.len() ==> s[i] == '\n',
    ensures
        first_nl(s) == i,
    decreases s.len(),
{
    if s.len() == 0 {
    } else if s[0] == '\n' {
        if i > 0 {
            assert(s[0] != '\n');
        }
    } else {
        assert(i > 0) by {
            if i == 0 {
                assert(s[0] == '\n');
            }
        }
        assert forall|j: int| 0 <= j < i - 1 implies s.drop_first()[j] != '\n' by {
            assert(s.drop_first()[j] == s[j + 1]);
        }
        assert(i - 1 < s.drop_first().len() ==> s.drop_first()[i - 1] == s[i]);
        lemma_first_nl_unique(s.drop_first(), i - 1);
    }
}

/// `max_line_len` is the longest line's length: it bounds every line, some
/// line attains it when there is any line at all, and it is zero exactly
/// when every line is empty (in particular when there are no lines).
pub proof fn lemma_max_line_len(lines: Seq<Seq<char>>)
    ensures
        forall|i: int| 0 <= i < lines.len() ==> (#[trigger] lines[i]).len() <= max_line_len(lines),
        lines.len() > 0 ==> exists|i: int|
            0 <= i < lines.len() && (#[trigger] lines[i]).len() == max_line_len(lines),
        max_line_len(lines) == 0 <==> forall|i: int|
            0 <= i < lines.len() ==> (#[trigger] lines[i]).len() == 0,
    decreases lines.len(),
{
    if lines.len() > 0 {
        lemma_max_line_len(lines.drop_last());
        assert forall|i: int| 0 <= i < lines.len() implies (#[trigger] lines[i]).len()
            <= max_line_len(lines) by {
            if i < lines.len() - 1 {
                assert(lines.drop_last()[i] == lines[i]);
            }
        }
        if lines.last().len() > max_line_len(lines.drop_last()) {
            assert(lines[lines.len() - 1].len() == max_line_len(lines));
        } else if lines.len() - 1 > 0 {
            let j = choose|j: int|
                0 <= j < lines.drop_last().len() && (#[trigger] lines.drop_last()[j]).len()
                    == max_line_len(lines.drop_last());
            assert(lines[j].len() == max_line_len(lines));
        } else {
            assert(lines[0].len() == max_line_len(lines));
        }
    }
}

/// Marker fidelity and padding, cell by cell: a parsed row has exactly the
/// requested width; within the line a cell is `Filled` exactly where the
/// line holds the fill marker, and every other character — letters, digits,
/// whitespace alike — gives `Empty`; and the whole padding region past the
/// line's end is `Empty`.
pub proof fn lemma_parse_line_cells(line: Seq<char>, width: nat)
    ensures
        spec_parse_line(line, width).len() == width,
        forall|i: int|
            0 <= i < width && i < line.len() ==> (#[trigger] spec_parse_line(line, width)[i]
                == Block::Filled <==> line[i] == BLOCK_CHAR),
        forall|i: int|
            0 <= i < width && i < line.len() && line[i] != BLOCK_CHAR ==> #[trigger] spec_parse_line(
                line,
                width,
            )[i] == Block::Empty,
        forall|i: int|
            line.len() <= i < width ==> #[trigger] spec_parse_line(line, width)[i] == Block::Empty,
{
}

/// Degenerate patterns and no others are rejected: the width a text parses
/// to is zero exactly when the text has no lines at all or only empty lines
/// — the very case [`load_nonogram`] turns into `InvalidDimensions`.
pub proof fn lemma_degenerate_rejection(text: Seq<char>)
    ensures
        max_line_len(spec_lines(text)) == 0 <==> forall|i: int|
            0 <= i < spec_lines(text).len() ==> (#[trigger] spec_lines(text)[i]).len() == 0,
{
    lemma_max_line_len(spec_lines(text));
}

/// The characters of a text, in order.
fn chars_of(s: &str) -> (r: Vec<char>)
    ensures
        r@ == s@,
{
    let n = s.unicode_len();
    let mut r: Vec<char> = Vec::new();
    let mut i: usize = 0;
    while i < n
        invariant
            i <= n,
            n == s@.len(),
            r@ == s@.take(i as int),
        decreases n - i,
    {
        let c = s.get_char(i);
        r.push(c);
        proof {
            assert(r@ =~= s@.take(i + 1));
        }
        i += 1;
    }
    proof {
        assert(r@ =~= s@);
    }
    r
}

/// The position of the first line feed at or after `from`, or the text's
/// length if there is none.
fn find_nl(cs: &Vec<char>, from: usize) -> (r: usize)
    requires
        from <= cs@.len(),
    ensures
        r == from + first_nl(cs@.skip(from as int)),
        from <= r <= cs@.len(),
{
    let n = cs.len();
    let mut i: usize = from;
    while i < n
        invariant
            from <= i <= n,
            n == cs@.len(),
            forall|j: int| from <= j < i ==> cs@[j] != '\n',
        decreases n - i,
    {
        if cs[i] == '\n' {
            proof {
                assert forall|j: int| 0 <= j < i - from implies cs@.skip(from as int)[j]
                    != '\n' by {
                    assert(cs@.skip(from as int)[j] == cs@[from + j]);
                }
                assert(cs@.skip(from as int)[i - from] == cs@[i as int]);
                lemma_first_nl_unique(cs@.skip(from as int), i - from);
            }
            return i;
        }
        i += 1;
    }
    proof {
        assert forall|j: int| 0 <= j < n - from implies cs@.skip(from as int)[j] != '\n' by {
            assert(cs@.skip(from as int)[j] == cs@[from + j]);
        }
        lemma_first_nl_unique(cs@.skip(from as int), n - from);
    }
    n
}

/// The views of a sequence of character vectors.
pub open spec fn line_views(rows: Seq<Vec<char>>) -> Seq<Seq<char>> {
    Seq::new(rows.len(), |i: int| rows[i]@)
}

/// Splits a text into its lines, as [`spec_lines`] describes.
fn split_lines(cs: &Vec<char>) -> (r: Vec<Vec<char>>)
    ensures
        line_views(r@) == spec_lines(cs@),
{
    let n = cs.len();
    let mut r: Vec<Vec<char>> = Vec::new();
    let mut pos: usize = 0;
    proof {
        assert(cs@.skip(0) =~= cs@);
        assert(line_views(r@) + spec_lines(cs@) =~= spec_lines(cs@));
    }
    while pos < n
        invariant
            pos <= n,
            n == cs@.len(),
            spec_lines(cs@) == line_views(r@) + spec_lines(cs@.skip(pos as int)),
        decreases n - pos,
    {
        let ghost r0 = r@;
        let ghost t = cs@.skip(pos as int);
        let nl = find_nl(cs, pos);
        let end: usize = if nl < n {
            if nl > pos && cs[nl - 1] == '\r' {
                nl - 1
            } else {
                nl
            }
        } else {
            n
        };
        let mut line: Vec<char> = Vec::new();
        let mut k: usize = pos;
        while k < end
            invariant
                pos <= k <= end,
                end <= n,
                n == cs@.len(),
                line@ == cs@.subrange(pos as int, k as int),
            decreases end - k,
        {
            line.push(cs[k]);
            proof {
                assert(line@ =~= cs@.subrange(pos as int, k + 1));
            }
            k += 1;
        }
        proof {
            lemma_first_nl(t);
            assert(first_nl(t) == nl - pos);
            assert(t.len() == n - pos);
            if nl < n {
                assert(t.take(nl - pos) =~= cs@.subrange(pos as int, nl as int));
                assert(strip_cr(t.take(nl - pos)) =~= cs@.subrange(pos as int, end as int));
                assert(line@ == strip_cr(t.take(nl - pos)));
                assert(t.skip((nl - pos) + 1) =~= cs@.skip(nl + 1));
                assert(spec_lines(t) == seq![line@] + spec_lines(cs@.skip(nl + 1)));
            } else {
                assert(t.take(nl - pos) =~= t);
                assert(line@ =~= t);
                assert(spec_lines(t) == seq![line@]);
                assert(cs@.skip(n as int) =~= Seq::<char>::empty());
                assert(spec_lines(cs@.skip(n as int)) =~= Seq::<Seq<char>>::empty());
                assert(spec_lines(t) == seq![line@] + spec_lines(cs@.skip(n as int)));
            }
        }
        r.push(line);
        proof {
            assert(line_views(r@) =~= line_views(r0) + seq![line@]);
            if nl < n {
                assert(line_views(r@) + spec_lines(cs@.skip(nl + 1)) =~= line_views(r0) + (
                seq![line@] + spec_lines(cs@.skip(nl + 1))));
            } else {
                assert(line_views(r@) + spec_lines(cs@.skip(n as int)) =~= line_views(r0) + (
                seq![line@] + spec_lines(cs@.skip(n as int))));
            }
        }
        pos = if nl < n {
            nl + 1
        } else {
            n
        };
    }
    proof {
        assert(cs@.skip(n as int) =~= Seq::<char>::empty());
        assert(line_views(r@) + spec_lines(cs@.skip(pos as int)) =~= line_views(r@));
    }
    r
}

/// The length of the longest of the given lines.
fn max_width(lines: &Vec<Vec<char>>) -> (w: usize)
    ensures
        w == max_line_len(line_views(lines@)),
{
    let mut w: usize = 0;
    let mut i: usize = 0;
    proof {
        assert(line_views(lines@).take(0) =~= Seq::<Seq<char>>::empty());
    }
    while i < lines.len()
        invariant
            i <= lines@.len(),
            w == max_line_len(line_views(lines@).take(i as int)),
        decreases lines@.len() - i,
    {
        let li = lines[i].len();
        proof {
            assert(line_views(lines@).take(i + 1).drop_last() =~= line_views(lines@).take(
                i as int,
            ));
            assert(line_views(lines@).take(i + 1).last() == lines@[i as int]@);
        }
        if li > w {
            w = li;
        }
        i += 1;
    }
    proof {
        assert(line_views(lines@).take(lines@.len() as int) =~= line_views(lines@));
    }
    w
}

/// One grid row read from one pattern line, as [`spec_parse_line`] describes.
fn parse_line_chars(line: &Vec<char>, width: usize) -> (row: Vec<Block>)
    requires
        line@.len() <= width,
    ensures
        row@ == spec_parse_line(line@, width as nat),
{
    let mut row: Vec<Block> = Vec::new();
    let mut i: usize = 0;
    while i < width
        invariant
            i <= width,
            line@.len() <= width,
            row@.len() == i,
            forall|j: int| 0 <= j < i ==> row@[j] == spec_parse_line(line@, width as nat)[j],
        decreases width - i,
    {
        let b = if i < line.len() {
            if line[i] == BLOCK_CHAR {
                Block::Filled
            } else {
                Block::Empty
            }
        } else {
            Block::Empty
        };
        row.push(b);
        i += 1;
    }
    proof {
        assert(row@ =~= spec_parse_line(line@, width as nat));
    }
    row
}

/// One grid row of the given width read from one pattern line: a `#` maps to
/// `Filled`, any other character to `Empty`, and positions past the line's
/// end to `Empty`.
pub fn parse_line(line: &str, width: usize) -> (row: Vec<Block>)
    requires
        line@.len() <= width,
    ensures
        row@ == spec_parse_line(line@, width as nat),
{
    let cs = chars_of(line);
    parse_line_chars(&cs, width)
}

/// Parses a whole pattern text into a grid.
///
/// The grid has one row per line of the text and the longest line's length
/// as its width, each row read as [`spec_parse_line`] describes. A text
/// whose longest line is empty — in particular a text with no lines at
/// all — is rejected with `InvalidDimensions`, and nothing else is.
pub fn load_nonogram(text: &str) -> (result: Result<Nonogram, NonogramError>)
    ensures
        ({
            let lines = spec_lines(text@);
            let w = max_line_len(lines);
            &&& (result is Err <==> w == 0)
            &&& (result is Err ==> result->Err_0 == NonogramError::InvalidDimensions)
            &&& (result is Ok ==> {
                let g = result->Ok_0;
                &&& g.wf()
                &&& g.spec_height() == lines.len()
                &&& g.spec_width() == w
                &&& forall|i: int| 0 <= i < lines.len() ==> (#[trigger] g@[i]).len() == w
                &&& forall|i: int| 0 <= i < lines.len() ==> g@[i] == spec_parse_line(lines[i], w)
            })
        }),
{
    let ghost slines = spec_lines(text@);
    let cs = chars_of(text);
    let lines = split_lines(&cs);
    let width = max_width(&lines);
    proof {
        lemma_max_line_len(slines);
    }
    if width == 0 {
        return Err(NonogramError::InvalidDimensions);
    }
    proof {
        if slines.len() == 0 {
            assert(max_line_len(slines) == 0);
        }
    }
    let mut rows: Vec<Vec<Block>> = Vec::new();
    let mut i: usize = 0;
    while i < lines.len()
        invariant
            i <= lines@.len(),
            line_views(lines@) == slines,
            width == max_line_len(slines),
            rows@.len() == i,
            forall|j: int|
                0 <= j < i ==> (#[trigger] rows@[j])@ == spec_parse_line(
                    slines[j],
                    width as nat,
                ),
            forall|j: int|
                0 <= j < slines.len() ==> (#[trigger] slines[j]).len() <= width,
        decreases lines@.len() - i,
    {
        proof {
            assert(lines@[i as int]@ == line_views(lines@)[i as int]);
        }
        let row = parse_line_chars(&lines[i], width);
        rows.push(row);
        i += 1;
    }
    let g = Nonogram { rows };
    proof {
        assert(g@.len() == slines.len());
        assert forall|j: int| 0 <= j < slines.len() implies #[trigger] g@[j] == spec_parse_line(
            slines[j],
            width as nat,
        ) by {}
        assert(g@[0].len() == width);
        assert forall|j: int| 0 <= j < g@.len() implies (#[trigger] g@[j]).len()
            == g@[0].len() by {}
    }
    Ok(g)
}

} // verus!
