//! Lines of delimited text and the cells they are cut into.
//!
//! A line is cut at every delimiter, so a line with `n` delimiters has
//! `n + 1` cells and an empty line has one empty cell. Each cell is taken
//! without the blanks around it. A row is written back as its cells with the
//! delimiter between them.

use crate::text::{
    chars_of, find_mark, lemma_mark_bounds, lemma_mark_found, mark_free, mark_from,
};
use vstd::prelude::*;
use vstd::string::StringExecFns;

verus! {

/// Whether the character is a blank: one of the characters to which Unicode
/// gives the property White_Space. These are tab to carriage return, the
/// space, next line, the no-break space, the ogham space mark, the spaces
/// from en quad to hair space, the line and the paragraph separator, and the
/// narrow no-break, medium mathematical and ideographic spaces.
pub open spec fn is_blank(c: char) -> bool {
    let code = c as u32;
    ||| 0x0009 <= code <= 0x000d
    ||| code == 0x0020
    ||| code == 0x0085
    ||| code == 0x00a0
    ||| code == 0x1680
    ||| 0x2000 <= code <= 0x200a
    ||| code == 0x2028
    ||| code == 0x2029
    ||| code == 0x202f
    ||| code == 0x205f
    ||| code == 0x3000
}

/// Calls `char::is_whitespace`, which tells whether a character has the
/// property White_Space. The contract claims that it holds of the characters
/// listed in `is_blank` and of no others.
#[verifier::external_body]
pub(crate) fn blank(c: char) -> (b: bool)
    ensures
        b == is_blank(c),
{
    c.is_whitespace()
}

/// Calls `String::push`. The contract claims that the character is appended
/// and nothing else changes.
#[verifier::external_body]
fn push_char(text: &mut String, c: char)
    ensures
        final(text)@ == old(text)@.push(c),
{
    text.push(c)
}

/// The position of the first item from `lo` up to `hi` that is no blank, or
/// `hi` where all are blanks.
pub open spec fn solid_from(s: Seq<char>, lo: int, hi: int) -> int
    decreases hi - lo,
{
    if lo >= hi {
        hi
    } else if !is_blank(s[lo]) {
        lo
    } else {
        solid_from(s, lo + 1, hi)
    }
}

/// The position behind the last item from `lo` up to `hi` that is no blank,
/// or `lo` where all are blanks.
pub open spec fn solid_upto(s: Seq<char>, lo: int, hi: int) -> int
    decreases hi - lo,
{
    if lo >= hi {
        lo
    } else if !is_blank(s[hi - 1]) {
        hi
    } else {
        solid_upto(s, lo, hi - 1)
    }
}

/// The items from `lo` up to `hi` without the blanks that lead and trail
/// them.
pub open spec fn trimmed_span(s: Seq<char>, lo: int, hi: int) -> Seq<char> {
    let start = solid_from(s, lo, hi);
    s.subrange(start, solid_upto(s, start, hi))
}

/// A text without the blanks that lead and trail it.
pub open spec fn trimmed(s: Seq<char>) -> Seq<char> {
    trimmed_span(s, 0, s.len() as int)
}

/// The cells of the part of a line that starts at `from`: what lies before
/// the next delimiter, trimmed, and then the cells of what lies behind it.
pub open spec fn cells_from(s: Seq<char>, mark: char, from: int) -> Seq<Seq<char>>
    decreases s.len() - from,
{
    let at = mark_from(s, mark, from);
    if from < 0 || at < from || at >= s.len() {
        seq![trimmed(s.subrange(from, s.len() as int))]
    } else {
        seq![trimmed(s.subrange(from, at))] + cells_from(s, mark, at + 1)
    }
}

/// The cells of a line.
pub open spec fn cells_of(s: Seq<char>, mark: char) -> Seq<Seq<char>> {
    cells_from(s, mark, 0)
}

/// A list of texts as plain values.
pub open spec fn texts_of(cells: Seq<String>) -> Seq<Seq<char>> {
    Seq::new(cells.len(), |i: int| cells[i]@)
}

/// The cells of a row with the delimiter between them.
pub open spec fn joined(cells: Seq<Seq<char>>, mark: char) -> Seq<char>
    decreases cells.len(),
{
    if cells.len() == 0 {
        Seq::empty()
    } else if cells.len() == 1 {
        cells[0]
    } else {
        joined(cells.drop_last(), mark) + seq![mark] + cells.last()
    }
}

/// The delimiter that a text names: its first character, or a comma where
/// there is no text or it is empty.
pub open spec fn delimiter_named(name: Option<Seq<char>>) -> char {
    match name {
        Some(text) => if text.len() > 0 {
            text[0]
        } else {
            ','
        },
        None => ',',
    }
}

/// The first item that is no blank lies between the ends of the span, and
/// the position behind the last one between that and the end.
pub(crate) proof fn lemma_solid_bounds(s: Seq<char>, lo: int, hi: int)
    requires
        lo <= hi,
    ensures
        lo <= solid_from(s, lo, hi) <= hi,
        lo <= solid_upto(s, lo, hi) <= hi,
    decreases hi - lo,
{
    if lo < hi {
        lemma_solid_bounds(s, lo + 1, hi);
        lemma_solid_bounds(s, lo, hi - 1);
    }
}

/// Looking for the first item that is no blank in a part of a text is
/// looking for it in the text, between the ends of the part.
proof fn lemma_solid_from_part(s: Seq<char>, lo: int, hi: int, k: int)
    requires
        0 <= lo <= hi <= s.len(),
        0 <= k <= hi - lo,
    ensures
        solid_from(s.subrange(lo, hi), k, hi - lo) + lo == solid_from(s, lo + k, hi),
    decreases hi - lo - k,
{
    if k < hi - lo {
        lemma_solid_from_part(s, lo, hi, k + 1);
    }
}

/// Looking for the last item that is no blank in a part of a text is
/// looking for it in the text, between the ends of the part.
proof fn lemma_solid_upto_part(s: Seq<char>, lo: int, hi: int, a: int, m: int)
    requires
        0 <= lo <= hi <= s.len(),
        0 <= a <= m <= hi - lo,
    ensures
        solid_upto(s.subrange(lo, hi), a, m) + lo == solid_upto(s, lo + a, lo + m),
    decreases m - a,
{
    if a < m {
        lemma_solid_upto_part(s, lo, hi, a, m - 1);
    }
}

/// A cell is the part of the line between two delimiters, trimmed: what is
/// left of a span without the blanks around it is the trimmed text of the
/// span.
pub proof fn lemma_trimmed_span(s: Seq<char>, lo: int, hi: int)
    requires
        0 <= lo <= hi <= s.len(),
    ensures
        trimmed_span(s, lo, hi) == trimmed(s.subrange(lo, hi)),
{
    let part = s.subrange(lo, hi);
    let n = hi - lo;
    lemma_solid_from_part(s, lo, hi, 0);
    let start = solid_from(part, 0, n);
    lemma_solid_bounds(part, 0, n);
    lemma_solid_bounds(part, start, n);
    lemma_solid_upto_part(s, lo, hi, start, n);
    let end = solid_upto(part, start, n);
    assert(part.subrange(start, end) == s.subrange(lo + start, lo + end));
}

/// The cells of a row, each without the blanks around it.
pub open spec fn trimmed_cells(cells: Seq<Seq<char>>) -> Seq<Seq<char>> {
    Seq::new(cells.len(), |i: int| trimmed(cells[i]))
}

/// Looking for a mark behind the front of a text is looking for it in the
/// rest.
proof fn lemma_mark_from_rest(front: Seq<char>, rest: Seq<char>, mark: char, i: int)
    requires
        0 <= i <= rest.len(),
    ensures
        mark_from(front + rest, mark, front.len() + i) == front.len() + mark_from(rest, mark, i),
    decreases rest.len() - i,
{
    if i < rest.len() {
        assert((front + rest)[front.len() + i] == rest[i]);
        lemma_mark_from_rest(front, rest, mark, i + 1);
    }
}

/// Cutting a text behind its front is cutting the rest.
proof fn lemma_cells_from_rest(front: Seq<char>, rest: Seq<char>, mark: char, i: int)
    requires
        0 <= i <= rest.len(),
    ensures
        cells_from(front + rest, mark, front.len() + i) == cells_from(rest, mark, i),
    decreases rest.len() - i,
{
    let whole = front + rest;
    let shift = front.len() as int;
    lemma_mark_from_rest(front, rest, mark, i);
    let at = mark_from(rest, mark, i);
    lemma_mark_bounds(rest, mark, i);
    if at >= rest.len() {
        assert(whole.subrange(shift + i, whole.len() as int) == rest.subrange(i, rest.len() as int));
    } else {
        assert(whole.subrange(shift + i, shift + at) == rest.subrange(i, at));
        lemma_cells_from_rest(front, rest, mark, at + 1);
    }
}

/// A row of two or more cells is written as its first cell, the delimiter,
/// and the rest of the row.
proof fn lemma_joined_front(cells: Seq<Seq<char>>, mark: char)
    requires
        cells.len() >= 2,
    ensures
        joined(cells, mark) == cells[0] + seq![mark] + joined(cells.drop_first(), mark),
    decreases cells.len(),
{
    let rest = cells.drop_first();
    if cells.len() == 2 {
        assert(cells.drop_last().len() == 1);
        assert(joined(cells.drop_last(), mark) == cells[0]);
        assert(joined(rest, mark) == cells[1]);
    } else {
        lemma_joined_front(cells.drop_last(), mark);
        assert(cells.drop_last().drop_first() == rest.drop_last());
        assert(rest.last() == cells.last());
        assert(joined(cells, mark) =~= cells[0] + seq![mark] + joined(rest, mark));
    }
}

/// What is written reads back: a row of at least one cell, none of which
/// holds the delimiter, is cut from its line again, each cell without the
/// blanks around it.
pub proof fn lemma_cut_joined(cells: Seq<Seq<char>>, mark: char)
    requires
        cells.len() >= 1,
        forall|i: int| 0 <= i < cells.len() ==> mark_free(#[trigger] cells[i], mark),
    ensures
        cells_of(joined(cells, mark), mark) == trimmed_cells(cells),
    decreases cells.len(),
{
    let line = joined(cells, mark);
    let first = cells[0];
    if cells.len() == 1 {
        assert(mark_free(first, mark));
        lemma_mark_found(line, mark, 0, line.len() as int);
        assert(line.subrange(0, line.len() as int) == line);
        assert(cells_of(line, mark) =~= trimmed_cells(cells));
    } else {
        let rest = cells.drop_first();
        lemma_joined_front(cells, mark);
        let front = first + seq![mark];
        let rest_line = joined(rest, mark);
        assert(line == front + rest_line);
        assert(mark_free(first, mark));
        assert forall|i: int| 0 <= i < first.len() implies #[trigger] line[i] != mark by {
            assert(line[i] == first[i]);
        }
        lemma_mark_found(line, mark, 0, first.len() as int);
        assert(line.subrange(0, first.len() as int) == first);
        lemma_cells_from_rest(front, rest_line, mark, 0);
        assert forall|i: int| 0 <= i < rest.len() implies mark_free(#[trigger] rest[i], mark) by {
            assert(rest[i] == cells[i + 1]);
        }
        lemma_cut_joined(rest, mark);
        assert(cells_of(line, mark) =~= seq![trimmed(first)] + trimmed_cells(rest));
        assert(seq![trimmed(first)] + trimmed_cells(rest) =~= trimmed_cells(cells));
    }
}

/// Tells which delimiter a text names.
pub fn delimiter_of(name: Option<&str>) -> (mark: char)
    ensures
        mark == delimiter_named(
            match name {
                Some(text) => Some(text@),
                None => None,
            },
        ),
{
    match name {
        Some(text) => {
            let chars = chars_of(text);
            if chars.len() > 0 {
                chars[0]
            } else {
                ','
            }
        },
        None => ',',
    }
}

/// Copies the items from `lo` up to `hi` without the blanks around them.
fn trimmed_text(chars: &Vec<char>, lo: usize, hi: usize) -> (text: String)
    requires
        lo <= hi <= chars.len(),
    ensures
        text@ == trimmed(chars@.subrange(lo as int, hi as int)),
{
    proof {
        lemma_trimmed_span(chars@, lo as int, hi as int);
    }
    let mut start: usize = lo;
    while start < hi && blank(chars[start])
        invariant
            lo <= start <= hi <= chars.len(),
            solid_from(chars@, start as int, hi as int) == solid_from(chars@, lo as int, hi as int),
        decreases hi - start,
    {
        start += 1;
    }
    let mut end: usize = hi;
    while start < end && blank(chars[end - 1])
        invariant
            start <= end <= hi <= chars.len(),
            solid_upto(chars@, start as int, end as int) == solid_upto(
                chars@,
                start as int,
                hi as int,
            ),
        decreases end - start,
    {
        end -= 1;
    }
    let mut text = String::new();
    let mut at: usize = start;
    while at < end
        invariant
            start <= at <= end <= chars.len(),
            text@ == chars@.subrange(start as int, at as int),
        decreases end - at,
    {
        push_char(&mut text, chars[at]);
        assert(chars@.subrange(start as int, at + 1) == chars@.subrange(
            start as int,
            at as int,
        ).push(chars[at as int]));
        at += 1;
    }
    text
}

/// Cuts a line into its cells.
pub fn cut_cells(line: &str, delimiter: char) -> (cells: Vec<String>)
    ensures
        texts_of(cells@) == cells_of(line@, delimiter),
        cells.len() >= 1,
{
    let chars = chars_of(line);
    let mut cells: Vec<String> = Vec::new();
    let mut from: usize = 0;
    loop
        invariant_except_break
            texts_of(cells@) + cells_from(chars@, delimiter, from as int) == cells_of(
                line@,
                delimiter,
            ),
        invariant
            chars@ == line@,
            from <= chars.len(),
        ensures
            texts_of(cells@) == cells_of(line@, delimiter),
            cells.len() >= 1,
        decreases chars.len() - from,
    {
        let at = find_mark(&chars, delimiter, from);
        let end = if at < chars.len() {
            at
        } else {
            chars.len()
        };
        let cell = trimmed_text(&chars, from, end);
        let ghost before = cells@;
        cells.push(cell);
        proof {
            assert(texts_of(cells@) =~= texts_of(before) + seq![cell@]);
        }
        if at >= chars.len() {
            proof {
                assert(cells_from(chars@, delimiter, from as int) == seq![cell@]);
                assert(texts_of(cells@) =~= texts_of(before) + cells_from(
                    chars@,
                    delimiter,
                    from as int,
                ));
            }
            break ;
        }
        proof {
            assert(cells_from(chars@, delimiter, from as int) == seq![cell@] + cells_from(
                chars@,
                delimiter,
                at + 1,
            ));
            assert(texts_of(cells@) + cells_from(chars@, delimiter, at + 1) =~= texts_of(before)
                + cells_from(chars@, delimiter, from as int));
        }
        from = at + 1;
    }
    cells
}

/// Writes a row as one line: its cells with the delimiter between them.
pub fn join_cells(cells: &Vec<String>, delimiter: char) -> (line: String)
    ensures
        line@ == joined(texts_of(cells@), delimiter),
{
    let mut line = String::new();
    let mut i: usize = 0;
    while i < cells.len()
        invariant
            i <= cells.len(),
            line@ == joined(texts_of(cells@).take(i as int), delimiter),
        decreases cells.len() - i,
    {
        let ghost before = line@;
        if i > 0 {
            push_char(&mut line, delimiter);
        }
        line.append(cells[i].as_str());
        proof {
            let longer = texts_of(cells@).take(i + 1);
            assert(longer.drop_last() == texts_of(cells@).take(i as int));
            assert(longer.last() == cells[i as int]@);
            if i == 0 {
                assert(line@ =~= cells[0]@);
            } else {
                assert(line@ =~= before + seq![delimiter] + cells[i as int]@);
            }
        }
        i += 1;
    }
    assert(texts_of(cells@).take(i as int) == texts_of(cells@));
    line
}

/// A table: the names of its columns and its rows of cells.
#[derive(Debug)]
pub struct Table {
    pub headers: Vec<String>,
    pub rows: Vec<Vec<String>>,
}

/// Cuts the lines of a delimited text into a table. The header line, where
/// there is one, gives the names of the columns; every other line gives a
/// row, in the order of the lines.
pub fn table_of(header_line: Option<&str>, lines: &Vec<String>, delimiter: char) -> (table: Table)
    ensures
        match header_line {
            Some(line) => texts_of(table.headers@) == cells_of(line@, delimiter),
            None => table.headers.len() == 0,
        },
        table.rows.len() == lines.len(),
        forall|i: int|
            0 <= i < lines.len() ==> texts_of((#[trigger] table.rows[i])@) == cells_of(
                lines[i]@,
                delimiter,
            ),
{
    let headers = match header_line {
        Some(line) => cut_cells(line, delimiter),
        None => Vec::new(),
    };
    let mut rows: Vec<Vec<String>> = Vec::new();
    let mut i: usize = 0;
    while i < lines.len()
        invariant
            i <= lines.len(),
            rows.len() == i,
            forall|k: int|
                0 <= k < i ==> texts_of((#[trigger] rows[k])@) == cells_of(lines[k]@, delimiter),
        decreases lines.len() - i,
    {
        let row = cut_cells(lines[i].as_str(), delimiter);
        rows.push(row);
        i += 1;
    }
    Table { headers, rows }
}

/// The line of the names of the columns, unless there are none.
pub open spec fn header_lines(headers: Seq<String>, mark: char) -> Seq<Seq<char>> {
    if headers.len() > 0 {
        seq![joined(texts_of(headers), mark)]
    } else {
        Seq::empty()
    }
}

/// The lines of the first `n` rows.
pub open spec fn row_lines(rows: Seq<Vec<String>>, mark: char, n: int) -> Seq<Seq<char>> {
    Seq::new(n as nat, |i: int| joined(texts_of(rows[i]@), mark))
}

/// Writes a table as lines of delimited text: the names of the columns
/// first, unless there are none, then one line for each row.
pub fn lines_of(headers: &Vec<String>, rows: &Vec<Vec<String>>, delimiter: char) -> (lines: Vec<
    String,
>)
    ensures
        texts_of(lines@) == header_lines(headers@, delimiter) + row_lines(
            rows@,
            delimiter,
            rows.len() as int,
        ),
{
    let mut lines: Vec<String> = Vec::new();
    if headers.len() > 0 {
        let line = join_cells(headers, delimiter);
        lines.push(line);
    }
    assert(texts_of(lines@) =~= header_lines(headers@, delimiter));
    let mut i: usize = 0;
    while i < rows.len()
        invariant
            i <= rows.len(),
            texts_of(lines@) == header_lines(headers@, delimiter) + row_lines(
                rows@,
                delimiter,
                i as int,
            ),
        decreases rows.len() - i,
    {
        let line = join_cells(&rows[i], delimiter);
        let ghost before = lines@;
        lines.push(line);
        proof {
            assert(texts_of(lines@) =~= texts_of(before).push(line@));
            assert(row_lines(rows@, delimiter, i + 1) =~= row_lines(rows@, delimiter, i as int).push(
                line@,
            ));
        }
        i += 1;
    }
    lines
}

} // verus!
