//! Tables whose columns have a kind: numbers, dates or plain text.
//!
//! The kind of a column is given by the name of its type. A cell of a date
//! column is brought to the day it names, without the time of day; a cell of
//! a number column is left to the caller, who writes numbers; every other
//! cell stays as it is, also a cell that stands beyond the typed columns.
//! For a date column the cells that name a day are counted, for a text
//! column the cells that hold more than blanks.

use crate::bonus::timestamp_format;
use crate::cells::{blank, lemma_solid_bounds, solid_from, solid_upto, is_blank, trimmed};
use crate::text::{chars_of, same_text};
use vstd::prelude::*;
use vstd::string::StringExecFns;

verus! {

/// The kind of a column.
#[derive(Clone, Copy, Debug, PartialEq, Eq, Structural)]
pub enum ColumnKind {
    Number,
    Date,
    Text,
}

/// The name of the type of a number column.
pub open spec fn number_name() -> Seq<char> {
    seq!['n', 'u', 'm', 'b', 'e', 'r']
}

/// The name of the type of a date column.
pub open spec fn date_name() -> Seq<char> {
    seq!['d', 'a', 't', 'e']
}

/// The kind that the name of a type stands for; any name but the two above
/// stands for plain text.
pub open spec fn kind_named(name: Seq<char>) -> ColumnKind {
    if name == number_name() {
        ColumnKind::Number
    } else if name == date_name() {
        ColumnKind::Date
    } else {
        ColumnKind::Text
    }
}

/// The kind of the column at `at`; there is none beyond the typed columns.
pub open spec fn kind_in(column_types: Seq<String>, at: int) -> Option<ColumnKind> {
    if 0 <= at < column_types.len() {
        Some(kind_named(column_types[at]@))
    } else {
        None
    }
}

/// The format of a day: year, month and day of the month, in digits.
pub open spec fn day_pattern() -> Seq<char> {
    "%Y-%m-%d"@
}

/// What `chrono::NaiveDateTime::parse_from_str` makes of a text under a
/// format, written by `chrono::NaiveDateTime::format` in the format of a
/// day: nothing where the text cannot be read.
pub uninterp spec fn moment_day(text: Seq<char>, format: Seq<char>, day_format: Seq<char>) -> Option<
    Seq<char>,
>;

/// What `chrono::NaiveDate::parse_from_str` makes of a text under a format,
/// written by `chrono::NaiveDate::format` in the format of a day: nothing
/// where the text cannot be read.
pub uninterp spec fn date_day(text: Seq<char>, format: Seq<char>, day_format: Seq<char>) -> Option<
    Seq<char>,
>;

/// A text that may be missing, as a plain value.
pub open spec fn option_text(text: Option<String>) -> Option<Seq<char>> {
    match text {
        Some(t) => Some(t@),
        None => None,
    }
}

/// Calls `chrono::NaiveDateTime::parse_from_str` and writes the moment it
/// returns with `chrono::NaiveDateTime::format`. The contract names the
/// result. Writing panics on a format that chrono does not know, so only the
/// format of a day is let in.
#[verifier::external_body]
fn read_moment_day(text: &str, format: &str, day_format: &str) -> (day: Option<String>)
    requires
        day_format@ == day_pattern(),
    ensures
        option_text(day) == moment_day(text@, format@, day_format@),
{
    match chrono::NaiveDateTime::parse_from_str(text, format) {
        Ok(moment) => Some(moment.format(day_format).to_string()),
        Err(_) => None,
    }
}

/// Calls `chrono::NaiveDate::parse_from_str` and writes the date it returns
/// with `chrono::NaiveDate::format`. The contract names the result. Writing
/// panics on a format that chrono does not know, so only the format of a day
/// is let in.
#[verifier::external_body]
fn read_date_day(text: &str, format: &str, day_format: &str) -> (day: Option<String>)
    requires
        day_format@ == day_pattern(),
    ensures
        option_text(day) == date_day(text@, format@, day_format@),
{
    match chrono::NaiveDate::parse_from_str(text, format) {
        Ok(date) => Some(date.format(day_format).to_string()),
        Err(_) => None,
    }
}

/// The day that a cell names, where it names one.
pub open spec fn cell_day(cell: Seq<char>) -> Option<Seq<char>> {
    date_day(cell, day_pattern(), day_pattern())
}

/// Whether a cell names a day.
pub open spec fn is_day(cell: Seq<char>) -> bool {
    cell_day(cell) is Some
}

/// A cell of a date column in shape: the day of the timestamp it holds, or
/// the day it holds, or the cell as it is where it holds neither.
pub open spec fn shaped_date(cell: Seq<char>) -> Seq<char> {
    match moment_day(cell, timestamp_format(), day_pattern()) {
        Some(day) => day,
        None => match cell_day(cell) {
            Some(day) => day,
            None => cell,
        },
    }
}

/// A cell in the shape of its column. A cell of a number column has none
/// here: the caller writes numbers.
pub open spec fn shaped_cell(cell: Seq<char>, kind: Option<ColumnKind>) -> Option<Seq<char>> {
    match kind {
        Some(ColumnKind::Number) => None,
        Some(ColumnKind::Date) => Some(shaped_date(cell)),
        _ => Some(cell),
    }
}

/// Whether `shaped` holds the cells of a row, each in the shape of its
/// column.
pub open spec fn is_shaped_row(
    row: Seq<String>,
    column_types: Seq<String>,
    shaped: Seq<Option<String>>,
) -> bool {
    &&& shaped.len() == row.len()
    &&& forall|c: int|
        0 <= c < row.len() ==> option_text(#[trigger] shaped[c]) == shaped_cell(
            row[c]@,
            kind_in(column_types, c),
        )
}

/// Whether a cell holds more than blanks.
pub open spec fn is_filled(cell: Seq<char>) -> bool {
    trimmed(cell).len() > 0
}

/// Whether a cell counts in a column of the given kind: in a date column
/// the cells that name a day, in a text column those that hold more than
/// blanks, in a number column all.
pub open spec fn cell_counts(kind: ColumnKind, cell: Seq<char>) -> bool {
    match kind {
        ColumnKind::Number => true,
        ColumnKind::Date => is_day(cell),
        ColumnKind::Text => is_filled(cell),
    }
}

/// One if the row reaches the column and its cell there counts, else zero.
pub open spec fn counts_in(row: Seq<String>, at: int, kind: ColumnKind) -> nat {
    if 0 <= at < row.len() && cell_counts(kind, row[at]@) {
        1
    } else {
        0
    }
}

/// How many rows reach the column at `at` with a cell that counts.
pub open spec fn column_count(rows: Seq<Vec<String>>, at: int, kind: ColumnKind) -> nat
    decreases rows.len(),
{
    if rows.len() == 0 {
        0
    } else {
        column_count(rows.drop_last(), at, kind) + counts_in(rows.last()@, at, kind)
    }
}

/// How many rows reach the column at `at`.
pub open spec fn column_total(rows: Seq<Vec<String>>, at: int) -> nat {
    column_count(rows, at, ColumnKind::Number)
}

/// What is counted of a column.
#[derive(Clone, Copy, Debug, PartialEq, Eq, Structural)]
pub enum ColumnCount {
    /// A number column: its numbers are the caller's to read.
    Numbers { total: usize },
    /// A date column: how many of its cells name a day.
    Dates { valid: usize, total: usize },
    /// A text column: how many of its cells hold more than blanks.
    Texts { filled: usize, total: usize },
}

/// What is counted of the column at `at`, by its kind.
pub open spec fn column_count_of(rows: Seq<Vec<String>>, kind: ColumnKind, at: int) -> ColumnCount {
    match kind {
        ColumnKind::Number => ColumnCount::Numbers { total: column_total(rows, at) as usize },
        ColumnKind::Date => ColumnCount::Dates {
            valid: column_count(rows, at, ColumnKind::Date) as usize,
            total: column_total(rows, at) as usize,
        },
        ColumnKind::Text => ColumnCount::Texts {
            filled: column_count(rows, at, ColumnKind::Text) as usize,
            total: column_total(rows, at) as usize,
        },
    }
}

/// No more cells are counted in a column than there are rows.
pub proof fn lemma_column_count_bound(rows: Seq<Vec<String>>, at: int, kind: ColumnKind)
    ensures
        column_count(rows, at, kind) <= column_total(rows, at) <= rows.len(),
    decreases rows.len(),
{
    if rows.len() > 0 {
        lemma_column_count_bound(rows.drop_last(), at, kind);
    }
}

/// Where the first item of a span is no blank, something is left of the
/// span once the blanks around it are gone.
proof fn lemma_solid_after(s: Seq<char>, lo: int, hi: int)
    requires
        0 <= lo < hi <= s.len(),
        !is_blank(s[lo]),
    ensures
        solid_upto(s, lo, hi) > lo,
    decreases hi - lo,
{
    if is_blank(s[hi - 1]) {
        lemma_solid_after(s, lo, hi - 1);
    }
}

/// Tells which kind the name of a type stands for.
pub fn column_kind_of(name: &str) -> (kind: ColumnKind)
    ensures
        kind == kind_named(name@),
{
    let chars = chars_of(name);
    let number: Vec<char> = vec!['n', 'u', 'm', 'b', 'e', 'r'];
    let date: Vec<char> = vec!['d', 'a', 't', 'e'];
    if same_text(&chars, &number) {
        ColumnKind::Number
    } else if same_text(&chars, &date) {
        ColumnKind::Date
    } else {
        ColumnKind::Text
    }
}

/// Tells the kind of the column at `at`.
pub fn kind_at(column_types: &Vec<String>, at: usize) -> (kind: Option<ColumnKind>)
    ensures
        kind == kind_in(column_types@, at as int),
{
    if at < column_types.len() {
        Some(column_kind_of(column_types[at].as_str()))
    } else {
        None
    }
}

/// Tells whether a cell names a day.
pub fn names_day(cell: &str) -> (valid: bool)
    ensures
        valid == is_day(cell@),
{
    match read_date_day(cell, "%Y-%m-%d", "%Y-%m-%d") {
        Some(_) => true,
        None => false,
    }
}

/// Tells whether a cell holds more than blanks.
pub fn holds_text(cell: &str) -> (filled: bool)
    ensures
        filled == is_filled(cell@),
{
    let chars = chars_of(cell);
    let n = chars.len();
    let mut at: usize = 0;
    while at < n && blank(chars[at])
        invariant
            n == chars.len(),
            at <= n,
            solid_from(chars@, at as int, n as int) == solid_from(chars@, 0, n as int),
        decreases n - at,
    {
        at += 1;
    }
    proof {
        lemma_solid_bounds(chars@, at as int, n as int);
        if at < n {
            lemma_solid_after(chars@, at as int, n as int);
        }
    }
    at < n
}

/// Brings a cell of a date column into shape.
pub fn shape_date(cell: &str) -> (shaped: String)
    ensures
        shaped@ == shaped_date(cell@),
{
    match read_moment_day(cell, "%Y-%m-%d %H:%M:%S", "%Y-%m-%d") {
        Some(day) => day,
        None => match read_date_day(cell, "%Y-%m-%d", "%Y-%m-%d") {
            Some(day) => day,
            None => String::from_str(cell),
        },
    }
}

/// Brings a cell into the shape of its column; a cell of a number column is
/// left to the caller.
pub fn shape_cell(cell: &str, kind: Option<ColumnKind>) -> (shaped: Option<String>)
    ensures
        option_text(shaped) == shaped_cell(cell@, kind),
{
    match kind {
        Some(ColumnKind::Number) => None,
        Some(ColumnKind::Date) => Some(shape_date(cell)),
        _ => Some(String::from_str(cell)),
    }
}

/// Brings the cells of a row into the shape of their columns, in order.
pub fn shape_row(row: &Vec<String>, column_types: &Vec<String>) -> (shaped: Vec<Option<String>>)
    ensures
        is_shaped_row(row@, column_types@, shaped@),
{
    let mut shaped: Vec<Option<String>> = Vec::new();
    let mut c: usize = 0;
    while c < row.len()
        invariant
            c <= row.len(),
            shaped.len() == c,
            forall|k: int|
                0 <= k < c ==> option_text(#[trigger] shaped[k]) == shaped_cell(
                    row[k]@,
                    kind_in(column_types@, k),
                ),
        decreases row.len() - c,
    {
        let kind = kind_at(column_types, c);
        let cell = shape_cell(row[c].as_str(), kind);
        shaped.push(cell);
        c += 1;
    }
    shaped
}

/// Counts the cells of the column at `at` by its kind.
pub fn count_column(rows: &Vec<Vec<String>>, kind: ColumnKind, at: usize) -> (count: ColumnCount)
    ensures
        count == column_count_of(rows@, kind, at as int),
{
    let mut total: usize = 0;
    let mut met: usize = 0;
    let mut r: usize = 0;
    while r < rows.len()
        invariant
            r <= rows.len(),
            total == column_total(rows@.take(r as int), at as int),
            met == column_count(rows@.take(r as int), at as int, kind),
            total <= r,
            met <= r,
        decreases rows.len() - r,
    {
        proof {
            let longer = rows@.take(r + 1);
            assert(longer.drop_last() == rows@.take(r as int));
            assert(longer.last() == rows[r as int]);
        }
        if at < rows[r].len() {
            total += 1;
            let cell = rows[r][at].as_str();
            let meets = match kind {
                ColumnKind::Number => true,
                ColumnKind::Date => names_day(cell),
                ColumnKind::Text => holds_text(cell),
            };
            if meets {
                met += 1;
            }
        }
        r += 1;
    }
    assert(rows@.take(r as int) == rows@);
    match kind {
        ColumnKind::Number => ColumnCount::Numbers { total },
        ColumnKind::Date => ColumnCount::Dates { valid: met, total },
        ColumnKind::Text => ColumnCount::Texts { filled: met, total },
    }
}

/// Counts the cells of every typed column, in the order of the columns. A
/// table without rows has no counts.
pub fn count_columns(rows: &Vec<Vec<String>>, column_types: &Vec<String>) -> (counts: Vec<
    ColumnCount,
>)
    ensures
        counts.len() == if rows.len() == 0 {
            0
        } else {
            column_types.len()
        },
        forall|c: int|
            0 <= c < counts.len() ==> #[trigger] counts[c] == column_count_of(
                rows@,
                kind_named(column_types[c]@),
                c,
            ),
{
    let mut counts: Vec<ColumnCount> = Vec::new();
    if rows.len() == 0 {
        return counts;
    }
    let mut c: usize = 0;
    while c < column_types.len()
        invariant
            c <= column_types.len(),
            counts.len() == c,
            forall|k: int|
                0 <= k < c ==> #[trigger] counts[k] == column_count_of(
                    rows@,
                    kind_named(column_types[k]@),
                    k,
                ),
        decreases column_types.len() - c,
    {
        let kind = column_kind_of(column_types[c].as_str());
        let count = count_column(rows, kind, c);
        counts.push(count);
        c += 1;
    }
    counts
}

} // verus!
