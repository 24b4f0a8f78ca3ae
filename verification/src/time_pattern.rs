//! Duration texts checked against a pattern before they are read.
//!
//! The pattern asks for one or two digits, a colon, two digits, a colon and
//! two digits, and nothing else. A text that does not match stands for zero
//! seconds. One that matches is read from what the pattern captured: each of
//! the three groups is a field, and a field that is no number counts as zero.

use crate::text::{chars_of, mark_free};
use crate::time_text::{field_value, lemma_three_fields, parse_field, time_seconds};
use vstd::prelude::*;

verus! {

/// `regex::Regex`, a compiled pattern. Nothing is said of what it holds.
#[verifier::external_type_specification]
#[verifier::external_body]
pub struct ExRegex(regex::Regex);

/// `regex::Error`, why a pattern was not compiled. Nothing is said of what
/// it holds.
#[verifier::external_type_specification]
#[verifier::external_body]
pub struct ExRegexError(regex::Error);

/// Whether `regex::Regex::new` accepts the pattern.
pub uninterp spec fn pattern_accepted(pattern: Seq<char>) -> bool;

/// The pattern text that an expression was compiled from, as
/// `regex::Regex::as_str` gives it back.
pub uninterp spec fn pattern_of(expression: regex::Regex) -> Seq<char>;

/// What `regex::Regex::captures` finds for a pattern in a text: nothing where
/// the pattern matches nowhere, else the text of each group of the leftmost
/// match, group 0 being the whole match and a group that took no part being
/// absent.
pub uninterp spec fn captured_groups(pattern: Seq<char>, text: Seq<char>) -> Option<
    Seq<Option<Seq<char>>>,
>;

/// The pattern of a duration text.
pub open spec fn time_pattern() -> Seq<char> {
    r"^(\d{1,2}):(\d{2}):(\d{2})$"@
}

/// The groups of a match as plain texts.
pub open spec fn group_texts(found: Option<Vec<Option<String>>>) -> Option<Seq<Option<Seq<char>>>> {
    match found {
        None => None,
        Some(groups) => Some(
            Seq::new(
                groups@.len(),
                |i: int|
                    match groups@[i] {
                        Some(text) => Some(text@),
                        None => None,
                    },
            ),
        ),
    }
}

/// Calls `regex::Regex::new`. The contract claims that the call succeeds on
/// the patterns named by `pattern_accepted` and on no others, and that the
/// expression it returns remembers the pattern it was given.
#[verifier::external_body]
fn compile(pattern: &str) -> (compiled: Result<regex::Regex, regex::Error>)
    ensures
        compiled is Ok <==> pattern_accepted(pattern@),
        compiled matches Ok(expression) ==> pattern_of(expression) == pattern@,
{
    regex::Regex::new(pattern)
}

/// Calls `regex::Regex::captures` on the expression of a reader and copies
/// out the text of every group with `regex::Captures::iter` and
/// `regex::Match::as_str`. The contract is stated of readers only, whose
/// expression is always one that `regex::Regex::new` built: of such an
/// expression it claims that the result is `captured_groups` of its pattern
/// and the text.
#[verifier::external_body]
fn capture_groups(reader: &TimeReader, text: &str) -> (found: Option<Vec<Option<String>>>)
    ensures
        group_texts(found) == captured_groups(pattern_of(reader.expression), text@),
{
    let captures = reader.expression.captures(text)?;
    Some(captures.iter().map(|group| group.map(|span| span.as_str().to_string())).collect())
}

/// The value of the group at `at`: that of its text read as a field, or zero
/// where the group is missing or took no part in the match.
pub open spec fn group_value(groups: Seq<Option<Seq<char>>>, at: int) -> nat {
    if 0 <= at < groups.len() && groups[at] is Some {
        field_value(groups[at]->0)
    } else {
        0
    }
}

/// The seconds that the groups of a match stand for: zero without a match,
/// else hours from group 1, minutes from group 2 and seconds from group 3.
pub open spec fn seconds_of_groups(found: Option<Seq<Option<Seq<char>>>>) -> nat {
    match found {
        None => 0,
        Some(groups) => 3600 * group_value(groups, 1) + 60 * group_value(groups, 2) + group_value(
            groups,
            3,
        ),
    }
}

/// The seconds that a text stands for when it is checked against the pattern
/// first.
pub open spec fn checked_time_seconds(text: Seq<char>) -> nat {
    seconds_of_groups(captured_groups(time_pattern(), text))
}

/// Reads the group at `at` as a field.
fn read_group(groups: &Vec<Option<String>>, at: usize) -> (value: u32)
    ensures
        value == group_value(group_texts(Some(*groups))->0, at as int),
{
    if at < groups.len() {
        match &groups[at] {
            Some(text) => {
                let chars = chars_of(text.as_str());
                assert(chars@.subrange(0, chars@.len() as int) == text@);
                parse_field(&chars, 0, chars.len())
            },
            None => 0,
        }
    } else {
        0
    }
}

/// Reads the seconds from what the pattern captured.
pub fn seconds_from_groups(found: &Option<Vec<Option<String>>>) -> (seconds: u64)
    ensures
        seconds == seconds_of_groups(group_texts(*found)),
{
    match found {
        None => 0,
        Some(groups) => {
            let hours = read_group(groups, 1);
            let minutes = read_group(groups, 2);
            let seconds = read_group(groups, 3);
            hours as u64 * 3600 + minutes as u64 * 60 + seconds as u64
        },
    }
}

/// The two ways of reading agree on a well-formed text: where the pattern
/// captured the three colon-free fields that the text is made of, cutting
/// the text at its colons gives the same seconds.
pub proof fn lemma_readers_agree(hours: Seq<char>, minutes: Seq<char>, seconds: Seq<char>)
    requires
        mark_free(hours, ':'),
        mark_free(minutes, ':'),
        mark_free(seconds, ':'),
    ensures
        ({
            let text = hours + seq![':'] + minutes + seq![':'] + seconds;
            time_seconds(text) == seconds_of_groups(
                Some(seq![Some(text), Some(hours), Some(minutes), Some(seconds)]),
            )
        }),
{
    lemma_three_fields(hours, minutes, seconds);
}

/// Why no reader could be made.
#[derive(Clone, Copy, Debug, PartialEq, Eq, Structural)]
pub enum PatternError {
    /// The pattern of a duration text was not accepted.
    Refused,
}

/// A reader of duration texts that holds the compiled pattern, so that a
/// batch is read without compiling it again for each text. Its expression
/// cannot be set from outside, and here it is set in one place only, to what
/// compiling the pattern of a duration text gave.
pub struct TimeReader {
    expression: regex::Regex,
}

impl TimeReader {
    #[verifier::type_invariant]
    spec fn holds_time_pattern(self) -> bool {
        pattern_of(self.expression) == time_pattern()
    }

    /// Compiles the pattern of a duration text.
    pub fn new() -> (made: Result<TimeReader, PatternError>)
        ensures
            made is Ok <==> pattern_accepted(time_pattern()),
            made matches Err(e) ==> e == PatternError::Refused,
    {
        match compile(r"^(\d{1,2}):(\d{2}):(\d{2})$") {
            Ok(expression) => Ok(TimeReader { expression }),
            Err(_) => Err(PatternError::Refused),
        }
    }

    /// Reads one text: zero where it does not match the pattern, else the
    /// seconds of the three fields that the pattern captured.
    pub fn read(&self, text: &str) -> (seconds: u64)
        ensures
            seconds == checked_time_seconds(text@),
    {
        proof {
            use_type_invariant(self);
        }
        let found = capture_groups(self, text);
        seconds_from_groups(&found)
    }
}

/// Reads every text of a batch against the pattern, in order.
pub fn parse_time_to_seconds_batch(time_strings: &Vec<String>) -> (result: Result<
    Vec<u64>,
    PatternError,
>)
    ensures
        result is Ok <==> pattern_accepted(time_pattern()),
        result matches Err(e) ==> e == PatternError::Refused,
        result matches Ok(seconds) ==> {
            &&& seconds.len() == time_strings.len()
            &&& forall|i: int|
                0 <= i < seconds.len() ==> seconds[i] == checked_time_seconds(
                    #[trigger] time_strings[i]@,
                )
        },
{
    let reader = match TimeReader::new() {
        Ok(reader) => reader,
        Err(e) => {
            return Err(e);
        },
    };
    let mut seconds: Vec<u64> = Vec::new();
    let mut i: usize = 0;
    while i < time_strings.len()
        invariant
            i <= time_strings.len(),
            seconds.len() == i,
            forall|k: int|
                0 <= k < i ==> seconds[k] == checked_time_seconds(#[trigger] time_strings[k]@),
        decreases time_strings.len() - i,
    {
        let value = reader.read(time_strings[i].as_str());
        seconds.push(value);
        i += 1;
    }
    Ok(seconds)
}

} // verus!
