//! What is said of a source text that could not be parsed.

use crate::parsing::Span;
use vstd::prelude::*;
use vstd::string::*;

verus! {

/// The ways in which parsing a source text fails.
#[derive(Debug)]
pub enum ParseFailure {
    /// The text at `location` is no token.
    InvalidToken { location: usize },
    /// The text ends at `location`, where one of `expected` should follow.
    UnrecognizedEof { location: usize, expected: Vec<String> },
    /// `token` stands where one of `expected` should.
    UnrecognizedToken { start: usize, token: String, end: usize, expected: Vec<String> },
    /// `token` stands behind a text that is complete.
    ExtraToken { start: usize, token: String, end: usize },
    /// The grammar's own actions refused the text.
    User { error: String },
}

/// What is reported of a parse failure: a message, the place in the source,
/// and a note on what was expected.
#[derive(Debug)]
pub struct ParseReport {
    pub message: String,
    pub label: Option<Span>,
    pub note: Option<String>,
}

/// The views of a list of strings.
pub open spec fn strings_view(strings: Seq<String>) -> Seq<Seq<char>> {
    strings.map_values(|s: String| s@)
}

/// The tokens from the second to the `k`-th, each behind a comma.
pub open spec fn spec_expected_middle(expected: Seq<Seq<char>>, k: nat) -> Seq<char>
    decreases k,
{
    if k <= 1 || k > expected.len() {
        Seq::empty()
    } else {
        spec_expected_middle(expected, (k - 1) as nat) + ", "@ + expected[k - 1]
    }
}

/// A list of expected tokens in words: a single token by itself, several as
/// `one of a, b, or c`, and nothing for none.
pub open spec fn spec_expected_list(expected: Seq<Seq<char>>) -> Seq<char> {
    if expected.len() == 0 {
        Seq::empty()
    } else if expected.len() == 1 {
        expected[0]
    } else {
        "one of "@ + expected[0] + spec_expected_middle(expected, (expected.len() - 1) as nat)
            + ", or "@ + expected[expected.len() - 1]
    }
}

/// The message for a parse failure.
pub open spec fn spec_parse_message(failure: ParseFailure) -> Seq<char> {
    match failure {
        ParseFailure::InvalidToken { .. } => "Invalid token"@,
        ParseFailure::UnrecognizedEof { .. } => "Unexpected end of file"@,
        ParseFailure::UnrecognizedToken { token, .. } => "Unexpected "@ + token@,
        ParseFailure::ExtraToken { token, .. } => "This "@ + token@ + " should not be here"@,
        ParseFailure::User { error } => error@,
    }
}

/// The place in the source that a parse failure points at.
pub open spec fn spec_parse_label(failure: ParseFailure) -> Option<Span> {
    match failure {
        ParseFailure::InvalidToken { location } => Some((location, location)),
        ParseFailure::UnrecognizedEof { location, .. } => Some((location, location)),
        ParseFailure::UnrecognizedToken { start, end, .. } => Some((start, end)),
        ParseFailure::ExtraToken { start, end, .. } => Some((start, end)),
        ParseFailure::User { .. } => None,
    }
}

/// The note on what was expected where parsing failed.
pub open spec fn spec_parse_note(failure: ParseFailure) -> Option<Seq<char>> {
    match failure {
        ParseFailure::InvalidToken { .. } => None,
        ParseFailure::UnrecognizedEof { expected, .. } => Some(
            "Expected "@ + spec_expected_list(strings_view(expected@)),
        ),
        ParseFailure::UnrecognizedToken { expected, .. } => Some(
            "Expected "@ + spec_expected_list(strings_view(expected@)),
        ),
        ParseFailure::ExtraToken { .. } => Some("Expected no more tokens"@),
        ParseFailure::User { .. } => None,
    }
}

/// Writes a list of expected tokens in words.
pub fn expected_list(expected: &Vec<String>) -> (res: String)
    ensures
        res@ == spec_expected_list(strings_view(expected@)),
{
    let ghost views = strings_view(expected@);
    if expected.len() == 0 {
        return String::new();
    }
    proof {
        assert(views[0] == expected@[0]@);
        assert(views[expected.len() - 1] == expected@[expected.len() - 1]@);
    }
    if expected.len() == 1 {
        return String::from_str(expected[0].as_str());
    }
    let mut text = String::from_str("one of ");
    text.append(expected[0].as_str());
    let mut k: usize = 1;
    while k < expected.len() - 1
        invariant
            views == strings_view(expected@),
            expected.len() >= 2,
            1 <= k <= expected.len() - 1,
            text@ == "one of "@ + views[0] + spec_expected_middle(views, k as nat),
        decreases expected.len() - k,
    {
        proof {
            assert(views[k as int] == expected@[k as int]@);
            let head = "one of "@ + views[0];
            let done = spec_expected_middle(views, k as nat);
            assert((head + done) + ", "@ + views[k as int] =~= head + (done + ", "@
                + views[k as int]));
        }
        text.append(", ");
        text.append(expected[k].as_str());
        k += 1;
    }
    text.append(", or ");
    text.append(expected[expected.len() - 1].as_str());
    text
}

/// Puts into words why a source text could not be parsed, where, and what
/// was expected there.
pub fn parse_error_report(failure: &ParseFailure) -> (res: ParseReport)
    ensures
        res.message@ == spec_parse_message(*failure),
        res.label == spec_parse_label(*failure),
        match spec_parse_note(*failure) {
            Some(note) => res.note is Some && res.note.unwrap()@ == note,
            None => res.note is None,
        },
{
    match failure {
        ParseFailure::InvalidToken { location } => ParseReport {
            message: String::from_str("Invalid token"),
            label: Some((*location, *location)),
            note: None,
        },
        ParseFailure::UnrecognizedEof { location, expected } => ParseReport {
            message: String::from_str("Unexpected end of file"),
            label: Some((*location, *location)),
            note: Some(String::from_str("Expected ").concat(expected_list(expected).as_str())),
        },
        ParseFailure::UnrecognizedToken { start, token, end, expected } => ParseReport {
            message: String::from_str("Unexpected ").concat(token.as_str()),
            label: Some((*start, *end)),
            note: Some(String::from_str("Expected ").concat(expected_list(expected).as_str())),
        },
        ParseFailure::ExtraToken { start, token, end } => {
            let mut message = String::from_str("This ");
            message.append(token.as_str());
            message.append(" should not be here");
            ParseReport {
                message,
                label: Some((*start, *end)),
                note: Some(String::from_str("Expected no more tokens")),
            }
        },
        ParseFailure::User { error } => ParseReport {
            message: error.clone(),
            label: None,
            note: None,
        },
    }
}

} // verus!
