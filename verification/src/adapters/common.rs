//! The message record delivered to the display layer, and the capability
//! trait every transport endpoint offers the poll loop.

use vstd::prelude::*;

use crate::json::{format_spec, JsonFormatter};

verus! {

/// Who originated a message record.
#[derive(Debug, Default)]
pub enum Direction {
    Outgoing,
    #[default]
    Incoming,
}

/// The standard monotonic clock instant, opaque to the library: records carry
/// a capture time only for display ordering, never serialized.
#[verifier::external_type_specification]
#[verifier::external_body]
pub struct ExInstant(std::time::Instant);

/// Relies on `std::time::Instant::now`: a reading of the monotonic clock.
/// Nothing is assumed of the value.
#[verifier::external_body]
fn now_instant() -> std::time::Instant {
    std::time::Instant::now()
}

/// The display-facing view of a record: its text and flags. The capture time
/// is opaque and carries no specification.
#[verifier::ext_equal]
pub struct LineModel {
    pub text: Seq<char>,
    pub json: bool,
    pub invalid: bool,
    pub dir: Direction,
}

/// The record a log-style line yields.
pub open spec fn log_line_model(text: Seq<char>) -> LineModel {
    LineModel { text: text, json: false, invalid: false, dir: Direction::Outgoing }
}

/// The record one message text yields: compacted and marked as JSON when the
/// canonicalizer accepts it; otherwise the untouched original text, flagged
/// invalid, as a log-style record.
pub open spec fn json_line_model(text: Seq<char>, dir: Direction) -> LineModel {
    match format_spec(text) {
        Some(t) => LineModel { text: t, json: true, invalid: false, dir: dir },
        None => LineModel { text: text, json: false, invalid: true, dir: Direction::Outgoing },
    }
}

/// One displayable record: a payload or log text, its direction, whether it
/// was recognized and canonicalized as JSON, whether it was expected to be
/// JSON but rejected, and its capture time. Immutable once created.
#[derive(Debug)]
pub struct Line {
    pub timestamp: std::time::Instant,
    pub text: String,
    pub treat_as_json: bool,
    pub invalid_json: bool,
    pub dir: Direction,
}

impl View for Line {
    type V = LineModel;

    open spec fn view(&self) -> LineModel {
        LineModel {
            text: self.text@,
            json: self.treat_as_json,
            invalid: self.invalid_json,
            dir: self.dir,
        }
    }
}

impl Line {
    /// A record for a payload expected to be JSON: canonicalized and tagged
    /// with the given direction on success; on failure the original text is
    /// kept and the record is flagged invalid.
    pub fn new_json(s: String, d: Direction) -> (r: Line)
        ensures
            r@ == json_line_model(s@, d),
    {
        let mut fmt = JsonFormatter;
        match fmt.format(&s) {
            Ok(t) => Line {
                timestamp: now_instant(),
                treat_as_json: true,
                text: t,
                invalid_json: false,
                dir: d,
            },
            Err(_) => {
                let mut line = Line::new_log(s);
                line.invalid_json = true;
                line
            },
        }
    }

    /// A log-style record: plain text, never treated as JSON.
    pub fn new_log(s: String) -> (r: Line)
        ensures
            r@ == log_line_model(s@),
    {
        Line {
            timestamp: now_instant(),
            treat_as_json: false,
            text: s,
            invalid_json: false,
            dir: Direction::Outgoing,
        }
    }

    /// The date column shown beside a record; presently always empty.
    pub fn format_date(&self) -> (r: String)
        ensures
            r@ == Seq::<char>::empty(),
    {
        String::new()
    }

    /// Whether this record left through us rather than arriving from a peer.
    pub fn outgoing(&self) -> (r: bool)
        ensures
            r == (self@.dir is Outgoing),
    {
        match self.dir {
            Direction::Outgoing => true,
            _ => false,
        }
    }
}

/// The capability set a transport endpoint offers the poll loop: a health
/// check, a drain of newly completed records, and a broadcast. Every method
/// is non-blocking. Endpoints around real transports live with the binary
/// built on this library; [`crate::adapters::test::TestAdapter`] is the
/// library's own.
pub trait Adapter {
    /// `Err` asks the poll loop to drop this endpoint, with a description.
    fn status(&mut self) -> (r: Result<(), String>) {
        Ok(())
    }

    /// The records completed since the previous poll, if any.
    fn get_lines(&mut self) -> (r: Option<Vec<Line>>) {
        None
    }

    /// Writes the text to every connected peer of this endpoint.
    fn send_message(&mut self, _message: &String) {
    }
}

} // verus!
