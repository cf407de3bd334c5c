//! Log entries: how one is laid out, and where it is written.

use crate::context::{label_of, snippet_of, Context, ContextView};
use crate::text::{chars_of, push_spaces, push_str, same_text, spaces, string_of};
use vstd::prelude::*;

verus! {

/// The level of a notice.
pub const INFO: &'static str = "INFO";

/// The level of a warning.
pub const WARN: &'static str = "WARN";

/// The level of an error.
pub const ERROR: &'static str = "ERROR";

/// The width to which the level of an entry is padded.
pub const LEVEL_WIDTH: usize = 5;

/// What an optional context is to the contracts.
pub open spec fn place_of(context: Option<&Context>) -> Option<ContextView> {
    match context {
        Some(c) => Some(c@),
        None => None,
    }
}

/// `level`, padded with spaces on the right to `LEVEL_WIDTH` characters.
pub open spec fn padded_level(level: Seq<char>) -> Seq<char> {
    if level.len() < LEVEL_WIDTH {
        level + spaces((LEVEL_WIDTH - level.len()) as nat)
    } else {
        level
    }
}

/// The label of an entry in square brackets, or nothing where the place has
/// no label.
pub open spec fn bracketed_label(context: Option<ContextView>) -> Seq<char> {
    match context {
        Some(c) => match label_of(c) {
            Some(label) => seq!['['] + label + "] "@,
            None => Seq::empty(),
        },
        None => Seq::empty(),
    }
}

/// The source lines that follow a warning or an error, or nothing for
/// another level or a place without the line's text.
pub open spec fn entry_snippet(level: Seq<char>, context: Option<ContextView>) -> Seq<char> {
    if level == WARN@ || level == ERROR@ {
        match context {
            Some(c) => match snippet_of(c) {
                Some(snippet) => seq!['\n'] + snippet,
                None => Seq::empty(),
            },
            None => Seq::empty(),
        }
    } else {
        Seq::empty()
    }
}

/// The text of a log entry: `make: `, the padded level, the label of the
/// place in brackets, a bar, the message, and for a warning or an error the
/// source line.
pub open spec fn log_entry(level: Seq<char>, msg: Seq<char>, context: Option<ContextView>) -> Seq<
    char,
> {
    "make: "@ + padded_level(level) + seq![' '] + bracketed_label(context) + "| "@ + msg
        + entry_snippet(level, context)
}

/// Lays out a log entry.
pub fn format_log(level: &str, msg: &str, context: Option<&Context>) -> (out: String)
    ensures
        out@ == log_entry(level@, msg@, place_of(context)),
{
    let level_chars = chars_of(level);
    let mut out: Vec<char> = Vec::new();
    push_str(&mut out, "make: ");
    push_str(&mut out, level);
    if level_chars.len() < LEVEL_WIDTH {
        push_spaces(&mut out, LEVEL_WIDTH - level_chars.len());
    }
    out.push(' ');
    assert(out@ == "make: "@ + padded_level(level@) + seq![' ']);
    match context {
        Some(c) => match c.label() {
            Some(label) => {
                out.push('[');
                push_str(&mut out, label.as_str());
                push_str(&mut out, "] ");
                assert(out@ == "make: "@ + padded_level(level@) + seq![' '] + (seq!['['] + label@
                    + "] "@));
            },
            None => {},
        },
        None => {},
    }
    assert(out@ == "make: "@ + padded_level(level@) + seq![' '] + bracketed_label(
        place_of(context),
    ));
    push_str(&mut out, "| ");
    push_str(&mut out, msg);
    let ghost head = out@;
    let warn = chars_of(WARN);
    let error = chars_of(ERROR);
    if same_text(&level_chars, &warn) || same_text(&level_chars, &error) {
        match context {
            Some(c) => match c.display_line() {
                Some(snippet) => {
                    out.push('\n');
                    push_str(&mut out, snippet.as_str());
                    assert(out@ == head + (seq!['\n'] + snippet@));
                },
                None => {},
            },
            None => {},
        }
    }
    assert(out@ == head + entry_snippet(level@, place_of(context)));
    string_of(&out)
}

/// Where log entries are written.
pub trait Logger {
    /// Writes one entry.
    fn write(&self, msg: String);
}

/// A logger, together with the record of what was written to it.
pub struct Journal<L: Logger> {
    sink: L,
    written: Ghost<Seq<Seq<char>>>,
}

impl<L: Logger> Journal<L> {
    /// The entries written so far, the first one first.
    pub closed spec fn lines(&self) -> Seq<Seq<char>> {
        self.written@
    }

    /// The logger that the entries are written to.
    pub closed spec fn logger(&self) -> L {
        self.sink
    }

    /// The journal of `sink`, with nothing written yet.
    pub fn new(sink: L) -> (out: Self)
        ensures
            out.lines() == Seq::<Seq<char>>::empty(),
            out.logger() == sink,
    {
        Journal { sink, written: Ghost(Seq::empty()) }
    }

    /// Writes one entry: hands it to the logger, which stays the same one,
    /// and records it.
    pub fn write(&mut self, msg: String)
        ensures
            final(self).lines() == old(self).lines().push(msg@),
            final(self).logger() == old(self).logger(),
    {
        self.written = Ghost(self.written@.push(msg@));
        self.sink.write(msg);
    }

    /// The logger that the entries are written to.
    pub fn sink(&self) -> (out: &L)
        ensures
            *out == self.logger(),
    {
        &self.sink
    }
}

/// Logs a message at the level `INFO`.
pub fn log_info<L: Logger>(logger: &mut Journal<L>, msg: &str, context: Option<&Context>)
    ensures
        final(logger).lines() == old(logger).lines().push(
            log_entry(INFO@, msg@, place_of(context)),
        ),
        final(logger).logger() == old(logger).logger(),
{
    logger.write(format_log(INFO, msg, context));
}

/// Logs a message at the level `WARN`.
pub fn log_warn<L: Logger>(logger: &mut Journal<L>, msg: &str, context: Option<&Context>)
    ensures
        final(logger).lines() == old(logger).lines().push(
            log_entry(WARN@, msg@, place_of(context)),
        ),
        final(logger).logger() == old(logger).logger(),
{
    logger.write(format_log(WARN, msg, context));
}

/// Logs a message at the level `ERROR`.
pub fn log_error<L: Logger>(logger: &mut Journal<L>, msg: &str, context: Option<&Context>)
    ensures
        final(logger).lines() == old(logger).lines().push(
            log_entry(ERROR@, msg@, place_of(context)),
        ),
        final(logger).logger() == old(logger).logger(),
{
    logger.write(format_log(ERROR, msg, context));
}

} // verus!
