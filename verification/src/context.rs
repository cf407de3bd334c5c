//! Where in a makefile something happened.

use crate::text::{decimal, push_decimal, push_spaces, push_str, spaces, string_of};
use vstd::prelude::*;

verus! {

/// A place in a source file: the file's path, the number of a line counted
/// from 1, a column counted from 0, and the text of the line; each may be
/// missing.
#[derive(Debug)]
pub struct Context {
    pub path: Option<String>,
    pub content: Option<String>,
    pub line_index: Option<usize>,
    pub column_index: Option<usize>,
}

/// What a context is to the contracts.
pub struct ContextView {
    pub path: Option<Seq<char>>,
    pub content: Option<Seq<char>>,
    pub line_index: Option<usize>,
    pub column_index: Option<usize>,
}

/// What an optional string is to the contracts.
pub open spec fn text_of(s: Option<String>) -> Option<Seq<char>> {
    match s {
        Some(s) => Some(s@),
        None => None,
    }
}

impl View for Context {
    type V = ContextView;

    open spec fn view(&self) -> ContextView {
        ContextView {
            path: text_of(self.path),
            content: text_of(self.content),
            line_index: self.line_index,
            column_index: self.column_index,
        }
    }
}

/// The context that names no place.
pub open spec fn nowhere() -> ContextView {
    ContextView { path: None, content: None, line_index: None, column_index: None }
}

/// The label of a place: `path`, `path:line` or `path:line:column`, the
/// column counted from 1; none without a path.
pub open spec fn label_of(c: ContextView) -> Option<Seq<char>> {
    match c.path {
        None => None,
        Some(path) => match c.line_index {
            None => Some(path),
            Some(line) => match c.column_index {
                None => Some(path + seq![':'] + decimal(line as nat)),
                Some(column) => Some(
                    path + seq![':'] + decimal(line as nat) + seq![':'] + decimal(
                        (column + 1) as nat,
                    ),
                ),
            },
        },
    }
}

/// The source line of a place, drawn with a gutter that holds the line's
/// number and, where the column is known, a caret under that column; none
/// without the line's text.
pub open spec fn snippet_of(c: ContextView) -> Option<Seq<char>> {
    match c.content {
        None => None,
        Some(content) => match c.line_index {
            None => Some(" | "@ + content + seq!['\n']),
            Some(line) => {
                let number = decimal(line as nat);
                let pad = spaces(number.len());
                let head = pad + " |\n"@ + number + " | "@ + content + seq!['\n'] + pad + " | "@;
                match c.column_index {
                    None => Some(head + seq!['\n']),
                    Some(column) => Some(head + spaces(column as nat) + "^\n"@),
                }
            },
        },
    }
}

/// A copy of an optional string.
pub fn copy_text(s: &Option<String>) -> (out: Option<String>)
    ensures
        out == *s,
{
    match s {
        Some(s) => Some(s.clone()),
        None => None,
    }
}

impl Clone for Context {
    fn clone(&self) -> (out: Self)
        ensures
            out == *self,
    {
        Context {
            path: copy_text(&self.path),
            content: copy_text(&self.content),
            line_index: self.line_index,
            column_index: self.column_index,
        }
    }
}

impl Default for Context {
    fn default() -> (out: Self)
        ensures
            out@ == nowhere(),
    {
        Context::new()
    }
}

impl From<String> for Context {
    fn from(path: String) -> (out: Self) {
        Context::from_path(path)
    }
}

impl vstd::std_specs::convert::FromSpecImpl<String> for Context {
    open spec fn obeys_from_spec() -> bool {
        true
    }

    open spec fn from_spec(path: String) -> Self {
        Context { path: Some(path), content: None, line_index: None, column_index: None }
    }
}

impl Context {
    /// The context that names no place.
    pub fn new() -> (out: Self)
        ensures
            out@ == nowhere(),
    {
        Context { path: None, content: None, line_index: None, column_index: None }
    }

    /// The context of a file as a whole.
    pub fn from_path(path: String) -> (out: Self)
        ensures
            out == (Context { path: Some(path), content: None, line_index: None, column_index: None }),
            out@ == (ContextView { path: Some(path@), ..nowhere() }),
    {
        Context { path: Some(path), content: None, line_index: None, column_index: None }
    }

    /// The label of this place, for the head of a log line.
    pub fn label(&self) -> (out: Option<String>)
        ensures
            text_of(out) == label_of(self@),
    {
        match &self.path {
            None => None,
            Some(path) => {
                let mut out: Vec<char> = Vec::new();
                push_str(&mut out, path.as_str());
                assert(out@ == path@);
                match self.line_index {
                    None => {},
                    Some(line) => {
                        out.push(':');
                        push_decimal(&mut out, line as u128);
                        match self.column_index {
                            None => {},
                            Some(column) => {
                                out.push(':');
                                push_decimal(&mut out, column as u128 + 1);
                            },
                        }
                    },
                }
                Some(string_of(&out))
            },
        }
    }

    /// The source line of this place, drawn for a log entry.
    pub fn display_line(&self) -> (out: Option<String>)
        ensures
            text_of(out) == snippet_of(self@),
    {
        match &self.content {
            None => None,
            Some(content) => {
                let mut out: Vec<char> = Vec::new();
                match self.line_index {
                    None => {
                        push_str(&mut out, " | ");
                        push_str(&mut out, content.as_str());
                        out.push('\n');
                        assert(out@ == " | "@ + content@ + seq!['\n']);
                    },
                    Some(line) => {
                        let mut number: Vec<char> = Vec::new();
                        push_decimal(&mut number, line as u128);
                        assert(number@ == decimal(line as nat));
                        let width = number.len();
                        push_spaces(&mut out, width);
                        assert(out@ == spaces(width as nat));
                        push_str(&mut out, " |\n");
                        let ghost pad = spaces(width as nat);
                        let ghost a1 = out@;
                        let mut digits = crate::text::slice_of(&number, 0, width);
                        assert(digits@ == number@);
                        out.append(&mut digits);
                        push_str(&mut out, " | ");
                        push_str(&mut out, content.as_str());
                        out.push('\n');
                        push_spaces(&mut out, width);
                        push_str(&mut out, " | ");
                        let ghost head = pad + " |\n"@ + number@ + " | "@ + content@ + seq!['\n']
                            + pad + " | "@;
                        assert(out@ == head);
                        match self.column_index {
                            None => {
                                out.push('\n');
                                assert(out@ == head + seq!['\n']);
                            },
                            Some(column) => {
                                push_spaces(&mut out, column);
                                push_str(&mut out, "^\n");
                            },
                        }
                    },
                }
                Some(string_of(&out))
            },
        }
    }
}

} // verus!
