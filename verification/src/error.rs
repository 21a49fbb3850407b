//! What a parse can fail with, and how a failure reads.

use crate::grammar::{delim_str, delim_text, Delim};
use crate::text::{append_decimal, decimal};
use vstd::prelude::*;
use vstd::string::StringExecFns;

verus! {

/// Why a template could not be parsed.
#[derive(Debug)]
pub enum ParserError {
    /// The source could not be read; the text says why.
    Io(String),
    /// The source holds what cannot be a template; the text says what.
    InvalidData(String),
    /// The template is malformed: the line (from 1), the column (in bytes,
    /// from 0) and what was found or is missing there. The line
    /// [`END_OF_TEXT`] stands for the end of the source; the column then
    /// means nothing.
    ParserError((usize, usize, String)),
}

/// The line number that stands for the end of the source.
pub const END_OF_TEXT: usize = usize::MAX;

/// The mathematical form of a [`ParserError`].
pub ghost enum ErrorView {
    Io { msg: Seq<char> },
    InvalidData { msg: Seq<char> },
    Parse { line: usize, col: usize, msg: Seq<char> },
}

impl View for ParserError {
    type V = ErrorView;

    open spec fn view(&self) -> ErrorView {
        match self {
            ParserError::Io(msg) => ErrorView::Io { msg: msg@ },
            ParserError::InvalidData(msg) => ErrorView::InvalidData { msg: msg@ },
            ParserError::ParserError(at) => ErrorView::Parse { line: at.0, col: at.1, msg: at.2@ },
        }
    }
}

/// How an error reads.
pub open spec fn error_text(e: ErrorView) -> Seq<char> {
    match e {
        ErrorView::Io { msg } => "I/O Error: "@ + msg,
        ErrorView::InvalidData { msg } => "Error : "@ + msg,
        ErrorView::Parse { line, col, msg } => if line == END_OF_TEXT {
            "Parse error at end of text. "@ + msg
        } else {
            "Parse error at Line:"@ + decimal(line as nat) + " Col:"@ + decimal(col as nat) + ". "@
                + msg
        },
    }
}

impl ParserError {
    /// How the error reads.
    pub fn to_string(&self) -> (s: String)
        ensures
            s@ == error_text(self@),
    {
        let mut s = String::new();
        match self {
            ParserError::Io(msg) => {
                s.append("I/O Error: ");
                s.append(msg.as_str());
                assert(s@ =~= error_text(self@));
            },
            ParserError::InvalidData(msg) => {
                s.append("Error : ");
                s.append(msg.as_str());
                assert(s@ =~= error_text(self@));
            },
            ParserError::ParserError(at) => {
                if at.0 == END_OF_TEXT {
                    s.append("Parse error at end of text. ");
                    s.append(at.2.as_str());
                    assert(s@ =~= error_text(self@));
                } else {
                    s.append("Parse error at Line:");
                    append_decimal(&mut s, at.0 as u64);
                    s.append(" Col:");
                    append_decimal(&mut s, at.1 as u64);
                    s.append(". ");
                    s.append(at.2.as_str());
                    assert(s@ =~= error_text(self@));
                }
            },
        }
        s
    }
}

/// The message for a delimiter that may not stand where it was found: the
/// delimiter between backticks.
pub open spec fn unexpected_text(d: Delim) -> Seq<char> {
    "`"@ + delim_text(d) + "`"@
}

/// The message for an `end` that closes nothing.
pub open spec fn nothing_open_text() -> Seq<char> {
    "NoSuchElement"@
}

/// The message for a token that was opened at `line` and `col` and never
/// closed.
pub open spec fn unclosed_token_text(stmt: bool, line: usize, col: usize) -> Seq<char> {
    let open = if stmt {
        Delim::StmtOpen
    } else {
        Delim::VarOpen
    };
    let close = if stmt {
        Delim::StmtClose
    } else {
        Delim::VarClose
    };
    "Missing `"@ + delim_text(close) + "` /From Line:"@ + decimal(line as nat) + " Col:"@ + decimal(
        col as nat,
    ) + " `"@ + delim_text(open) + "`"@
}

/// The message for a construct that began with `opener` at `line` and still
/// lacks its `closer` at the end of the source.
pub open spec fn unclosed_block_text(closer: Seq<char>, line: usize, opener: Seq<char>) -> Seq<
    char,
> {
    "Missing `"@ + closer + "` /From Line:"@ + decimal(line as nat) + " `"@ + opener + "`"@
}

/// The message for a source that is not UTF-8.
pub open spec fn not_utf8_text() -> Seq<char> {
    "stream did not contain valid UTF-8"@
}

/// The message for a delimiter that may not stand where it was found.
pub(crate) fn unexpected(d: Delim) -> (s: String)
    ensures
        s@ == unexpected_text(d),
{
    let mut s = String::new();
    s.append("`");
    s.append(delim_str(d));
    s.append("`");
    assert(s@ =~= unexpected_text(d));
    s
}

/// The message for an `end` that closes nothing.
pub(crate) fn nothing_open() -> (s: String)
    ensures
        s@ == nothing_open_text(),
{
    let mut s = String::new();
    s.append("NoSuchElement");
    assert(s@ =~= nothing_open_text());
    s
}

/// The message for a token that was never closed.
pub(crate) fn unclosed_token(stmt: bool, line: usize, col: usize) -> (s: String)
    ensures
        s@ == unclosed_token_text(stmt, line, col),
{
    let open = if stmt {
        Delim::StmtOpen
    } else {
        Delim::VarOpen
    };
    let close = if stmt {
        Delim::StmtClose
    } else {
        Delim::VarClose
    };
    let mut s = String::new();
    s.append("Missing `");
    s.append(delim_str(close));
    s.append("` /From Line:");
    append_decimal(&mut s, line as u64);
    s.append(" Col:");
    append_decimal(&mut s, col as u64);
    s.append(" `");
    s.append(delim_str(open));
    s.append("`");
    assert(s@ =~= unclosed_token_text(stmt, line, col));
    s
}

/// The message for a construct that still lacks its `closer`.
pub(crate) fn unclosed_block(closer: &str, line: usize, opener: &str) -> (s: String)
    ensures
        s@ == unclosed_block_text(closer@, line, opener@),
{
    let mut s = String::new();
    s.append("Missing `");
    s.append(closer);
    s.append("` /From Line:");
    append_decimal(&mut s, line as u64);
    s.append(" `");
    s.append(opener);
    s.append("`");
    assert(s@ =~= unclosed_block_text(closer@, line, opener@));
    s
}

/// The message for a source that is not UTF-8.
pub(crate) fn not_utf8() -> (s: String)
    ensures
        s@ == not_utf8_text(),
{
    let mut s = String::new();
    s.append("stream did not contain valid UTF-8");
    assert(s@ =~= not_utf8_text());
    s
}

} // verus!
