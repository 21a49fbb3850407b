//! The parser: a state machine over the delimiters of a source, with an
//! explicit stack of the constructs that are open.
//!
//! The source is read line by line. A line is scanned from left to right;
//! whatever is no delimiter goes to a buffer, and each delimiter makes one
//! step of the machine. [`ParserView`] says what the machine does; [`Parser`]
//! does it.

use crate::error::{
    not_utf8, not_utf8_text, nothing_open, nothing_open_text, unclosed_block, unclosed_block_text, unclosed_token, unclosed_token_text, unexpected,
    unexpected_text, ErrorView, ParserError, END_OF_TEXT,
};
use crate::grammar::{
    delim_at, find_delim, parse_statement, parse_variable, statement_of, variable_of, Delim,
    Statement, StatementView,
};
use crate::template::{
    lemma_parts_view_push, parts_view, Block, CondBlock, LoopBlock, Part, PartView, Str, Template,
    Var, VarOpt,
};
use crate::text::{
    byte_count, byte_len, chars_of, lemma_byte_len_push, lemma_byte_len_split, string_of,
    width_of,
};
use vstd::prelude::*;
use vstd::slice::slice_subrange;
use vstd::utf8::{decode_utf8, encode_utf8, encode_utf8_decode_utf8, valid_utf8};

verus! {

/// A token that has been opened and not yet closed: `{%` if `stmt`, else
/// `{{`, and where it stands.
#[derive(Debug, Clone, Copy, PartialEq, Eq, Structural)]
pub struct Pending {
    pub stmt: bool,
    pub line: usize,
    pub col: usize,
}

/// What an open construct is.
#[derive(Debug)]
pub enum FrameKind {
    /// The branch of a conditional that is taken where `key` holds.
    CondPos { key: String },
    /// The branch after `else`; `pos` is the finished branch before it.
    CondNeg { key: String, pos: Vec<Part> },
    /// The body of a loop.
    LoopInner { name: String, key: String },
    /// A comment.
    Comment,
}

/// An open construct: what it is, the line on which it began, and the nodes
/// found in it so far.
#[derive(Debug)]
pub struct Frame {
    pub kind: FrameKind,
    pub line: usize,
    pub parts: Vec<Part>,
}

/// The mathematical form of a [`FrameKind`].
pub ghost enum FrameKindView {
    CondPos { key: Seq<char> },
    CondNeg { key: Seq<char>, pos: Seq<PartView> },
    LoopInner { name: Seq<char>, key: Seq<char> },
    Comment,
}

/// The mathematical form of a [`Frame`].
pub ghost struct FrameView {
    pub kind: FrameKindView,
    pub line: usize,
    pub parts: Seq<PartView>,
}

impl View for FrameKind {
    type V = FrameKindView;

    open spec fn view(&self) -> FrameKindView {
        match self {
            FrameKind::CondPos { key } => FrameKindView::CondPos { key: key@ },
            FrameKind::CondNeg { key, pos } => FrameKindView::CondNeg {
                key: key@,
                pos: parts_view(pos@),
            },
            FrameKind::LoopInner { name, key } => FrameKindView::LoopInner {
                name: name@,
                key: key@,
            },
            FrameKind::Comment => FrameKindView::Comment,
        }
    }
}

impl View for Frame {
    type V = FrameView;

    open spec fn view(&self) -> FrameView {
        FrameView { kind: self.kind@, line: self.line, parts: parts_view(self.parts@) }
    }
}

/// The mathematical form of a stack of frames.
pub open spec fn frames_view(frames: Seq<Frame>) -> Seq<FrameView> {
    Seq::new(frames.len(), |i: int| frames[i]@)
}

/// The state of the parser between two steps.
pub ghost struct ParserView {
    /// The nodes found so far outside every construct.
    pub root: Seq<PartView>,
    /// The open constructs, the innermost last.
    pub frames: Seq<FrameView>,
    /// The text read since the last delimiter that was acted on.
    pub buf: Seq<char>,
    /// The token that is open, if one is.
    pub pending: Option<Pending>,
    /// The number of lines read.
    pub line: usize,
}

/// The view of a result, on both sides.
pub open spec fn result_view<T: View, E: View>(r: Result<T, E>) -> Result<T::V, E::V> {
    match r {
        Ok(t) => Ok(t@),
        Err(e) => Err(e@),
    }
}

/// What is missing where a construct of this kind is still open at the end
/// of the source.
pub open spec fn closer_text(kind: FrameKindView) -> Seq<char> {
    match kind {
        FrameKindView::Comment => "#}"@,
        _ => "{% end %}"@,
    }
}

/// How a construct of this kind begins.
pub open spec fn opener_text(kind: FrameKindView) -> Seq<char> {
    match kind {
        FrameKindView::Comment => "{#"@,
        FrameKindView::LoopInner { .. } => "{% for"@,
        _ => "{% if"@,
    }
}

/// The number of the line after line `n`. The count stops one short of the
/// number that stands for the end of the source, which no line gets.
pub open spec fn line_after(n: usize) -> usize {
    if n < END_OF_TEXT - 1 {
        (n + 1) as usize
    } else {
        n
    }
}

impl ParserView {
    /// The state before anything is read.
    pub open spec fn initial() -> ParserView {
        ParserView {
            root: Seq::empty(),
            frames: Seq::empty(),
            buf: Seq::empty(),
            pending: None,
            line: 0,
        }
    }

    /// Whether the innermost open construct is a comment.
    pub open spec fn in_comment(self) -> bool {
        self.frames.len() > 0 && self.frames.last().kind is Comment
    }

    /// Adds a node to the innermost open construct.
    pub open spec fn emit(self, p: PartView) -> ParserView {
        if self.frames.len() == 0 {
            ParserView { root: self.root.push(p), ..self }
        } else {
            let top = self.frames.last();
            ParserView {
                frames: self.frames.drop_last().push(
                    FrameView { parts: top.parts.push(p), ..top },
                ),
                ..self
            }
        }
    }

    /// Turns the buffer into a literal node.
    pub open spec fn flush(self) -> ParserView {
        ParserView { buf: Seq::empty(), ..self.emit(PartView::Literal { text: self.buf }) }
    }

    /// Opens a construct.
    pub open spec fn open(self, kind: FrameKindView, line: usize) -> ParserView {
        ParserView {
            frames: self.frames.push(FrameView { kind, line, parts: Seq::empty() }),
            ..self
        }
    }

    /// Forgets the token that was open and its body.
    pub open spec fn clear(self) -> ParserView {
        ParserView { buf: Seq::empty(), pending: None, ..self }
    }

    /// An error at column `col` of the current line.
    pub open spec fn here(self, col: usize, msg: Seq<char>) -> ErrorView {
        ErrorView::Parse { line: self.line, col, msg }
    }

    /// One step: the delimiter `d` was found at column `col` of the current
    /// line.
    ///
    /// In a comment only `{#` and `#}` count. Elsewhere `{#` opens a comment
    /// and `#}` is an error; `{{` and `{%` open a token, unless one is open;
    /// `}}` and `%}` close the token that their counterpart opened, and its
    /// body is read. Whenever something opens, the buffer becomes a literal
    /// node.
    pub open spec fn on_delim(self, d: Delim, col: usize) -> Result<ParserView, ErrorView> {
        if self.in_comment() {
            match d {
                Delim::CommentClose => Ok(
                    ParserView { frames: self.frames.drop_last(), buf: Seq::empty(), ..self },
                ),
                Delim::CommentOpen => Ok(self.open(FrameKindView::Comment, self.line)),
                _ => Ok(self),
            }
        } else {
            match d {
                Delim::CommentClose => Err(self.here(col, unexpected_text(d))),
                Delim::CommentOpen => Ok(self.flush().open(FrameKindView::Comment, self.line)),
                Delim::VarOpen | Delim::StmtOpen => if self.pending is Some {
                    Err(self.here(col, unexpected_text(d)))
                } else {
                    Ok(
                        ParserView {
                            pending: Some(
                                Pending { stmt: d == Delim::StmtOpen, line: self.line, col },
                            ),
                            ..self.flush()
                        },
                    )
                },
                Delim::VarClose => match self.pending {
                    Some(p) if !p.stmt => self.on_variable(p, variable_of(self.buf)),
                    _ => Err(self.here(col, unexpected_text(d))),
                },
                Delim::StmtClose => match self.pending {
                    Some(p) if p.stmt => self.on_statement(p, statement_of(self.buf)),
                    _ => Err(self.here(col, unexpected_text(d))),
                },
            }
        }
    }

    /// The step for `}}`, where `{{` was opened at `p` and `var` is what the
    /// body holds.
    pub open spec fn on_variable(self, p: Pending, var: Option<(Seq<char>, VarOpt)>) -> Result<
        ParserView,
        ErrorView,
    > {
        match var {
            Some((key, opt)) => Ok(self.emit(PartView::VarRef { key, opt }).clear()),
            None => Err(
                ErrorView::Parse {
                    line: p.line,
                    col: p.col,
                    msg: unexpected_text(Delim::VarClose),
                },
            ),
        }
    }

    /// The step for `%}`, where `{%` was opened at `p` and `st` is what the
    /// body holds.
    ///
    /// `if` and `for` open a construct. `else` turns the open branch of a
    /// conditional into the branch after it, which begins on the line of the
    /// `else`. `end` closes the innermost construct and adds it, as one
    /// node, to the construct around it.
    pub open spec fn on_statement(self, p: Pending, st: Option<StatementView>) -> Result<
        ParserView,
        ErrorView,
    > {
        let malformed = ErrorView::Parse {
            line: p.line,
            col: p.col,
            msg: unexpected_text(Delim::StmtClose),
        };
        match st {
            None => Err(malformed),
            Some(StatementView::If { key }) => Ok(
                self.open(FrameKindView::CondPos { key }, p.line).clear(),
            ),
            Some(StatementView::For { name, key }) => Ok(
                self.open(FrameKindView::LoopInner { name, key }, p.line).clear(),
            ),
            Some(StatementView::Else) => if self.frames.len() > 0 {
                let top = self.frames.last();
                match top.kind {
                    FrameKindView::CondPos { key } => Ok(
                        ParserView { frames: self.frames.drop_last(), ..self }.open(
                            FrameKindView::CondNeg { key, pos: top.parts },
                            p.line,
                        ).clear(),
                    ),
                    _ => Err(malformed),
                }
            } else {
                Err(malformed)
            },
            Some(StatementView::End) => if self.frames.len() > 0 {
                let top = self.frames.last();
                let around = ParserView { frames: self.frames.drop_last(), ..self };
                match top.kind {
                    FrameKindView::CondPos { key } => Ok(
                        around.emit(
                            PartView::Conditional { key, pos: top.parts, neg: Seq::empty() },
                        ).clear(),
                    ),
                    FrameKindView::CondNeg { key, pos } => Ok(
                        around.emit(PartView::Conditional { key, pos, neg: top.parts }).clear(),
                    ),
                    FrameKindView::LoopInner { name, key } => Ok(
                        around.emit(PartView::Loop { name, key, body: top.parts }).clear(),
                    ),
                    FrameKindView::Comment => Err(
                        ErrorView::Parse { line: p.line, col: p.col, msg: nothing_open_text() },
                    ),
                }
            } else {
                Err(ErrorView::Parse { line: p.line, col: p.col, msg: nothing_open_text() })
            },
        }
    }

    /// Scans `line` from index `pos` to its end. The column of a delimiter
    /// is the number of bytes before it in the line.
    pub open spec fn scan(self, line: Seq<char>, pos: int) -> Result<ParserView, ErrorView>
        decreases line.len() - pos,
    {
        if 0 <= pos < line.len() {
            match delim_at(line, pos) {
                Some(d) => match self.on_delim(d, byte_len(line.take(pos)) as usize) {
                    Ok(next) => next.scan(line, pos + 2),
                    Err(e) => Err(e),
                },
                None => ParserView { buf: self.buf.push(line[pos]), ..self }.scan(line, pos + 1),
            }
        } else {
            Ok(self)
        }
    }

    /// Reads one line. Lines are counted from 1.
    pub open spec fn feed(self, line: Seq<char>) -> Result<ParserView, ErrorView> {
        ParserView { line: line_after(self.line), ..self }.scan(line, 0)
    }

    /// Ends the parse. The source is a template only where no token and no
    /// construct is open; the rest of the buffer is then its last literal.
    /// Of what is open, the token is reported before the construct, and of
    /// the constructs only the innermost.
    pub open spec fn finish(self) -> Result<Seq<PartView>, ErrorView> {
        match self.pending {
            Some(p) => Err(
                ErrorView::Parse {
                    line: END_OF_TEXT,
                    col: 0,
                    msg: unclosed_token_text(p.stmt, p.line, p.col),
                },
            ),
            None => if self.frames.len() > 0 {
                let top = self.frames.last();
                Err(
                    ErrorView::Parse {
                        line: END_OF_TEXT,
                        col: 0,
                        msg: unclosed_block_text(
                            closer_text(top.kind),
                            top.line,
                            opener_text(top.kind),
                        ),
                    },
                )
            } else {
                Ok(self.root.push(PartView::Literal { text: self.buf }))
            },
        }
    }
}

/// The index after the first line feed in `s` from index `i` on; the length
/// of `s` if there is none.
pub open spec fn line_end(s: Seq<char>, i: int) -> int
    decreases s.len() - i,
{
    if 0 <= i < s.len() {
        if s[i] == '\n' {
            i + 1
        } else {
            line_end(s, i + 1)
        }
    } else {
        i
    }
}

/// A line that begins inside a text is not empty and ends inside it.
pub proof fn lemma_line_end_bounds(s: Seq<char>, i: int)
    requires
        0 <= i < s.len(),
    ensures
        i < line_end(s, i) <= s.len(),
    decreases s.len() - i,
{
    if s[i] != '\n' {
        if i + 1 < s.len() {
            lemma_line_end_bounds(s, i + 1);
        } else {
            assert(line_end(s, i + 1) == i + 1);
        }
    }
}

/// Reads the lines of `s` from index `i` on. A line ends with its line feed;
/// the last one may lack it.
pub open spec fn feed_from(st: ParserView, s: Seq<char>, i: int) -> Result<ParserView, ErrorView>
    decreases s.len() - i,
    via feed_from_decreases
{
    if 0 <= i < s.len() {
        let j = line_end(s, i);
        match st.feed(s.subrange(i, j)) {
            Ok(next) => feed_from(next, s, j),
            Err(e) => Err(e),
        }
    } else {
        Ok(st)
    }
}

/// Reading a line leaves less to read.
#[via_fn]
proof fn feed_from_decreases(st: ParserView, s: Seq<char>, i: int) {
    if 0 <= i < s.len() {
        lemma_line_end_bounds(s, i);
    }
}

/// What parsing a source gives: the nodes of the template, or the first
/// error.
pub open spec fn parse_spec(source: Seq<char>) -> Result<Seq<PartView>, ErrorView> {
    match feed_from(ParserView::initial(), source, 0) {
        Ok(st) => st.finish(),
        Err(e) => Err(e),
    }
}

/// The index after the first line feed in `b` from index `i` on; the length
/// of `b` if there is none.
pub open spec fn chunk_end(b: Seq<u8>, i: int) -> int
    decreases b.len() - i,
{
    if 0 <= i < b.len() {
        if b[i] == 0x0Au8 {
            i + 1
        } else {
            chunk_end(b, i + 1)
        }
    } else {
        i
    }
}

/// A line that begins inside a run of bytes is not empty and ends inside
/// it.
pub proof fn lemma_chunk_end_bounds(b: Seq<u8>, i: int)
    requires
        0 <= i < b.len(),
    ensures
        i < chunk_end(b, i) <= b.len(),
    decreases b.len() - i,
{
    if b[i] != 0x0Au8 {
        if i + 1 < b.len() {
            lemma_chunk_end_bounds(b, i + 1);
        } else {
            assert(chunk_end(b, i + 1) == i + 1);
        }
    }
}

/// Reads the lines of the bytes `b` from index `i` on. Each line is decoded
/// by itself, when its turn comes: a line that is not UTF-8 is an error only
/// if no line before it was one.
pub open spec fn feed_bytes_from(st: ParserView, b: Seq<u8>, i: int) -> Result<
    ParserView,
    ErrorView,
>
    decreases b.len() - i,
    via feed_bytes_from_decreases
{
    if 0 <= i < b.len() {
        let j = chunk_end(b, i);
        let chunk = b.subrange(i, j);
        if valid_utf8(chunk) {
            match st.feed(decode_utf8(chunk)) {
                Ok(next) => feed_bytes_from(next, b, j),
                Err(e) => Err(e),
            }
        } else {
            Err(ErrorView::Io { msg: not_utf8_text() })
        }
    } else {
        Ok(st)
    }
}

/// Reading a line leaves less to read.
#[via_fn]
proof fn feed_bytes_from_decreases(st: ParserView, b: Seq<u8>, i: int) {
    if 0 <= i < b.len() {
        lemma_chunk_end_bounds(b, i);
    }
}

/// What parsing a source of bytes gives.
pub open spec fn parse_bytes_spec(source: Seq<u8>) -> Result<Seq<PartView>, ErrorView> {
    match feed_bytes_from(ParserView::initial(), source, 0) {
        Ok(st) => st.finish(),
        Err(e) => Err(e),
    }
}

/// A parser that is fed a source line by line.
#[derive(Debug)]
pub struct Parser {
    root: Vec<Part>,
    frames: Vec<Frame>,
    buf: Vec<char>,
    pending: Option<Pending>,
    line: usize,
}

impl View for Parser {
    type V = ParserView;

    closed spec fn view(&self) -> ParserView {
        ParserView {
            root: parts_view(self.root@),
            frames: frames_view(self.frames@),
            buf: self.buf@,
            pending: self.pending,
            line: self.line,
        }
    }
}

/// Reads bytes as a string. This is `core::str::from_utf8`, which takes the
/// bytes for a string exactly where they are well-formed UTF-8; the string is
/// then made of these very bytes.
#[verifier::external_body]
fn decode(bytes: &[u8]) -> (r: Option<&str>)
    ensures
        r is Some <==> valid_utf8(bytes@),
        r matches Some(s) ==> encode_utf8(s@) == bytes@,
{
    core::str::from_utf8(bytes).ok()
}

impl Parser {
    /// A parser that has read nothing.
    pub fn new() -> (p: Parser)
        ensures
            p@ == ParserView::initial(),
    {
        let p = Parser {
            root: Vec::new(),
            frames: Vec::new(),
            buf: Vec::new(),
            pending: None,
            line: 0,
        };
        assert(p@.root =~= Seq::empty());
        assert(p@.frames =~= Seq::empty());
        p
    }

    /// Adds a node to the innermost open construct.
    fn emit(&mut self, p: Part)
        ensures
            final(self)@ == old(self)@.emit(p@),
    {
        match self.frames.pop() {
            None => {
                proof {
                    lemma_parts_view_push(self.root@, p);
                }
                self.root.push(p);
                assert(self.frames@ =~= old(self).frames@);
            },
            Some(top) => {
                let mut top = top;
                proof {
                    lemma_parts_view_push(top.parts@, p);
                }
                top.parts.push(p);
                self.frames.push(top);
                assert(self@.frames =~= old(self)@.emit(p@).frames);
            },
        }
    }

    /// Turns the buffer into a literal node.
    fn flush(&mut self)
        ensures
            final(self)@ == old(self)@.flush(),
    {
        let n = self.buf.len();
        let text = string_of(&self.buf, 0, n);
        assert(self.buf@.subrange(0, n as int) =~= self.buf@);
        self.emit(Part::Str(Str { str: text }));
        self.buf = Vec::new();
    }

    /// Opens a construct.
    fn open(&mut self, kind: FrameKind, line: usize)
        ensures
            final(self)@ == old(self)@.open(kind@, line),
    {
        let frame = Frame { kind, line, parts: Vec::new() };
        assert(frame@.parts =~= Seq::empty());
        self.frames.push(frame);
        assert(self@.frames =~= old(self)@.open(kind@, line).frames);
    }

    /// Forgets the token that was open and its body.
    fn clear(&mut self)
        ensures
            final(self)@ == old(self)@.clear(),
    {
        self.buf = Vec::new();
        self.pending = None;
    }

    /// Whether the innermost open construct is a comment.
    fn in_comment(&self) -> (r: bool)
        ensures
            r == self@.in_comment(),
    {
        let n = self.frames.len();
        if n == 0 {
            false
        } else {
            match &self.frames[n - 1].kind {
                FrameKind::Comment => true,
                _ => false,
            }
        }
    }

    /// The step for `}}`, where `{{` was opened at `p`.
    fn on_variable(&mut self, p: Pending) -> (r: Result<(), ParserError>)
        ensures
            match r {
                Ok(()) => old(self)@.on_variable(p, variable_of(old(self)@.buf)) == Ok::<
                    ParserView,
                    ErrorView,
                >(final(self)@),
                Err(e) => old(self)@.on_variable(p, variable_of(old(self)@.buf)) == Err::<
                    ParserView,
                    ErrorView,
                >(e@),
            },
    {
        match parse_variable(&self.buf) {
            Some((key, opt)) => {
                self.emit(Part::Var(Var { key, opt }));
                self.clear();
                Ok(())
            },
            None => Err(ParserError::ParserError((p.line, p.col, unexpected(Delim::VarClose)))),
        }
    }

    /// The step for `%}`, where `{%` was opened at `p`.
    fn on_statement(&mut self, p: Pending) -> (r: Result<(), ParserError>)
        ensures
            match r {
                Ok(()) => old(self)@.on_statement(p, statement_of(old(self)@.buf)) == Ok::<
                    ParserView,
                    ErrorView,
                >(final(self)@),
                Err(e) => old(self)@.on_statement(p, statement_of(old(self)@.buf)) == Err::<
                    ParserView,
                    ErrorView,
                >(e@),
            },
    {
        match parse_statement(&self.buf) {
            None => Err(ParserError::ParserError((p.line, p.col, unexpected(Delim::StmtClose)))),
            Some(Statement::If { key }) => {
                self.open(FrameKind::CondPos { key }, p.line);
                self.clear();
                Ok(())
            },
            Some(Statement::For { name, key }) => {
                self.open(FrameKind::LoopInner { name, key }, p.line);
                self.clear();
                Ok(())
            },
            Some(Statement::Else) => {
                match self.frames.pop() {
                    Some(Frame { kind: FrameKind::CondPos { key }, line: _, parts }) => {
                        assert(self@.frames =~= old(self)@.frames.drop_last());
                        self.open(FrameKind::CondNeg { key, pos: parts }, p.line);
                        self.clear();
                        Ok(())
                    },
                    _ => Err(
                        ParserError::ParserError((p.line, p.col, unexpected(Delim::StmtClose))),
                    ),
                }
            },
            Some(Statement::End) => {
                match self.frames.pop() {
                    None => Err(ParserError::ParserError((p.line, p.col, nothing_open()))),
                    Some(top) => {
                        assert(self@.frames =~= old(self)@.frames.drop_last());
                        match top.kind {
                            FrameKind::CondPos { key } => {
                                let neg = Block::new();
                                self.emit(
                                    Part::CondBlock(
                                        CondBlock { key, pos: Block { parts: top.parts }, neg },
                                    ),
                                );
                                self.clear();
                                Ok(())
                            },
                            FrameKind::CondNeg { key, pos } => {
                                self.emit(
                                    Part::CondBlock(
                                        CondBlock {
                                            key,
                                            pos: Block { parts: pos },
                                            neg: Block { parts: top.parts },
                                        },
                                    ),
                                );
                                self.clear();
                                Ok(())
                            },
                            FrameKind::LoopInner { name, key } => {
                                self.emit(
                                    Part::LoopBlock(
                                        LoopBlock { name, key, inner: Block { parts: top.parts } },
                                    ),
                                );
                                self.clear();
                                Ok(())
                            },
                            FrameKind::Comment => Err(
                                ParserError::ParserError((p.line, p.col, nothing_open())),
                            ),
                        }
                    },
                }
            },
        }
    }

    /// One step: the delimiter `d` was found at column `col` of the current
    /// line.
    fn on_delim(&mut self, d: Delim, col: usize) -> (r: Result<(), ParserError>)
        ensures
            match r {
                Ok(()) => old(self)@.on_delim(d, col) == Ok::<ParserView, ErrorView>(final(self)@),
                Err(e) => old(self)@.on_delim(d, col) == Err::<ParserView, ErrorView>(e@),
            },
    {
        if self.in_comment() {
            match d {
                Delim::CommentClose => {
                    self.frames.pop();
                    self.buf = Vec::new();
                    assert(self@.frames =~= old(self)@.frames.drop_last());
                    Ok(())
                },
                Delim::CommentOpen => {
                    let line = self.line;
                    self.open(FrameKind::Comment, line);
                    Ok(())
                },
                _ => Ok(()),
            }
        } else {
            match d {
                Delim::CommentClose => Err(
                    ParserError::ParserError((self.line, col, unexpected(d))),
                ),
                Delim::CommentOpen => {
                    let line = self.line;
                    self.flush();
                    self.open(FrameKind::Comment, line);
                    Ok(())
                },
                Delim::VarOpen | Delim::StmtOpen => {
                    if self.pending.is_some() {
                        Err(ParserError::ParserError((self.line, col, unexpected(d))))
                    } else {
                        self.flush();
                        self.pending = Some(
                            Pending { stmt: d == Delim::StmtOpen, line: self.line, col },
                        );
                        Ok(())
                    }
                },
                Delim::VarClose => {
                    match self.pending {
                        Some(p) if !p.stmt => self.on_variable(p),
                        _ => Err(ParserError::ParserError((self.line, col, unexpected(d)))),
                    }
                },
                Delim::StmtClose => {
                    match self.pending {
                        Some(p) if p.stmt => self.on_statement(p),
                        _ => Err(ParserError::ParserError((self.line, col, unexpected(d)))),
                    }
                },
            }
        }
    }

    /// Reads one line, given as its characters.
    fn feed_chars(self, line: &Vec<char>) -> (r: Result<Parser, ParserError>)
        requires
            byte_len(line@) <= usize::MAX,
        ensures
            result_view(r) == self@.feed(line@),
    {
        let ghost origin = self@;
        let mut this = self;
        if this.line < END_OF_TEXT - 1 {
            this.line = this.line + 1;
        }
        let ghost start = this@;
        let mut pos: usize = 0;
        let mut col: usize = 0;
        assert(line@.take(0) =~= Seq::<char>::empty());
        while pos < line.len()
            invariant
                pos <= line@.len(),
                col == byte_len(line@.take(pos as int)),
                byte_len(line@) <= usize::MAX,
                origin == self@,
                origin.feed(line@) == start.scan(line@, 0),
                start.scan(line@, 0) == this@.scan(line@, pos as int),
            decreases line@.len() - pos,
        {
            proof {
                lemma_byte_len_split(line@, pos as int);
                lemma_byte_len_split(line@, pos + 1);
                lemma_byte_len_push(line@.take(pos as int), line@[pos as int]);
                assert(line@.take(pos + 1) =~= line@.take(pos as int).push(line@[pos as int]));
            }
            match find_delim(line, pos) {
                Some(d) => {
                    proof {
                        lemma_byte_len_split(line@, pos + 2);
                        lemma_byte_len_push(line@.take(pos + 1), line@[pos + 1]);
                        assert(line@.take(pos + 2) =~= line@.take(pos + 1).push(line@[pos + 1]));
                    }
                    let ghost before = this@;
                    assert(before.scan(line@, pos as int) == match before.on_delim(d, col) {
                        Ok(next) => next.scan(line@, pos + 2),
                        Err(e) => Err(e),
                    });
                    match this.on_delim(d, col) {
                        Ok(()) => {},
                        Err(e) => {
                            return Err(e);
                        },
                    }
                    col = col + width_of(line[pos]) + width_of(line[pos + 1]);
                    pos = pos + 2;
                },
                None => {
                    let ghost before = this@;
                    assert(before.scan(line@, pos as int) == ParserView {
                        buf: before.buf.push(line@[pos as int]),
                        ..before
                    }.scan(line@, pos + 1));
                    this.buf.push(line[pos]);
                    col = col + width_of(line[pos]);
                    pos = pos + 1;
                },
            }
        }
        Ok(this)
    }

    /// Reads one line of the source. A line ends with its line feed; the last
    /// one may lack it.
    pub fn feed_line(self, line: &str) -> (r: Result<Parser, ParserError>)
        ensures
            result_view(r) == self@.feed(line@),
    {
        let chars = chars_of(line);
        let bytes: usize = byte_count(line);
        assert(byte_len(line@) <= usize::MAX);
        self.feed_chars(&chars)
    }

    /// Ends the parse and hands out the template.
    pub fn finish(self) -> (r: Result<Template, ParserError>)
        ensures
            result_view(r) == self@.finish(),
    {
        match self.pending {
            Some(p) => Err(
                ParserError::ParserError((END_OF_TEXT, 0, unclosed_token(p.stmt, p.line, p.col))),
            ),
            None => {
                let n = self.frames.len();
                if n > 0 {
                    let top = &self.frames[n - 1];
                    let msg = match &top.kind {
                        FrameKind::Comment => unclosed_block("#}", top.line, "{#"),
                        FrameKind::LoopInner { .. } => unclosed_block(
                            "{% end %}",
                            top.line,
                            "{% for",
                        ),
                        _ => unclosed_block("{% end %}", top.line, "{% if"),
                    };
                    Err(ParserError::ParserError((END_OF_TEXT, 0, msg)))
                } else {
                    let mut this = self;
                    this.flush();
                    Ok(Template::from_block(Block { parts: this.root }))
                }
            },
        }
    }
}

/// Parses a template.
pub fn parse_str(source: &str) -> (r: Result<Template, ParserError>)
    ensures
        result_view(r) == parse_spec(source@),
{
    let chars = chars_of(source);
    let bytes: usize = byte_count(source);
    assert(byte_len(source@) <= usize::MAX);
    let mut parser = Parser::new();
    let mut i: usize = 0;
    while i < chars.len()
        invariant
            i <= chars@.len(),
            chars@ == source@,
            byte_len(source@) <= usize::MAX,
            feed_from(ParserView::initial(), source@, 0) == feed_from(parser@, source@, i as int),
        decreases chars@.len() - i,
    {
        let mut line: Vec<char> = Vec::new();
        let mut j: usize = i;
        let mut done = false;
        while j < chars.len() && !done
            invariant
                i <= j <= chars@.len(),
                line@ == chars@.subrange(i as int, j as int),
                done ==> j > i && line_end(chars@, i as int) == j,
                !done ==> line_end(chars@, i as int) == line_end(chars@, j as int),
            decreases chars@.len() - j,
        {
            let c = chars[j];
            line.push(c);
            assert(line@ =~= chars@.subrange(i as int, j + 1));
            if c == '\n' {
                done = true;
            }
            j = j + 1;
        }
        proof {
            lemma_byte_len_split(source@, i as int);
            lemma_byte_len_split(source@.skip(i as int), j - i);
            assert(source@.skip(i as int).take(j - i) =~= line@);
        }
        match parser.feed_chars(&line) {
            Ok(next) => {
                parser = next;
            },
            Err(e) => {
                return Err(e);
            },
        }
        i = j;
    }
    parser.finish()
}

/// Parses a template that is given as bytes in UTF-8.
pub fn parse(source: &[u8]) -> (r: Result<Template, ParserError>)
    ensures
        result_view(r) == parse_bytes_spec(source@),
{
    let mut parser = Parser::new();
    let mut i: usize = 0;
    while i < source.len()
        invariant
            i <= source@.len(),
            feed_bytes_from(ParserView::initial(), source@, 0) == feed_bytes_from(
                parser@,
                source@,
                i as int,
            ),
        decreases source@.len() - i,
    {
        let mut j: usize = i;
        let mut done = false;
        while j < source.len() && !done
            invariant
                i <= j <= source@.len(),
                done ==> j > i && chunk_end(source@, i as int) == j,
                !done ==> chunk_end(source@, i as int) == chunk_end(source@, j as int),
            decreases source@.len() - j,
        {
            if source[j] == 0x0Au8 {
                done = true;
            }
            j = j + 1;
        }
        let chunk = slice_subrange(source, i, j);
        match decode(chunk) {
            None => {
                return Err(ParserError::Io(not_utf8()));
            },
            Some(line) => {
                proof {
                    encode_utf8_decode_utf8(line@);
                }
                match parser.feed_line(line) {
                    Ok(next) => {
                        parser = next;
                    },
                    Err(e) => {
                        return Err(e);
                    },
                }
            },
        }
        i = j;
    }
    parser.finish()
}

} // verus!
