//! The parse of a text as a whole. The parser reads line by line and counts
//! lines and columns as it goes, but which template it finds depends on
//! neither: it is the one that a scan of the whole text finds, in which
//! nothing is counted.

use vstd::prelude::*;

use crate::error::ErrorView;
use crate::grammar::{delim_at, statement_of, variable_of, Delim, StatementView};
use crate::parser::{
    feed_from, lemma_line_end_bounds, line_after, line_end, parse_spec, FrameKindView, FrameView,
    ParserView, Pending,
};
use crate::template::PartView;
use crate::text::byte_len;

verus! {

/// A state without its line numbers and columns.
spec fn unnumbered(st: ParserView) -> ParserView {
    ParserView {
        root: st.root,
        frames: Seq::new(st.frames.len(), |i: int| FrameView { line: 0, ..st.frames[i] }),
        buf: st.buf,
        pending: match st.pending {
            Some(p) => Some(Pending { stmt: p.stmt, line: 0, col: 0 }),
            None => None,
        },
        line: 0,
    }
}

/// The scan of a text that is not cut into lines, and in which nothing is
/// counted.
pub open spec fn scan_text(st: ParserView, s: Seq<char>, pos: int) -> Result<ParserView, ErrorView>
    decreases s.len() - pos,
{
    if 0 <= pos < s.len() {
        match delim_at(s, pos) {
            Some(d) => match st.on_delim(d, 0) {
                Ok(next) => scan_text(next, s, pos + 2),
                Err(e) => Err(e),
            },
            None => scan_text(ParserView { buf: st.buf.push(s[pos]), ..st }, s, pos + 1),
        }
    } else {
        Ok(st)
    }
}

/// Whether two outcomes are the same but for line numbers, columns and the
/// error.
spec fn alike(a: Result<ParserView, ErrorView>, b: Result<ParserView, ErrorView>) -> bool {
    match (a, b) {
        (Ok(x), Ok(y)) => unnumbered(x) == y,
        (Err(_), Err(_)) => true,
        _ => false,
    }
}

/// Adding a node does the same with and without the numbers.
proof fn lemma_unnumbered_emit(st: ParserView, p: PartView)
    ensures
        unnumbered(st.emit(p)) == unnumbered(st).emit(p),
{
    assert(unnumbered(st.emit(p)).frames =~= unnumbered(st).emit(p).frames);
}

/// Opening a construct does the same with and without the numbers.
proof fn lemma_unnumbered_open(st: ParserView, kind: FrameKindView, line: usize)
    ensures
        unnumbered(st.open(kind, line)) == unnumbered(st).open(kind, 0),
{
    assert(unnumbered(st.open(kind, line)).frames =~= unnumbered(st).open(kind, 0).frames);
}

/// Leaving a construct does the same with and without the numbers.
proof fn lemma_unnumbered_drop(st: ParserView)
    requires
        st.frames.len() > 0,
    ensures
        unnumbered(ParserView { frames: st.frames.drop_last(), ..st }) == (ParserView {
            frames: unnumbered(st).frames.drop_last(),
            ..unnumbered(st)
        }),
{
    assert(unnumbered(ParserView { frames: st.frames.drop_last(), ..st }).frames =~= unnumbered(
        st,
    ).frames.drop_last());
}

/// A step does the same to a state with and without its numbers.
proof fn lemma_step_alike(st: ParserView, d: Delim, col: usize)
    ensures
        alike(st.on_delim(d, col), unnumbered(st).on_delim(d, 0)),
{
    let b = unnumbered(st);
    lemma_unnumbered_emit(st, PartView::Literal { text: st.buf });
    lemma_unnumbered_open(st, FrameKindView::Comment, st.line);
    lemma_unnumbered_open(st.flush(), FrameKindView::Comment, st.line);
    if st.frames.len() > 0 {
        lemma_unnumbered_drop(st);
        assert(b.frames.last() == (FrameView { line: 0, ..st.frames.last() }));
    }
    assert(b.in_comment() == st.in_comment());
    assert(unnumbered(st.flush()) == b.flush());
    if !st.in_comment() {
        match d {
            Delim::VarClose => {
                if st.pending is Some && !st.pending->0.stmt {
                    let p = st.pending->0;
                    match variable_of(st.buf) {
                        Some((key, opt)) => {
                            lemma_unnumbered_emit(st, PartView::VarRef { key, opt });
                        },
                        None => {},
                    }
                }
            },
            Delim::StmtClose => {
                if st.pending is Some && st.pending->0.stmt {
                    let p = st.pending->0;
                    lemma_statement_alike(st, p, statement_of(st.buf));
                }
            },
            _ => {},
        }
    }
}

/// A statement does the same to a state with and without its numbers.
proof fn lemma_statement_alike(
    st: ParserView,
    p: Pending,
    stmt: Option<StatementView>,
)
    ensures
        alike(
            st.on_statement(p, stmt),
            unnumbered(st).on_statement(Pending { stmt: p.stmt, line: 0, col: 0 }, stmt),
        ),
{
    let b = unnumbered(st);
    if st.frames.len() > 0 {
        lemma_unnumbered_drop(st);
        assert(b.frames.last() == (FrameView { line: 0, ..st.frames.last() }));
    }
    match stmt {
        None => {},
        Some(StatementView::If { key }) => {
            lemma_unnumbered_open(st, FrameKindView::CondPos { key }, p.line);
        },
        Some(StatementView::For { name, key }) => {
            lemma_unnumbered_open(st, FrameKindView::LoopInner { name, key }, p.line);
        },
        Some(StatementView::Else) => {
            if st.frames.len() > 0 {
                let top = st.frames.last();
                let around = ParserView { frames: st.frames.drop_last(), ..st };
                match top.kind {
                    FrameKindView::CondPos { key } => {
                        lemma_unnumbered_open(
                            around,
                            FrameKindView::CondNeg { key, pos: top.parts },
                            p.line,
                        );
                    },
                    _ => {},
                }
            }
        },
        Some(StatementView::End) => {
            if st.frames.len() > 0 {
                let top = st.frames.last();
                let around = ParserView { frames: st.frames.drop_last(), ..st };
                match top.kind {
                    FrameKindView::CondPos { key } => {
                        lemma_unnumbered_emit(
                            around,
                            PartView::Conditional { key, pos: top.parts, neg: Seq::empty() },
                        );
                    },
                    FrameKindView::CondNeg { key, pos } => {
                        lemma_unnumbered_emit(
                            around,
                            PartView::Conditional { key, pos, neg: top.parts },
                        );
                    },
                    FrameKindView::LoopInner { name, key } => {
                        lemma_unnumbered_emit(around, PartView::Loop { name, key, body: top.parts });
                    },
                    FrameKindView::Comment => {},
                }
            }
        },
    }
}

/// The scan of a line does the same with and without the numbers.
proof fn lemma_scan_alike(st: ParserView, line: Seq<char>, pos: int)
    requires
        0 <= pos,
    ensures
        alike(st.scan(line, pos), scan_text(unnumbered(st), line, pos)),
    decreases line.len() - pos,
{
    if pos < line.len() {
        match delim_at(line, pos) {
            Some(d) => {
                let col = byte_len(line.take(pos)) as usize;
                lemma_step_alike(st, d, col);
                match st.on_delim(d, col) {
                    Ok(next) => {
                        lemma_scan_alike(next, line, pos + 2);
                    },
                    Err(_) => {},
                }
            },
            None => {
                let next = ParserView { buf: st.buf.push(line[pos]), ..st };
                assert(unnumbered(next) == (ParserView {
                    buf: unnumbered(st).buf.push(line[pos]),
                    ..unnumbered(st)
                }));
                lemma_scan_alike(next, line, pos + 1);
            },
        }
    }
}

/// A line ends with the first line feed in it, or with the text.
proof fn lemma_line_end_is_first(s: Seq<char>, i: int)
    requires
        0 <= i < s.len(),
    ensures
        forall|k: int| i <= k < line_end(s, i) - 1 ==> s[k] != '\n',
        line_end(s, i) == s.len() || s[line_end(s, i) - 1] == '\n',
    decreases s.len() - i,
{
    lemma_line_end_bounds(s, i);
    if s[i] != '\n' {
        if i + 1 < s.len() {
            lemma_line_end_is_first(s, i + 1);
        } else {
            assert(line_end(s, i + 1) == i + 1);
        }
    }
}

/// The scan of a text from inside a line is the scan of the rest of the line
/// and then the scan of what follows the line.
proof fn lemma_scan_text_line(st: ParserView, s: Seq<char>, i: int, j: int, pos: int)
    requires
        0 <= i <= pos <= j <= s.len(),
        forall|k: int| i <= k < j - 1 ==> s[k] != '\n',
        j == s.len() || (i < j && s[j - 1] == '\n'),
    ensures
        scan_text(st, s, pos) == match scan_text(st, s.subrange(i, j), pos - i) {
            Ok(next) => scan_text(next, s, j),
            Err(e) => Err(e),
        },
    decreases j - pos,
{
    let line = s.subrange(i, j);
    if pos < j {
        if pos + 1 < j {
            assert(line[pos - i] == s[pos]);
            assert(line[pos - i + 1] == s[pos + 1]);
            assert(delim_at(line, pos - i) == delim_at(s, pos));
        } else {
            assert(delim_at(line, pos - i) is None);
            assert(delim_at(s, pos) is None);
        }
        match delim_at(s, pos) {
            Some(d) => {
                match st.on_delim(d, 0) {
                    Ok(next) => {
                        lemma_scan_text_line(next, s, i, j, pos + 2);
                    },
                    Err(_) => {},
                }
            },
            None => {
                let next = ParserView { buf: st.buf.push(s[pos]), ..st };
                lemma_scan_text_line(next, s, i, j, pos + 1);
            },
        }
    }
}

/// Reading a text line by line does the same as the scan of the text as a
/// whole.
proof fn lemma_feed_alike(st: ParserView, s: Seq<char>, i: int)
    requires
        0 <= i <= s.len(),
    ensures
        alike(feed_from(st, s, i), scan_text(unnumbered(st), s, i)),
    decreases s.len() - i,
{
    if i < s.len() {
        lemma_line_end_bounds(s, i);
        lemma_line_end_is_first(s, i);
        let j = line_end(s, i);
        let line = s.subrange(i, j);
        let st1 = ParserView { line: line_after(st.line), ..st };
        assert(unnumbered(st1) == unnumbered(st));
        lemma_scan_alike(st1, line, 0);
        lemma_scan_text_line(unnumbered(st), s, i, j, i);
        match st1.scan(line, 0) {
            Ok(next) => {
                lemma_feed_alike(next, s, j);
            },
            Err(_) => {},
        }
    }
}

/// The end of a parse gives the same template with and without the numbers.
proof fn lemma_finish_alike(st: ParserView)
    ensures
        st.finish() is Ok <==> unnumbered(st).finish() is Ok,
        st.finish() is Ok ==> st.finish()->Ok_0 == unnumbered(st).finish()->Ok_0,
{
}

/// A text is a template exactly where its scan as a whole ends with nothing
/// open, and then the template is what that scan has found.
pub proof fn lemma_parse_as_a_whole(source: Seq<char>)
    ensures
        parse_spec(source) is Ok <==> (scan_text(ParserView::initial(), source, 0) matches Ok(end)
            && end.finish() is Ok),
        parse_spec(source) is Ok ==> parse_spec(source) == scan_text(
            ParserView::initial(),
            source,
            0,
        )->Ok_0.finish(),
{
    let start = ParserView::initial();
    assert(unnumbered(start) == start) by {
        assert(unnumbered(start).frames =~= start.frames);
    }
    lemma_feed_alike(start, source, 0);
    if feed_from(start, source, 0) is Ok {
        lemma_finish_alike(feed_from(start, source, 0)->Ok_0);
    }
}

} // verus!
