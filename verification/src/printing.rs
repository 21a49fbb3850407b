//! How a template is written down, and that a template which is written down
//! and parsed again is the template it was.

use vstd::prelude::*;

use crate::error::ErrorView;
use crate::grammar::{
    argument_at, delim_at, delim_of, first_keyword, key_end, key_start, keyword_at, skip_spaces,
    statement_of, variable_of, word_at, Delim, Keyword, StatementView,
};
use crate::parser::{parse_spec, FrameKindView, FrameView, ParserView, Pending};
use crate::template::{PartView, VarOpt};
use crate::text::{is_key_char, is_space};
use crate::whole::{lemma_parse_as_a_whole, scan_text};

verus! {

/// How the option of a variable is written.
pub open spec fn option_suffix(opt: VarOpt) -> Seq<char> {
    match opt {
        VarOpt::DEF => Seq::empty(),
        VarOpt::RAW => seq![':', 'r'],
        VarOpt::HTML => seq![':', 'h', 't', 'm', 'l'],
        VarOpt::XML => seq![':', 'x', 'm', 'l'],
    }
}

/// How a variable token with the given body is written.
pub open spec fn variable_token(body: Seq<char>) -> Seq<char> {
    seq!['{', '{'] + body + seq!['}', '}']
}

/// How a statement token with the given body is written.
pub open spec fn statement_token(body: Seq<char>) -> Seq<char> {
    seq!['{', '%'] + body + seq!['%', '}']
}

/// The body of the statement that opens a conditional.
#[verifier::opaque]
pub open spec fn if_body(key: Seq<char>) -> Seq<char> {
    seq!['i', 'f', ' '] + key
}

/// The body of the statement that opens a loop.
#[verifier::opaque]
pub open spec fn for_body(name: Seq<char>, key: Seq<char>) -> Seq<char> {
    seq!['f', 'o', 'r', ' '] + name + seq![' ', 'i', 'n', ' '] + key
}

/// How a node is written. Literal text is written as it is; each other node
/// is written in the shortest way.
pub open spec fn print_part(p: PartView) -> Seq<char>
    decreases p, 0nat,
{
    match p {
        PartView::Literal { text } => text,
        PartView::VarRef { key, opt } => variable_token(key + option_suffix(opt)),
        PartView::Conditional { key, pos, neg } => statement_token(if_body(key))
            + print_parts(pos) + (if neg.len() > 0 {
            statement_token(seq!['e', 'l', 's', 'e']) + print_parts(neg)
        } else {
            Seq::empty()
        }) + statement_token(seq!['e', 'n', 'd']),
        PartView::Loop { name, key, body } => statement_token(
            for_body(name, key),
        ) + print_parts(body) + statement_token(seq!['e', 'n', 'd']),
    }
}

/// How a run of nodes is written: each node after the other.
pub open spec fn print_parts(parts: Seq<PartView>) -> Seq<char>
    decreases parts, 1nat,
{
    if parts.len() == 0 {
        Seq::empty()
    } else {
        print_parts(parts.drop_last()) + print_part(parts.last())
    }
}

/// Whether a text is a key: not empty, and made of key characters.
pub open spec fn is_key(s: Seq<char>) -> bool {
    s.len() > 0 && forall|i: int| 0 <= i < s.len() ==> is_key_char(#[trigger] s[i])
}

/// Whether a text can be written as literal text: it holds no delimiter, and
/// it does not end with a brace that would make one with the token after it.
pub open spec fn is_plain(t: Seq<char>) -> bool {
    (forall|k: int| delim_at(t, k) is None) && (t.len() > 0 ==> t.last() != '{')
}

/// Whether a node has the form that the parse of a source without comments
/// gives it.
pub open spec fn is_parsed_part(p: PartView) -> bool
    decreases p, 0nat,
{
    match p {
        PartView::Literal { text } => is_plain(text),
        PartView::VarRef { key, .. } => is_key(key),
        PartView::Conditional { key, pos, neg } => is_key(key) && is_parsed(pos) && (neg.len() == 0
            || is_parsed(neg)),
        PartView::Loop { name, key, body } => is_key(name) && is_key(key) && is_parsed(body),
    }
}

/// Whether a run of nodes has the form that the parse of a source without
/// comments gives it: literal text and other nodes take turns, and literal
/// text stands first and last.
pub open spec fn is_parsed(parts: Seq<PartView>) -> bool
    decreases parts, 1nat,
{
    parts.len() % 2 == 1 && forall|i: int|
        0 <= i < parts.len() ==> ((i % 2 == 0) == (#[trigger] parts[i] is Literal))
            && is_parsed_part(parts[i])
}

/// A run of key characters ends where the first other character stands.
proof fn lemma_key_run(s: Seq<char>, i: int, n: nat)
    requires
        0 <= i,
        i + n <= s.len(),
        forall|k: int| i <= k < i + n ==> is_key_char(#[trigger] s[k]),
        i + n == s.len() || !is_key_char(s[i + n]),
    ensures
        key_end(s, i) == i + n,
    decreases n,
{
    if n > 0 {
        lemma_key_run(s, i + 1, (n - 1) as nat);
    }
}

/// A variable is read as it is written.
proof fn lemma_variable_read(key: Seq<char>, opt: VarOpt)
    requires
        is_key(key),
    ensures
        variable_of(key + option_suffix(opt)) == Some((key, opt)),
{
    let body = key + option_suffix(opt);
    let n = key.len() as int;
    assert(is_key_char(body[0])) by {
        assert(body[0] == key[0]);
    }
    assert(key_start(body, 0) == 0);
    assert forall|k: int| 0 <= k < n implies is_key_char(#[trigger] body[k]) by {
        assert(body[k] == key[k]);
    }
    if opt != VarOpt::DEF {
        assert(body[n] == ':');
    }
    lemma_key_run(body, 0, key.len());
    assert(body.subrange(0, n) =~= key);
    match opt {
        VarOpt::DEF => {
            assert(skip_spaces(body, n) == n);
        },
        VarOpt::RAW => {
            assert(skip_spaces(body, n) == n);
            assert(body[n + 1] == 'r');
            assert(skip_spaces(body, n + 1) == n + 1);
            assert(body.subrange(n + 1, n + 2) =~= seq!['r']);
        },
        VarOpt::HTML => {
            assert(skip_spaces(body, n) == n);
            assert(body[n + 1] == 'h');
            assert(body[n + 2] == 't');
            assert(body[n + 3] == 'm');
            assert(body[n + 4] == 'l');
            assert(skip_spaces(body, n + 1) == n + 1);
            assert(body.subrange(n + 1, n + 2) =~= seq!['h']);
            assert(body.subrange(n + 1, n + 5) =~= seq!['h', 't', 'm', 'l']);
        },
        VarOpt::XML => {
            assert(skip_spaces(body, n) == n);
            assert(body[n + 1] == 'x');
            assert(body[n + 2] == 'm');
            assert(body[n + 3] == 'l');
            assert(skip_spaces(body, n + 1) == n + 1);
            assert(body.subrange(n + 1, n + 2) =~= seq!['x']);
            assert(body.subrange(n + 1, n + 4) =~= seq!['x', 'm', 'l']);
            if n + 5 <= body.len() {
                assert(body.subrange(n + 1, n + 5)[0] == 'x');
            }
        },
    }
}

/// A key that follows one blank is the argument there.
proof fn lemma_argument_read(s: Seq<char>, i: int, key: Seq<char>)
    requires
        0 <= i,
        is_key(key),
        word_at(s, i, seq![' '] + key),
        i + 1 + key.len() == s.len() || !is_key_char(s[i + 1 + key.len()]),
    ensures
        argument_at(s, i) == Some((i + 1, i + 1 + key.len())),
{
    let w = seq![' '] + key;
    assert(s[i] == ' ') by {
        assert(s.subrange(i, i + w.len())[0] == w[0]);
    }
    assert forall|k: int| i + 1 <= k < i + 1 + key.len() implies is_key_char(#[trigger] s[k]) by {
        assert(s.subrange(i, i + w.len())[k - i] == w[k - i]);
        assert(w[k - i] == key[k - i - 1]);
    }
    assert(is_space(' '));
    assert(!is_space(s[i + 1]));
    assert(skip_spaces(s, i + 1) == i + 1);
    assert(skip_spaces(s, i) == i + 1);
    lemma_key_run(s, i + 1, key.len());
}

/// The statement `if` is read as it is written.
proof fn lemma_if_read(key: Seq<char>)
    requires
        is_key(key),
    ensures
        statement_of(if_body(key)) == Some(StatementView::If { key }),
{
    reveal(if_body);
    let s = if_body(key);
    assert(s.subrange(0, 2) =~= seq!['i', 'f']);
    assert(keyword_at(s, 0) == Some(Keyword::If));
    assert(first_keyword(s, 0) == Some((Keyword::If, 2int)));
    assert(s.subrange(2, 3 + key.len() as int) =~= seq![' '] + key);
    lemma_argument_read(s, 2, key);
    assert(s.subrange(3, 3 + key.len() as int) =~= key);
}

/// The statements `else` and `end` are read as they are written.
proof fn lemma_else_end_read()
    ensures
        statement_of(seq!['e', 'l', 's', 'e']) == Some(StatementView::Else),
        statement_of(seq!['e', 'n', 'd']) == Some(StatementView::End),
{
    let a = seq!['e', 'l', 's', 'e'];
    assert(a.subrange(0, 4) =~= a);
    assert(a.subrange(0, 2)[0] == 'e');
    assert(keyword_at(a, 0) == Some(Keyword::Else));
    let b = seq!['e', 'n', 'd'];
    assert(b.subrange(0, 3) =~= b);
    assert(b.subrange(0, 2)[0] == 'e');
    assert(keyword_at(b, 0) == Some(Keyword::End));
}

/// The statement `for` is read as it is written.
proof fn lemma_for_read(name: Seq<char>, key: Seq<char>)
    requires
        is_key(name),
        is_key(key),
    ensures
        statement_of(for_body(name, key)) == Some(
            StatementView::For { name, key },
        ),
{
    reveal(for_body);
    let s = for_body(name, key);
    let n = name.len() as int;
    let m = key.len() as int;
    assert(s.len() == 8 + n + m);
    assert(s[0] == 'f' && s[1] == 'o' && s[2] == 'r' && s[3] == ' ');
    assert forall|k: int| 0 <= k < n implies s[4 + k] == name[k] by {}
    assert(s[4 + n] == ' ' && s[5 + n] == 'i' && s[6 + n] == 'n' && s[7 + n] == ' ');
    assert forall|k: int| 0 <= k < m implies s[8 + n + k] == key[k] by {}
    assert(s.subrange(0, 2)[0] == 'f');
    assert(s.subrange(0, 4)[0] == 'f');
    assert(s.subrange(0, 3) =~= seq!['f', 'o', 'r']);
    assert(keyword_at(s, 0) == Some(Keyword::For));
    assert(first_keyword(s, 0) == Some((Keyword::For, 3int)));
    assert(s.subrange(3, 4 + n) =~= seq![' '] + name);
    lemma_argument_read(s, 3, name);
    assert(s.subrange(4, 4 + n) =~= name);
    let b = 4 + n;
    assert(is_space(' '));
    assert(!is_space('i'));
    assert(skip_spaces(s, b + 1) == b + 1);
    assert(skip_spaces(s, b) == b + 1);
    assert(s.subrange(b + 1, b + 3) =~= seq!['i', 'n']);
    assert(s.subrange(b + 3, b + 4 + m) =~= seq![' '] + key);
    lemma_argument_read(s, b + 3, key);
    assert(s.subrange(b + 4, b + 4 + m) =~= key);
}

/// Whether a character begins no delimiter.
spec fn is_quiet(c: char) -> bool {
    c != '{' && c != '}' && c != '%' && c != '#'
}

/// A state with the given text in its buffer.
spec fn with_buf(st: ParserView, buf: Seq<char>) -> ParserView {
    ParserView { buf, ..st }
}

/// Text without delimiters goes to the buffer as it is.
proof fn lemma_text_read(st: ParserView, s: Seq<char>, pos: int, n: nat)
    requires
        0 <= pos,
        pos + n <= s.len(),
        forall|k: int| pos <= k < pos + n ==> delim_at(s, k) is None,
    ensures
        scan_text(st, s, pos) == scan_text(
            with_buf(st, st.buf + s.subrange(pos, pos + n)),
            s,
            pos + n,
        ),
    decreases n,
{
    if n > 0 {
        let next = with_buf(st, st.buf.push(s[pos]));
        lemma_text_read(next, s, pos + 1, (n - 1) as nat);
        assert(next.buf + s.subrange(pos + 1, pos + n) =~= st.buf + s.subrange(pos, pos + n));
    } else {
        assert(st.buf + s.subrange(pos, pos + n) =~= st.buf);
    }
}

/// The nodes of the innermost open construct.
spec fn top_parts(st: ParserView) -> Seq<PartView> {
    if st.frames.len() == 0 {
        st.root
    } else {
        st.frames.last().parts
    }
}

/// A state with the given nodes in its innermost open construct.
spec fn with_top_parts(st: ParserView, parts: Seq<PartView>) -> ParserView {
    if st.frames.len() == 0 {
        ParserView { root: parts, ..st }
    } else {
        ParserView {
            frames: st.frames.drop_last().push(FrameView { parts, ..st.frames.last() }),
            ..st
        }
    }
}

/// Adding a node adds it to the nodes of the innermost open construct.
proof fn lemma_emit_top(st: ParserView, p: PartView)
    ensures
        st.emit(p) == with_top_parts(st, top_parts(st).push(p)),
{
}

/// Of the nodes given to the innermost open construct the last ones stay.
proof fn lemma_with_top_twice(st: ParserView, a: Seq<PartView>, b: Seq<PartView>)
    ensures
        with_top_parts(with_top_parts(st, a), b) == with_top_parts(st, b),
        top_parts(with_top_parts(st, a)) == a,
{
    if st.frames.len() > 0 {
        let x = with_top_parts(st, a);
        assert(x.frames.drop_last() =~= st.frames.drop_last());
        assert(with_top_parts(x, b).frames =~= with_top_parts(st, b).frames);
    }
}

/// Whether a state is between two tokens and outside every comment.
spec fn is_ready(st: ParserView) -> bool {
    !st.in_comment() && st.pending is None
}

/// The state after a node has been read: the buffer has become a literal
/// node, the node has followed it, and the buffer is empty.
spec fn after_node(st: ParserView, node: PartView) -> ParserView {
    with_buf(
        with_top_parts(
            st,
            top_parts(st).push(PartView::Literal { text: st.buf }).push(node),
        ),
        Seq::empty(),
    )
}

/// The state after a run of nodes has been read into an empty construct with
/// an empty buffer, but for the literal text that the run ends with, which is
/// in the buffer.
spec fn after_parts(st: ParserView, parts: Seq<PartView>) -> ParserView {
    with_buf(with_top_parts(st, top_parts(st) + parts.drop_last()), parts.last()->text)
}

/// What follows the text at `pos + n` cannot make a delimiter with the
/// character before it, if that character is no opening brace: the text ends
/// there, or an opening brace stands there.
spec fn ends_well(s: Seq<char>, end: int) -> bool {
    end == s.len() || (0 <= end < s.len() && s[end] == '{')
}

/// Where a text stands, its two parts stand one after the other.
proof fn lemma_word_split(s: Seq<char>, pos: int, a: Seq<char>, b: Seq<char>)
    requires
        word_at(s, pos, a + b),
    ensures
        word_at(s, pos, a),
        word_at(s, pos + a.len(), b),
{
    let w = a + b;
    assert(s.subrange(pos, pos + a.len()) =~= a) by {
        assert forall|k: int| 0 <= k < a.len() implies s[pos + k] == a[k] by {
            assert(s.subrange(pos, pos + w.len())[k] == w[k]);
        }
    }
    assert(s.subrange(pos + a.len(), pos + a.len() + b.len()) =~= b) by {
        assert forall|k: int| 0 <= k < b.len() implies s[pos + a.len() + k] == b[k] by {
            assert(s.subrange(pos, pos + w.len())[a.len() + k] == w[a.len() + k]);
        }
    }
}

/// Where a text stands, its characters stand.
proof fn lemma_word_chars(s: Seq<char>, pos: int, w: Seq<char>)
    requires
        word_at(s, pos, w),
    ensures
        forall|k: int| 0 <= k < w.len() ==> s[pos + k] == #[trigger] w[k],
{
    assert forall|k: int| 0 <= k < w.len() implies s[pos + k] == #[trigger] w[k] by {
        assert(s.subrange(pos, pos + w.len())[k] == w[k]);
    }
}

/// The body of a token goes to the buffer as it is, if it is made of quiet
/// characters and the token is closed behind it.
proof fn lemma_body_read(st: ParserView, s: Seq<char>, pos: int, body: Seq<char>)
    requires
        word_at(s, pos, body),
        forall|k: int| 0 <= k < body.len() ==> is_quiet(#[trigger] body[k]),
    ensures
        scan_text(st, s, pos) == scan_text(with_buf(st, st.buf + body), s, pos + body.len()),
{
    lemma_word_chars(s, pos, body);
    assert forall|k: int| pos <= k < pos + body.len() implies delim_at(s, k) is None by {
        assert(s[k] == body[k - pos]);
        assert(is_quiet(body[k - pos]));
    }
    lemma_text_read(st, s, pos, body.len());
}

/// The state in a token with the given body, which was opened in the state
/// `st`: in a statement token if `stmt`, else in a variable token.
spec fn in_token(st: ParserView, stmt: bool, body: Seq<char>) -> ParserView {
    ParserView {
        pending: Some(Pending { stmt, line: st.line, col: 0 }),
        buf: body,
        ..st.flush()
    }
}

/// How a token with the given body is written.
spec fn token(stmt: bool, body: Seq<char>) -> Seq<char> {
    if stmt {
        statement_token(body)
    } else {
        variable_token(body)
    }
}

/// Writing out the buffer changes nothing about where the parser is.
proof fn lemma_flush_keeps_place(st: ParserView)
    ensures
        st.flush().frames.len() == st.frames.len(),
        st.flush().in_comment() == st.in_comment(),
        st.flush().pending == st.pending,
        st.flush().line == st.line,
        st.flush().buf == Seq::<char>::empty(),
{
}

/// The opening delimiter of a token writes out the buffer and opens the
/// token.
proof fn lemma_token_opens(st: ParserView, s: Seq<char>, pos: int, stmt: bool)
    requires
        is_ready(st),
        word_at(
            s,
            pos,
            if stmt {
                seq!['{', '%']
            } else {
                seq!['{', '{']
            },
        ),
    ensures
        scan_text(st, s, pos) == scan_text(in_token(st, stmt, Seq::empty()), s, pos + 2),
{
    let open = if stmt {
        seq!['{', '%']
    } else {
        seq!['{', '{']
    };
    lemma_word_chars(s, pos, open);
    assert(s[pos] == open[0]);
    assert(s[pos + 1] == open[1]);
    let d = if stmt {
        Delim::StmtOpen
    } else {
        Delim::VarOpen
    };
    assert(delim_at(s, pos) == Some(d));
    assert(st.on_delim(d, 0) == Ok::<ParserView, ErrorView>(in_token(st, stmt, Seq::empty())));
}

/// The closing delimiter of a token is found behind its body.
proof fn lemma_token_closes(st: ParserView, s: Seq<char>, pos: int, stmt: bool)
    requires
        word_at(
            s,
            pos,
            if stmt {
                seq!['%', '}']
            } else {
                seq!['}', '}']
            },
        ),
    ensures
        scan_text(st, s, pos) == match st.on_delim(
            if stmt {
                Delim::StmtClose
            } else {
                Delim::VarClose
            },
            0,
        ) {
            Ok(next) => scan_text(next, s, pos + 2),
            Err(e) => Err(e),
        },
{
    let close = if stmt {
        seq!['%', '}']
    } else {
        seq!['}', '}']
    };
    lemma_word_chars(s, pos, close);
    assert(s[pos] == close[0]);
    assert(s[pos + 1] == close[1]);
}

/// A token is read up to its end, and then its body is acted on.
proof fn lemma_token_read(st: ParserView, s: Seq<char>, pos: int, stmt: bool, body: Seq<char>)
    requires
        is_ready(st),
        word_at(s, pos, token(stmt, body)),
        forall|k: int| 0 <= k < body.len() ==> is_quiet(#[trigger] body[k]),
    ensures
        !in_token(st, stmt, body).in_comment(),
        scan_text(st, s, pos) == match in_token(st, stmt, body).on_delim(
            if stmt {
                Delim::StmtClose
            } else {
                Delim::VarClose
            },
            0,
        ) {
            Ok(next) => scan_text(next, s, pos + 4 + body.len()),
            Err(e) => Err(e),
        },
{
    let open = if stmt {
        seq!['{', '%']
    } else {
        seq!['{', '{']
    };
    let close = if stmt {
        seq!['%', '}']
    } else {
        seq!['}', '}']
    };
    assert(token(stmt, body) == (open + body) + close);
    lemma_word_split(s, pos, open + body, close);
    lemma_word_split(s, pos, open, body);
    lemma_token_opens(st, s, pos, stmt);
    let opened = in_token(st, stmt, Seq::empty());
    lemma_body_read(opened, s, pos + 2, body);
    assert(with_buf(opened, opened.buf + body) == in_token(st, stmt, body)) by {
        assert(opened.buf + body =~= body);
    }
    lemma_token_closes(in_token(st, stmt, body), s, pos + 2 + body.len(), stmt);
    lemma_flush_keeps_place(st);
}

/// A statement token is read up to its end, and then its body is acted on.
proof fn lemma_statement_token_read(st: ParserView, s: Seq<char>, pos: int, body: Seq<char>)
    requires
        is_ready(st),
        word_at(s, pos, statement_token(body)),
        forall|k: int| 0 <= k < body.len() ==> is_quiet(#[trigger] body[k]),
    ensures
        scan_text(st, s, pos) == match in_token(st, true, body).on_statement(
            Pending { stmt: true, line: st.line, col: 0 },
            statement_of(body),
        ) {
            Ok(next) => scan_text(next, s, pos + 4 + body.len()),
            Err(e) => Err(e),
        },
{
    lemma_token_read(st, s, pos, true, body);
}

/// A node that is added where the buffer has just been written out stands
/// behind the literal node that the buffer has become.
proof fn lemma_emit_after_flush(st: ParserView, x: ParserView, node: PartView)
    requires
        st.pending is None,
        x.root == st.flush().root,
        x.frames == st.flush().frames,
        x.line == st.line,
    ensures
        x.emit(node).clear() == after_node(st, node),
{
    let lit = top_parts(st).push(PartView::Literal { text: st.buf });
    lemma_emit_top(st, PartView::Literal { text: st.buf });
    lemma_emit_top(x, node);
    lemma_with_top_twice(st, lit, lit.push(node));
    let flushed = with_top_parts(st, lit);
    assert(top_parts(x) == lit);
    assert(x.emit(node).frames =~= with_top_parts(flushed, lit.push(node)).frames);
    assert(x.emit(node).root =~= with_top_parts(flushed, lit.push(node)).root);
}

/// The characters of a variable's body begin no delimiter.
proof fn lemma_quiet_variable(key: Seq<char>, opt: VarOpt)
    requires
        is_key(key),
    ensures
        forall|k: int|
            0 <= k < (key + option_suffix(opt)).len() ==> is_quiet(
                #[trigger] (key + option_suffix(opt))[k],
            ),
{
    let suffix = option_suffix(opt);
    lemma_quiet_key(key);
    assert forall|k: int| 0 <= k < suffix.len() implies is_quiet(#[trigger] suffix[k]) by {}
    lemma_quiet_concat(key, suffix);
}

/// A variable token is read as the variable that it stands for.
proof fn lemma_variable_token_read(
    st: ParserView,
    s: Seq<char>,
    pos: int,
    key: Seq<char>,
    opt: VarOpt,
)
    requires
        is_ready(st),
        is_key(key),
        word_at(s, pos, variable_token(key + option_suffix(opt))),
    ensures
        scan_text(st, s, pos) == scan_text(
            after_node(st, PartView::VarRef { key, opt }),
            s,
            pos + 4 + key.len() + option_suffix(opt).len(),
        ),
{
    let body = key + option_suffix(opt);
    let node = PartView::VarRef { key, opt };
    lemma_quiet_variable(key, opt);
    lemma_token_read(st, s, pos, false, body);
    lemma_variable_read(key, opt);
    let x = in_token(st, false, body);
    assert(x.on_delim(Delim::VarClose, 0) == Ok::<ParserView, ErrorView>(x.emit(node).clear()));
    lemma_emit_after_flush(st, x, node);
}

/// The state in a construct of the given kind that was opened in the state
/// `st`, before anything in the construct is read.
spec fn inside(st: ParserView, kind: FrameKindView) -> ParserView {
    ParserView { buf: Seq::empty(), pending: None, ..st.flush().open(kind, st.line) }
}

/// The node that a construct of the given kind becomes when it is closed
/// with the given nodes in it.
spec fn closed(kind: FrameKindView, parts: Seq<PartView>) -> PartView {
    match kind {
        FrameKindView::CondPos { key } => PartView::Conditional {
            key,
            pos: parts,
            neg: Seq::empty(),
        },
        FrameKindView::CondNeg { key, pos } => PartView::Conditional { key, pos, neg: parts },
        FrameKindView::LoopInner { name, key } => PartView::Loop { name, key, body: parts },
        FrameKindView::Comment => PartView::Literal { text: Seq::empty() },
    }
}

/// No character of a key begins a delimiter.
proof fn lemma_quiet_key(key: Seq<char>)
    requires
        is_key(key),
    ensures
        forall|k: int| 0 <= k < key.len() ==> is_quiet(#[trigger] key[k]),
{
    assert forall|k: int| 0 <= k < key.len() implies is_quiet(#[trigger] key[k]) by {
        assert(is_key_char(key[k]));
    }
}

/// Two quiet texts make a quiet text.
proof fn lemma_quiet_concat(a: Seq<char>, b: Seq<char>)
    requires
        forall|k: int| 0 <= k < a.len() ==> is_quiet(#[trigger] a[k]),
        forall|k: int| 0 <= k < b.len() ==> is_quiet(#[trigger] b[k]),
    ensures
        forall|k: int| 0 <= k < (a + b).len() ==> is_quiet(#[trigger] (a + b)[k]),
{
    assert forall|k: int| 0 <= k < (a + b).len() implies is_quiet(#[trigger] (a + b)[k]) by {
        if k < a.len() {
            assert((a + b)[k] == a[k]);
        } else {
            assert((a + b)[k] == b[k - a.len()]);
        }
    }
}

/// A statement token whose body is the given statement does to the state
/// what the statement does.
proof fn lemma_statement_acts(
    st: ParserView,
    s: Seq<char>,
    pos: int,
    body: Seq<char>,
    stmt: StatementView,
    next: ParserView,
)
    requires
        is_ready(st),
        word_at(s, pos, statement_token(body)),
        forall|k: int| 0 <= k < body.len() ==> is_quiet(#[trigger] body[k]),
        statement_of(body) == Some(stmt),
        in_token(st, true, body).on_statement(
            Pending { stmt: true, line: st.line, col: 0 },
            Some(stmt),
        ) == Ok::<ParserView, ErrorView>(next),
    ensures
        scan_text(st, s, pos) == scan_text(next, s, pos + 4 + body.len()),
{
    lemma_statement_token_read(st, s, pos, body);
}

/// The statement `if` opens the first branch of a conditional.
proof fn lemma_if_opens(st: ParserView, body: Seq<char>, key: Seq<char>)
    requires
        st.pending is None,
    ensures
        in_token(st, true, body).on_statement(
            Pending { stmt: true, line: st.line, col: 0 },
            Some(StatementView::If { key }),
        ) == Ok::<ParserView, ErrorView>(inside(st, FrameKindView::CondPos { key })),
{
}

/// The statement `for` opens the body of a loop.
proof fn lemma_for_opens(st: ParserView, body: Seq<char>, name: Seq<char>, key: Seq<char>)
    requires
        st.pending is None,
    ensures
        in_token(st, true, body).on_statement(
            Pending { stmt: true, line: st.line, col: 0 },
            Some(StatementView::For { name, key }),
        ) == Ok::<ParserView, ErrorView>(inside(st, FrameKindView::LoopInner { name, key })),
{
}

/// The characters of the body of an `if` begin no delimiter.
proof fn lemma_quiet_if(key: Seq<char>)
    requires
        is_key(key),
    ensures
        if_body(key).len() == 3 + key.len(),
        forall|k: int| 0 <= k < if_body(key).len() ==> is_quiet(#[trigger] if_body(key)[k]),
{
    reveal(if_body);
    let word = seq!['i', 'f', ' '];
    lemma_quiet_key(key);
    assert forall|k: int| 0 <= k < word.len() implies is_quiet(#[trigger] word[k]) by {}
    lemma_quiet_concat(word, key);
}

/// The token `if` opens the first branch of a conditional.
proof fn lemma_if_token_read(st: ParserView, s: Seq<char>, pos: int, key: Seq<char>)
    requires
        is_ready(st),
        is_key(key),
        word_at(s, pos, statement_token(if_body(key))),
    ensures
        scan_text(st, s, pos) == scan_text(
            inside(st, FrameKindView::CondPos { key }),
            s,
            pos + 7 + key.len(),
        ),
{
    let kind = FrameKindView::CondPos { key };
    lemma_quiet_if(key);
    lemma_if_read(key);
    lemma_if_opens(st, if_body(key), key);
    lemma_statement_acts(st, s, pos, if_body(key), StatementView::If { key }, inside(st, kind));
}

/// The characters of the body of a `for` begin no delimiter.
proof fn lemma_quiet_for(name: Seq<char>, key: Seq<char>)
    requires
        is_key(name),
        is_key(key),
    ensures
        for_body(name, key).len() == 8 + name.len() + key.len(),
        forall|k: int|
            0 <= k < (for_body(name, key)).len()
                ==> is_quiet(
                #[trigger] (for_body(name, key))[k],
            ),
{
    reveal(for_body);
    let word = seq!['f', 'o', 'r', ' '];
    let link = seq![' ', 'i', 'n', ' '];
    lemma_quiet_key(name);
    lemma_quiet_key(key);
    assert forall|k: int| 0 <= k < word.len() implies is_quiet(#[trigger] word[k]) by {}
    assert forall|k: int| 0 <= k < link.len() implies is_quiet(#[trigger] link[k]) by {}
    lemma_quiet_concat(word, name);
    lemma_quiet_concat(word + name, link);
    lemma_quiet_concat(word + name + link, key);
}

/// The token `for` opens the body of a loop.
proof fn lemma_for_token_read(
    st: ParserView,
    s: Seq<char>,
    pos: int,
    name: Seq<char>,
    key: Seq<char>,
)
    requires
        is_ready(st),
        is_key(name),
        is_key(key),
        word_at(s, pos, statement_token(for_body(name, key))),
    ensures
        scan_text(st, s, pos) == scan_text(
            inside(st, FrameKindView::LoopInner { name, key }),
            s,
            pos + 12 + name.len() + key.len(),
        ),
{
    let kind = FrameKindView::LoopInner { name, key };
    lemma_quiet_for(name, key);
    lemma_for_read(name, key);
    lemma_for_opens(st, for_body(name, key), name, key);
    lemma_statement_acts(
        st,
        s,
        pos,
        for_body(name, key),
        StatementView::For { name, key },
        inside(st, kind),
    );
}

/// The state that `after_parts` gives is ready, and its buffer written out
/// completes the nodes of the construct.
proof fn lemma_after_parts(st: ParserView, kind: FrameKindView, parts: Seq<PartView>)
    requires
        !(kind is Comment),
        parts.len() > 0,
        parts.last() is Literal,
    ensures
        is_ready(after_parts(inside(st, kind), parts)),
        after_parts(inside(st, kind), parts).flush().frames == st.flush().frames.push(
            FrameView { kind, line: st.line, parts },
        ),
        after_parts(inside(st, kind), parts).flush().root == st.flush().root,
        after_parts(inside(st, kind), parts).line == st.line,
{
    let start = inside(st, kind);
    let end = after_parts(start, parts);
    assert(top_parts(start) =~= Seq::<PartView>::empty());
    assert(top_parts(start) + parts.drop_last() =~= parts.drop_last());
    assert(parts.drop_last().push(PartView::Literal { text: parts.last()->text }) =~= parts);
    assert(start.frames.drop_last() =~= st.flush().frames);
    assert(end.frames.drop_last() =~= st.flush().frames);
    assert(end.flush().frames =~= st.flush().frames.push(
        FrameView { kind, line: st.line, parts },
    ));
}

/// The token `end` closes the innermost construct, which becomes a node of
/// the construct around it.
proof fn lemma_end_token_read(
    st: ParserView,
    kind: FrameKindView,
    parts: Seq<PartView>,
    s: Seq<char>,
    pos: int,
)
    requires
        is_ready(st),
        !(kind is Comment),
        parts.len() > 0,
        parts.last() is Literal,
        word_at(s, pos, statement_token(seq!['e', 'n', 'd'])),
    ensures
        scan_text(after_parts(inside(st, kind), parts), s, pos) == scan_text(
            after_node(st, closed(kind, parts)),
            s,
            pos + 7,
        ),
{
    let body = seq!['e', 'n', 'd'];
    let end = after_parts(inside(st, kind), parts);
    lemma_after_parts(st, kind, parts);
    lemma_statement_token_read(end, s, pos, body);
    lemma_else_end_read();
    let x = in_token(end, true, body);
    let p = Pending { stmt: true, line: end.line, col: 0 };
    let frame = FrameView { kind, line: st.line, parts };
    assert(x.frames == st.flush().frames.push(frame));
    assert(x.frames.last() == frame);
    assert(x.frames.drop_last() =~= st.flush().frames);
    let around = ParserView { frames: x.frames.drop_last(), ..x };
    let node = closed(kind, parts);
    assert(x.on_statement(p, Some(StatementView::End)) == Ok::<ParserView, ErrorView>(
        around.emit(node).clear(),
    ));
    lemma_emit_after_flush(st, around, node);
}

/// The token `else` ends the first branch of a conditional and opens the
/// second.
proof fn lemma_else_token_read(
    st: ParserView,
    key: Seq<char>,
    parts: Seq<PartView>,
    s: Seq<char>,
    pos: int,
)
    requires
        is_ready(st),
        parts.len() > 0,
        parts.last() is Literal,
        word_at(s, pos, statement_token(seq!['e', 'l', 's', 'e'])),
    ensures
        scan_text(after_parts(inside(st, FrameKindView::CondPos { key }), parts), s, pos)
            == scan_text(inside(st, FrameKindView::CondNeg { key, pos: parts }), s, pos + 8),
{
    let body = seq!['e', 'l', 's', 'e'];
    let kind = FrameKindView::CondPos { key };
    let end = after_parts(inside(st, kind), parts);
    lemma_after_parts(st, kind, parts);
    lemma_statement_token_read(end, s, pos, body);
    lemma_else_end_read();
    let x = in_token(end, true, body);
    let p = Pending { stmt: true, line: end.line, col: 0 };
    let frame = FrameView { kind, line: st.line, parts };
    assert(x.frames == st.flush().frames.push(frame));
    assert(x.frames.last() == frame);
    assert(x.frames.drop_last() =~= st.flush().frames);
    let around = ParserView { frames: x.frames.drop_last(), ..x };
    let next = around.open(FrameKindView::CondNeg { key, pos: parts }, p.line).clear();
    assert(x.on_statement(p, Some(StatementView::Else)) == Ok::<ParserView, ErrorView>(next));
    assert(next == inside(st, FrameKindView::CondNeg { key, pos: parts })) by {
        assert(next.frames =~= inside(st, FrameKindView::CondNeg { key, pos: parts }).frames);
    }
}

/// Every node but literal text is written with an opening brace first.
proof fn lemma_print_begins(node: PartView)
    requires
        !(node is Literal),
    ensures
        print_part(node).len() >= 4,
        print_part(node)[0] == '{',
{
    match node {
        PartView::Literal { .. } => {},
        PartView::VarRef { key, opt } => {
            let body = key + option_suffix(opt);
            assert(variable_token(body)[0] == '{');
        },
        PartView::Conditional { key, pos, neg } => {
            let body = if_body(key);
            assert(statement_token(body)[0] == '{');
            assert(print_part(node)[0] == statement_token(body)[0]);
        },
        PartView::Loop { name, key, body } => {
            let b = for_body(name, key);
            assert(statement_token(b)[0] == '{');
            assert(print_part(node)[0] == statement_token(b)[0]);
        },
    }
}

/// A conditional without `else` that is written down is read as the
/// conditional it was.
proof fn lemma_if_read_back(
    st: ParserView,
    s: Seq<char>,
    pos: int,
    node: PartView,
    key: Seq<char>,
    first: Seq<PartView>,
)
    requires
        node == (PartView::Conditional { key, pos: first, neg: Seq::empty() }),
        is_ready(st),
        is_key(key),
        is_parsed(first),
        word_at(s, pos, print_part(node)),
    ensures
        scan_text(st, s, pos) == scan_text(after_node(st, node), s, pos + print_part(node).len()),
    decreases node, 0nat,
{
    let end_token = statement_token(seq!['e', 'n', 'd']);
    let if_token = statement_token(if_body(key));
    let kind = FrameKindView::CondPos { key };
    let p1 = pos + if_token.len();
    let p2 = p1 + print_parts(first).len();
    assert(print_part(node) =~= (if_token + print_parts(first)) + end_token);
    lemma_word_split(s, pos, if_token + print_parts(first), end_token);
    lemma_word_split(s, pos, if_token, print_parts(first));
    lemma_quiet_if(key);
    lemma_if_token_read(st, s, pos, key);
    assert(s[p2] == '{') by {
        lemma_word_chars(s, p2, end_token);
        assert(end_token[0] == '{');
    }
    assert(first[first.len() - 1] is Literal);
    lemma_parts_read(inside(st, kind), s, p1, first);
    lemma_end_token_read(st, kind, first, s, p2);
}

/// A conditional with `else` that is written down is read as the conditional
/// it was.
proof fn lemma_if_else_read_back(
    st: ParserView,
    s: Seq<char>,
    pos: int,
    node: PartView,
    key: Seq<char>,
    first: Seq<PartView>,
    second: Seq<PartView>,
)
    requires
        node == (PartView::Conditional { key, pos: first, neg: second }),
        is_ready(st),
        is_key(key),
        is_parsed(first),
        is_parsed(second),
        word_at(s, pos, print_part(node)),
    ensures
        scan_text(st, s, pos) == scan_text(after_node(st, node), s, pos + print_part(node).len()),
    decreases node, 0nat,
{
    let end_token = statement_token(seq!['e', 'n', 'd']);
    let else_token = statement_token(seq!['e', 'l', 's', 'e']);
    let if_token = statement_token(if_body(key));
    let kind = FrameKindView::CondPos { key };
    let kind2 = FrameKindView::CondNeg { key, pos: first };
    let p1 = pos + if_token.len();
    let p2 = p1 + print_parts(first).len();
    let p3 = p2 + 8;
    let p4 = p3 + print_parts(second).len();
    let middle = else_token + print_parts(second);
    assert(print_part(node) == ((if_token + print_parts(first)) + middle) + end_token);
    lemma_word_split(s, pos, (if_token + print_parts(first)) + middle, end_token);
    lemma_word_split(s, pos, if_token + print_parts(first), middle);
    lemma_word_split(s, pos, if_token, print_parts(first));
    lemma_word_split(s, p2, else_token, print_parts(second));
    lemma_quiet_if(key);
    lemma_if_token_read(st, s, pos, key);
    assert(s[p2] == '{') by {
        lemma_word_chars(s, p2, else_token);
        assert(else_token[0] == '{');
    }
    assert(first[first.len() - 1] is Literal);
    lemma_parts_read(inside(st, kind), s, p1, first);
    lemma_else_token_read(st, key, first, s, p2);
    assert(s[p4] == '{') by {
        lemma_word_chars(s, p4, end_token);
        assert(end_token[0] == '{');
    }
    assert(second[second.len() - 1] is Literal);
    lemma_parts_read(inside(st, kind2), s, p3, second);
    lemma_end_token_read(st, kind2, second, s, p4);
}

/// A loop that is written down is read as the loop it was.
proof fn lemma_for_read_back(
    st: ParserView,
    s: Seq<char>,
    pos: int,
    node: PartView,
    name: Seq<char>,
    key: Seq<char>,
    body: Seq<PartView>,
)
    requires
        node == (PartView::Loop { name, key, body }),
        is_ready(st),
        is_key(name),
        is_key(key),
        is_parsed(body),
        word_at(s, pos, print_part(node)),
    ensures
        scan_text(st, s, pos) == scan_text(after_node(st, node), s, pos + print_part(node).len()),
    decreases node, 0nat,
{
    let end_token = statement_token(seq!['e', 'n', 'd']);
    let for_token = statement_token(
        for_body(name, key),
    );
    let kind = FrameKindView::LoopInner { name, key };
    let p1 = pos + for_token.len();
    let p2 = p1 + print_parts(body).len();
    assert(print_part(node) == (for_token + print_parts(body)) + end_token);
    lemma_word_split(s, pos, for_token + print_parts(body), end_token);
    lemma_word_split(s, pos, for_token, print_parts(body));
    lemma_quiet_for(name, key);
    lemma_for_token_read(st, s, pos, name, key);
    assert(s[p2] == '{') by {
        lemma_word_chars(s, p2, end_token);
        assert(end_token[0] == '{');
    }
    assert(body[body.len() - 1] is Literal);
    lemma_parts_read(inside(st, kind), s, p1, body);
    lemma_end_token_read(st, kind, body, s, p2);
}

/// A node that is written down is read as the node it was.
proof fn lemma_node_read(st: ParserView, s: Seq<char>, pos: int, node: PartView)
    requires
        is_ready(st),
        is_parsed_part(node),
        !(node is Literal),
        word_at(s, pos, print_part(node)),
    ensures
        scan_text(st, s, pos) == scan_text(after_node(st, node), s, pos + print_part(node).len()),
    decreases node, 1nat,
{
    match node {
        PartView::Literal { .. } => {},
        PartView::VarRef { key, opt } => {
            lemma_variable_token_read(st, s, pos, key, opt);
        },
        PartView::Conditional { key, pos: first, neg } => {
            if neg.len() > 0 {
                lemma_if_else_read_back(st, s, pos, node, key, first, neg);
            } else {
                assert(neg =~= Seq::<PartView>::empty());
                lemma_if_read_back(st, s, pos, node, key, first);
            }
        },
        PartView::Loop { name, key, body } => {
            lemma_for_read_back(st, s, pos, node, name, key, body);
        },
    }
}

/// A run of nodes that is written down is read as the run it was.
proof fn lemma_parts_read(st: ParserView, s: Seq<char>, pos: int, parts: Seq<PartView>)
    requires
        is_ready(st),
        st.buf == Seq::<char>::empty(),
        is_parsed(parts),
        word_at(s, pos, print_parts(parts)),
        ends_well(s, pos + print_parts(parts).len()),
    ensures
        scan_text(st, s, pos) == scan_text(
            after_parts(st, parts),
            s,
            pos + print_parts(parts).len(),
        ),
    decreases parts, 2nat,
{
    let n = parts.len() as int;
    let last = parts.last();
    let text = last->text;
    assert(parts[n - 1] is Literal);
    assert(is_parsed_part(parts[n - 1]));
    assert(print_part(last) == text);
    if n == 1 {
        assert(parts.drop_last() =~= Seq::<PartView>::empty());
        assert(print_parts(parts.drop_last()) =~= Seq::<char>::empty());
        assert(print_parts(parts) =~= text);
        lemma_plain_read(st, s, pos, text);
        assert(after_parts(st, parts) == with_buf(st, st.buf + text)) by {
            assert(st.buf + text =~= text);
            assert(top_parts(st) + parts.drop_last() =~= top_parts(st));
            if st.frames.len() > 0 {
                assert(with_top_parts(st, top_parts(st)).frames =~= st.frames);
            }
        }
    } else {
        let init = parts.take(n - 2);
        let node = parts[n - 2];
        assert(!(node is Literal));
        assert(is_parsed_part(node));
        assert(is_parsed(init)) by {
            assert forall|i: int| 0 <= i < init.len() implies ((i % 2 == 0) == (
            #[trigger] init[i] is Literal)) && is_parsed_part(init[i]) by {
                assert(init[i] == parts[i]);
            }
        }
        assert(parts.drop_last().drop_last() =~= init);
        assert(parts.drop_last().last() == node);
        assert(print_parts(parts.drop_last()) == print_parts(parts.drop_last().drop_last())
            + print_part(parts.drop_last().last()));
        assert(print_parts(parts) == print_parts(parts.drop_last()) + print_part(last));
        assert(print_parts(parts) == (print_parts(init) + print_part(node)) + text);
        lemma_word_split(s, pos, print_parts(init) + print_part(node), text);
        lemma_word_split(s, pos, print_parts(init), print_part(node));
        let p1 = pos + print_parts(init).len();
        let p2 = p1 + print_part(node).len();
        lemma_print_begins(node);
        lemma_word_chars(s, p1, print_part(node));
        assert(s[p1] == '{');
        lemma_parts_read(st, s, pos, init);
        let s1 = after_parts(st, init);
        assert(is_ready(s1)) by {
            if st.frames.len() > 0 {
                assert(s1.frames.last().kind == st.frames.last().kind);
            }
        }
        lemma_node_read(s1, s, p1, node);
        let s2 = after_node(s1, node);
        lemma_plain_read(s2, s, p2, text);
        assert(with_buf(s2, s2.buf + text) == after_parts(st, parts)) by {
            assert(s2.buf + text =~= text);
            assert(init.last() is Literal) by {
                assert(init[init.len() - 1] == parts[n - 3]);
            }
            lemma_with_top_twice(
                st,
                top_parts(st) + init.drop_last(),
                top_parts(st) + parts.drop_last(),
            );
            assert((top_parts(st) + init.drop_last()).push(
                PartView::Literal { text: init.last()->text },
            ).push(node) =~= top_parts(st) + parts.drop_last());
        }
    }
}

/// Literal text that is written down is read as it is, if what follows it
/// makes no delimiter with its end.
proof fn lemma_plain_read(st: ParserView, s: Seq<char>, pos: int, text: Seq<char>)
    requires
        is_plain(text),
        word_at(s, pos, text),
        ends_well(s, pos + text.len()),
    ensures
        scan_text(st, s, pos) == scan_text(with_buf(st, st.buf + text), s, pos + text.len()),
{
    lemma_word_chars(s, pos, text);
    assert forall|k: int| pos <= k < pos + text.len() implies delim_at(s, k) is None by {
        assert(s[k] == text[k - pos]);
        if k + 1 < pos + text.len() {
            assert(s[k + 1] == text[k + 1 - pos]);
            assert(delim_at(text, k - pos) is None);
        } else if k + 1 < s.len() {
            assert(s[k + 1] == '{');
            assert(text.last() != '{');
            assert(delim_of(s[k], s[k + 1]) is None);
        }
    }
    lemma_text_read(st, s, pos, text.len());
}

/// A template that is written down and parsed again is the template it was.
/// This holds of every template in the form that the parse of a source
/// without comments gives it: its keys are keys, its literal text holds no
/// delimiter, and in each of its blocks literal text and other nodes take
/// turns; and in which no literal text ends with an opening brace.
pub proof fn lemma_parse_print(parts: Seq<PartView>)
    requires
        is_parsed(parts),
    ensures
        parse_spec(print_parts(parts)) == Ok::<Seq<PartView>, ErrorView>(parts),
{
    let source = print_parts(parts);
    let start = ParserView::initial();
    assert(source.subrange(0, source.len() as int) =~= source);
    lemma_parts_read(start, source, 0, parts);
    let end = after_parts(start, parts);
    assert(scan_text(end, source, source.len() as int) == Ok::<ParserView, ErrorView>(end));
    assert(end.finish() == Ok::<Seq<PartView>, ErrorView>(parts)) by {
        assert(parts[parts.len() - 1] is Literal);
        assert(top_parts(start) + parts.drop_last() =~= parts.drop_last());
        assert(parts.drop_last().push(PartView::Literal { text: parts.last()->text })
            =~= parts);
    }
    lemma_parse_as_a_whole(source);
}

} // verus!
