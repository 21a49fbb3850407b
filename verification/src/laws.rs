//! What holds of every template and every context.

use vstd::prelude::*;

use crate::context::{entity, escaped, placeholder, ContextView};
use crate::error::{error_text, ErrorView, END_OF_TEXT};
use crate::grammar::{delim_at, Delim};
use crate::parser::{
    feed_from, lemma_line_end_bounds, line_after, line_end, parse_spec, FrameKindView, ParserView,
};
use crate::render::{render_each, render_part, render_parts};
use crate::template::{PartView, VarOpt};
use crate::text::{decimal, is_key_char};
use crate::value::Value;
use crate::whole::scan_text;

verus! {

/// A line without delimiters goes to the buffer as it is.
proof fn lemma_scan_plain(st: ParserView, line: Seq<char>, pos: int)
    requires
        0 <= pos <= line.len(),
        forall|i: int| pos <= i < line.len() ==> delim_at(line, i) is None,
    ensures
        st.scan(line, pos) == Ok::<ParserView, ErrorView>(
            ParserView { buf: st.buf + line.skip(pos), ..st },
        ),
    decreases line.len() - pos,
{
    if pos < line.len() {
        let next = ParserView { buf: st.buf.push(line[pos]), ..st };
        lemma_scan_plain(next, line, pos + 1);
        assert(next.buf + line.skip(pos + 1) =~= st.buf + line.skip(pos));
    } else {
        assert(st.buf + line.skip(pos) =~= st.buf);
    }
}

/// A source without delimiters goes to the buffer as it is, line by line.
proof fn lemma_feed_plain(st: ParserView, source: Seq<char>, i: int)
    requires
        0 <= i <= source.len(),
        forall|k: int| delim_at(source, k) is None,
    ensures
        feed_from(st, source, i) matches Ok(end) && end.buf == st.buf + source.skip(i) && end.root
            == st.root && end.frames == st.frames && end.pending == st.pending,
    decreases source.len() - i,
{
    if i < source.len() {
        lemma_line_end_bounds(source, i);
        let j = line_end(source, i);
        let line = source.subrange(i, j);
        assert forall|p: int| 0 <= p < line.len() implies delim_at(line, p) is None by {
            if p + 1 < line.len() {
                assert(delim_at(source, i + p) is None);
                assert(line[p] == source[i + p]);
                assert(line[p + 1] == source[i + p + 1]);
            }
        }
        let st1 = ParserView { line: line_after(st.line), ..st };
        lemma_scan_plain(st1, line, 0);
        let st2 = ParserView { buf: st1.buf + line.skip(0), ..st1 };
        assert(st.feed(line) == Ok::<ParserView, ErrorView>(st2));
        lemma_feed_plain(st2, source, j);
        assert(st2.buf + source.skip(j) =~= st.buf + source.skip(i)) by {
            assert(line.skip(0) =~= line);
            assert(source.skip(i) =~= line + source.skip(j));
        }
    } else {
        assert(st.buf + source.skip(i) =~= st.buf);
    }
}

/// A source that holds none of the six delimiters is a template, and the
/// template renders as the source, whatever the context holds.
pub proof fn lemma_literal_identity(source: Seq<char>, ctx: ContextView)
    requires
        forall|i: int| delim_at(source, i) is None,
    ensures
        parse_spec(source) matches Ok(template) && render_parts(template, ctx) == source,
{
    lemma_feed_plain(ParserView::initial(), source, 0);
    let end = feed_from(ParserView::initial(), source, 0)->Ok_0;
    assert(end.buf =~= source) by {
        assert(source.skip(0) =~= source);
    }
    let template = seq![PartView::Literal { text: source }];
    assert(end.finish() == Ok::<Seq<PartView>, ErrorView>(template)) by {
        assert(end.root.push(PartView::Literal { text: end.buf }) =~= template);
    }
    assert(render_parts(template, ctx) =~= source) by {
        assert(template.drop_last() =~= Seq::<PartView>::empty());
        assert(render_parts(template.drop_last(), ctx) =~= Seq::<char>::empty());
        assert(render_part(template.last(), ctx) == source);
    }
}

/// Whether a character is one of the six that escaping replaces.
pub open spec fn is_reserved(c: char) -> bool {
    c == '&' || c == '<' || c == '>' || c == '"' || c == '\'' || c == ' '
}

/// Escaping leaves a text without reserved characters as it is.
pub proof fn lemma_escaped_plain(text: Seq<char>)
    requires
        forall|i: int| 0 <= i < text.len() ==> !is_reserved(#[trigger] text[i]),
    ensures
        escaped(text) == text,
    decreases text.len(),
{
    if text.len() > 0 {
        lemma_escaped_plain(text.drop_last());
        assert(entity(text.last()) == seq![text.last()]);
        assert(escaped(text) =~= text);
    }
}

/// A variable whose key resolves to nothing is written as the placeholder
/// `???key???`, question marks and all, under every option; and as nothing
/// where the context asks for blanks.
pub proof fn lemma_missing_variable(ctx: ContextView, key: Seq<char>, opt: VarOpt)
    requires
        ctx.resolve(key) is None,
        forall|i: int| 0 <= i < key.len() ==> is_key_char(#[trigger] key[i]),
    ensures
        render_part(PartView::VarRef { key, opt }, ctx) == if ctx.blank {
            Seq::<char>::empty()
        } else {
            placeholder(key)
        },
{
    reveal_strlit("???");
    let shown = ctx.string(key);
    assert forall|i: int| 0 <= i < shown.len() implies !is_reserved(#[trigger] shown[i]) by {
        if !ctx.blank {
            if i < 3 {
                assert(shown[i] == '?');
            } else if i < 3 + key.len() {
                assert(shown[i] == key[i - 3]);
            } else {
                assert(shown[i] == '?');
            }
        }
    }
    lemma_escaped_plain(shown);
}

/// A conditional without `else` writes nothing where its key resolves to
/// nothing, and its one branch where the key is bound to `true`.
pub proof fn lemma_if_without_else(ctx: ContextView, key: Seq<char>, pos: Seq<PartView>)
    ensures
        ctx.resolve(key) is None ==> render_part(
            PartView::Conditional { key, pos, neg: Seq::empty() },
            ctx,
        ) == Seq::<char>::empty(),
        ctx.resolve(key) == Some(Value::Bool { b: true }) ==> render_part(
            PartView::Conditional { key, pos, neg: Seq::empty() },
            ctx,
        ) == render_parts(pos, ctx),
{
    assert(render_parts(Seq::<PartView>::empty(), ctx) =~= Seq::<char>::empty());
}

/// A loop over a key that resolves to nothing, or to something that is no
/// sequence, writes nothing.
pub proof fn lemma_loop_over_nothing(
    ctx: ContextView,
    name: Seq<char>,
    key: Seq<char>,
    body: Seq<PartView>,
)
    requires
        !(ctx.resolve(key) matches Some(Value::List { .. })),
    ensures
        render_part(PartView::Loop { name, key, body }, ctx) == Seq::<char>::empty(),
{
}

/// What a loop writes for a run of items is what it writes for the first of
/// them and then what it writes for the rest.
pub proof fn lemma_render_each_concat(
    name: Seq<char>,
    head: Seq<Value>,
    tail: Seq<Value>,
    body: Seq<PartView>,
    ctx: ContextView,
)
    ensures
        render_each(name, head + tail, body, ctx) == render_each(name, head, body, ctx)
            + render_each(name, tail, body, ctx),
    decreases tail.len(),
{
    if tail.len() == 0 {
        assert(head + tail =~= head);
        assert(render_each(name, head, body, ctx) + Seq::<char>::empty() =~= render_each(
            name,
            head,
            body,
            ctx,
        ));
    } else {
        assert((head + tail).drop_last() =~= head + tail.drop_last());
        assert((head + tail).last() == tail.last());
        lemma_render_each_concat(name, head, tail.drop_last(), body, ctx);
        assert(render_each(name, head + tail, body, ctx) =~= render_each(name, head, body, ctx)
            + render_each(name, tail, body, ctx));
    }
}

/// A loop writes its body once for each item, the first item first, and while
/// it does so the loop's name is bound to that item.
pub proof fn lemma_loop_in_order(
    ctx: ContextView,
    name: Seq<char>,
    key: Seq<char>,
    body: Seq<PartView>,
    first: Value,
    second: Value,
)
    requires
        ctx.resolve(key) == Some(Value::List { items: seq![first, second] }),
    ensures
        render_part(PartView::Loop { name, key, body }, ctx) == render_parts(
            body,
            ctx.push(name, first),
        ) + render_parts(body, ctx.push(name, second)),
{
    let items = seq![first, second];
    assert(items.drop_last() =~= seq![first]);
    assert(seq![first].drop_last() =~= Seq::<Value>::empty());
    assert(render_each(name, Seq::<Value>::empty(), body, ctx) =~= Seq::<char>::empty());
    assert(render_each(name, seq![first], body, ctx) =~= render_parts(
        body,
        ctx.push(name, first),
    ));
    assert(render_each(name, items, body, ctx) =~= render_parts(body, ctx.push(name, first))
        + render_parts(body, ctx.push(name, second)));
}

/// A closing delimiter that closes nothing is an error at the place where
/// it stands: where no token is open and the parser is not in a comment,
/// `}}` at column `col` of line `st.line` reads
/// ``Parse error at Line:<line> Col:<col>. `}}` ``, and `%}` and `#}` read
/// alike.
pub proof fn lemma_unexpected_close(st: ParserView, d: Delim, col: usize)
    requires
        !st.in_comment(),
        st.pending is None,
        st.line != END_OF_TEXT,
        d == Delim::VarClose || d == Delim::StmtClose || d == Delim::CommentClose,
    ensures
        st.on_delim(d, col) matches Err(e) && error_text(e) == "Parse error at Line:"@ + decimal(
            st.line as nat,
        ) + " Col:"@ + decimal(col as nat) + match d {
            Delim::VarClose => ". `}}`"@,
            Delim::StmtClose => ". `%}`"@,
            _ => ". `#}`"@,
        },
{
    reveal_strlit(". ");
    reveal_strlit("`");
    reveal_strlit("}}");
    reveal_strlit("%}");
    reveal_strlit("#}");
    reveal_strlit(". `}}`");
    reveal_strlit(". `%}`");
    reveal_strlit(". `#}`");
    let e = st.on_delim(d, col)->Err_0;
    let head = "Parse error at Line:"@ + decimal(st.line as nat) + " Col:"@ + decimal(col as nat);
    let tail = match d {
        Delim::VarClose => ". `}}`"@,
        Delim::StmtClose => ". `%}`"@,
        _ => ". `#}`"@,
    };
    assert(". "@ + e->Parse_msg =~= tail);
    assert(error_text(e) =~= head + (". "@ + e->Parse_msg));
}

/// A conditional that is still open at the end of the source is an error:
/// where the source has been read without error, no token is open and the
/// innermost open construct is a branch of a conditional that began on line
/// `L`, parsing fails, and the failure reads
/// ``Parse error at end of text. Missing `{% end %}` /From Line:<L> `{% if` ``.
pub proof fn lemma_unterminated_if(source: Seq<char>, st: ParserView)
    requires
        feed_from(ParserView::initial(), source, 0) == Ok::<ParserView, ErrorView>(st),
        st.pending is None,
        st.frames.len() > 0,
        st.frames.last().kind is CondPos || st.frames.last().kind is CondNeg,
    ensures
        parse_spec(source) matches Err(e) && error_text(e)
            == "Parse error at end of text. Missing `{% end %}` /From Line:"@ + decimal(
            st.frames.last().line as nat,
        ) + " `{% if`"@,
{
    reveal_strlit("Parse error at end of text. ");
    reveal_strlit("Missing `");
    reveal_strlit("{% end %}");
    reveal_strlit("` /From Line:");
    reveal_strlit(" `");
    reveal_strlit("{% if");
    reveal_strlit("`");
    reveal_strlit("Parse error at end of text. Missing `{% end %}` /From Line:");
    reveal_strlit(" `{% if`");
    let e = st.finish()->Err_0;
    let number = decimal(st.frames.last().line as nat);
    assert("Parse error at end of text. "@ + ("Missing `"@ + "{% end %}"@ + "` /From Line:"@)
        =~= "Parse error at end of text. Missing `{% end %}` /From Line:"@);
    assert(" `"@ + "{% if"@ + "`"@ =~= " `{% if`"@);
    assert(error_text(e) =~= "Parse error at end of text. "@ + ("Missing `"@ + "{% end %}"@
        + "` /From Line:"@) + number + (" `"@ + "{% if"@ + "`"@));
}

/// Of two nested loops the outer one is the slower: where the outer loop runs
/// over `y1`, `y2` and the inner one, whatever the outer loop has bound, over
/// `x1`, `x2`, the body is written for `(y1, x1)`, `(y1, x2)`, `(y2, x1)`,
/// `(y2, x2)`, in this order.
pub proof fn lemma_nested_loops_in_order(
    ctx: ContextView,
    outer: (Seq<char>, Seq<char>),
    inner: (Seq<char>, Seq<char>),
    body: Seq<PartView>,
    ys: (Value, Value),
    xs: (Value, Value),
)
    requires
        ctx.resolve(outer.1) == Some(Value::List { items: seq![ys.0, ys.1] }),
        ctx.push(outer.0, ys.0).resolve(inner.1) == Some(Value::List { items: seq![xs.0, xs.1] }),
        ctx.push(outer.0, ys.1).resolve(inner.1) == Some(Value::List { items: seq![xs.0, xs.1] }),
    ensures
        render_part(
            PartView::Loop {
                name: outer.0,
                key: outer.1,
                body: seq![PartView::Loop { name: inner.0, key: inner.1, body }],
            },
            ctx,
        ) == render_parts(body, ctx.push(outer.0, ys.0).push(inner.0, xs.0)) + render_parts(
            body,
            ctx.push(outer.0, ys.0).push(inner.0, xs.1),
        ) + render_parts(body, ctx.push(outer.0, ys.1).push(inner.0, xs.0)) + render_parts(
            body,
            ctx.push(outer.0, ys.1).push(inner.0, xs.1),
        ),
{
    let nested = PartView::Loop { name: inner.0, key: inner.1, body };
    let first = ctx.push(outer.0, ys.0);
    let second = ctx.push(outer.0, ys.1);
    lemma_loop_in_order(ctx, outer.0, outer.1, seq![nested], ys.0, ys.1);
    lemma_loop_in_order(first, inner.0, inner.1, body, xs.0, xs.1);
    lemma_loop_in_order(second, inner.0, inner.1, body, xs.0, xs.1);
    assert(seq![nested].drop_last() =~= Seq::<PartView>::empty());
    assert(render_parts(Seq::<PartView>::empty(), first) =~= Seq::<char>::empty());
    assert(render_parts(Seq::<PartView>::empty(), second) =~= Seq::<char>::empty());
    assert(render_parts(seq![nested], first) =~= render_part(nested, first));
    assert(render_parts(seq![nested], second) =~= render_part(nested, second));
    assert(render_part(nested, first) + render_part(nested, second) =~= render_parts(
        body,
        first.push(inner.0, xs.0),
    ) + render_parts(body, first.push(inner.0, xs.1)) + render_parts(
        body,
        second.push(inner.0, xs.0),
    ) + render_parts(body, second.push(inner.0, xs.1)));
}

/// Where a comment ends that was opened before index `pos` of a text and is
/// `depth` comments deep there: the index after the `#}` that closes the
/// outermost of them. `-1` where the text ends first.
pub open spec fn comment_end(text: Seq<char>, pos: int, depth: nat) -> int
    decreases text.len() - pos,
{
    if 0 <= pos < text.len() && depth > 0 {
        match delim_at(text, pos) {
            Some(Delim::CommentOpen) => comment_end(text, pos + 2, depth + 1),
            Some(Delim::CommentClose) => if depth == 1 {
                pos + 2
            } else {
                comment_end(text, pos + 2, (depth - 1) as nat)
            },
            Some(_) => comment_end(text, pos + 2, depth),
            None => comment_end(text, pos + 1, depth),
        }
    } else {
        -1
    }
}

/// In a comment nothing but the comment changes: the scan comes out of the
/// comments that are open above `base` in the state `base`.
proof fn lemma_inside_comment(
    base: ParserView,
    cur: ParserView,
    text: Seq<char>,
    pos: int,
    depth: nat,
)
    requires
        depth >= 1,
        0 <= pos,
        base.buf == Seq::<char>::empty(),
        cur.root == base.root,
        cur.pending == base.pending,
        cur.line == base.line,
        cur.frames.len() == base.frames.len() + depth,
        cur.frames.take(base.frames.len() as int) == base.frames,
        forall|i: int| base.frames.len() <= i < cur.frames.len() ==> cur.frames[i].kind is Comment,
        comment_end(text, pos, depth) >= 0,
    ensures
        scan_text(cur, text, pos) == scan_text(base, text, comment_end(text, pos, depth)),
    decreases text.len() - pos,
{
    let n = base.frames.len() as int;
    assert(cur.in_comment());
    match delim_at(text, pos) {
        Some(Delim::CommentOpen) => {
            let next = cur.open(FrameKindView::Comment, cur.line);
            assert(next.frames.take(n) =~= base.frames);
            lemma_inside_comment(base, next, text, pos + 2, depth + 1);
        },
        Some(Delim::CommentClose) => {
            let next = ParserView { frames: cur.frames.drop_last(), buf: Seq::empty(), ..cur };
            if depth == 1 {
                assert(next.frames =~= base.frames);
                assert(next == base);
            } else {
                assert(next.frames.take(n) =~= base.frames);
                lemma_inside_comment(base, next, text, pos + 2, (depth - 1) as nat);
            }
        },
        Some(_) => {
            lemma_inside_comment(base, cur, text, pos + 2, depth);
        },
        None => {
            let next = ParserView { buf: cur.buf.push(text[pos]), ..cur };
            lemma_inside_comment(base, next, text, pos + 1, depth);
        },
    }
}

/// A comment is dropped, with all that is in it, comments and line feeds
/// too: where `{#` stands at index `pos` of a text and the comment ends in
/// the text, the scan of the text goes on behind the comment as if the
/// comment had not been there and the buffer had been written out at `pos`.
pub proof fn lemma_comment_is_dropped(st: ParserView, text: Seq<char>, pos: int)
    requires
        !st.in_comment(),
        delim_at(text, pos) == Some(Delim::CommentOpen),
        comment_end(text, pos + 2, 1) >= 0,
    ensures
        scan_text(st, text, pos) == scan_text(st.flush(), text, comment_end(text, pos + 2, 1)),
{
    let base = st.flush();
    let cur = base.open(FrameKindView::Comment, st.line);
    assert(cur.frames.take(base.frames.len() as int) =~= base.frames);
    lemma_inside_comment(base, cur, text, pos + 2, 1);
}

} // verus!
