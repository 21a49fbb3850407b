//! Rendering: a template is walked node by node, and what each node stands
//! for in the context is written out.

use vstd::prelude::*;
use vstd::string::StringExecFns;

use crate::context::{ContextTrait, ContextView};
use crate::template::{Block, LoopBlock, Part, PartView, Template};
use crate::value::{items_view, Value};

verus! {

/// What one node writes.
///
/// Literal text is written as it is. A variable is written as the context
/// shows it. A conditional writes one of its branches. A loop writes its
/// body once for each item of its sequence, in their order, and nothing
/// where its key is no sequence.
pub open spec fn render_part(p: PartView, ctx: ContextView) -> Seq<char>
    decreases p, 0nat,
{
    match p {
        PartView::Literal { text } => text,
        PartView::VarRef { key, opt } => ctx.text(key, opt),
        PartView::Conditional { key, pos, neg } => if ctx.truth(key) {
            render_parts(pos, ctx)
        } else {
            render_parts(neg, ctx)
        },
        PartView::Loop { name, key, body } => match ctx.sequence(key) {
            Some(items) => render_each(name, items, body, ctx),
            None => Seq::empty(),
        },
    }
}

/// What a run of nodes writes: what each of them writes, in their order.
pub open spec fn render_parts(parts: Seq<PartView>, ctx: ContextView) -> Seq<char>
    decreases parts, 0nat,
{
    if parts.len() == 0 {
        Seq::empty()
    } else {
        render_parts(parts.drop_last(), ctx) + render_part(parts.last(), ctx)
    }
}

/// What a loop writes for the given items: for each of them, what the body
/// writes where `name` is bound to that item.
pub open spec fn render_each(
    name: Seq<char>,
    items: Seq<Value>,
    body: Seq<PartView>,
    ctx: ContextView,
) -> Seq<char>
    decreases body, items.len(),
{
    if items.len() == 0 {
        Seq::empty()
    } else {
        render_each(name, items.drop_last(), body, ctx) + render_parts(
            body,
            ctx.push(name, items.last()),
        )
    }
}

/// Something that can be rendered.
pub trait WriteTo {
    /// What rendering writes.
    spec fn rendered(&self, ctx: ContextView) -> Seq<char>;

    /// Renders into `out`. The context is the same afterwards.
    fn write_to<C: ContextTrait + ?Sized>(&self, ctx: &mut C, out: &mut String)
        ensures
            final(out)@ == old(out)@ + self.rendered(old(ctx).state()),
            final(ctx).state() == old(ctx).state(),
    ;
}

/// Writes what a block writes.
fn write_block<C: ContextTrait + ?Sized>(block: &Block, ctx: &mut C, out: &mut String)
    ensures
        final(out)@ == old(out)@ + render_parts(block@, old(ctx).state()),
        final(ctx).state() == old(ctx).state(),
    decreases block, 1nat,
{
    let ghost st = ctx.state();
    let ghost start = out@;
    let mut i: usize = 0;
    assert(block@.take(0) =~= Seq::<PartView>::empty());
    assert(out@ =~= start + Seq::<char>::empty());
    while i < block.parts.len()
        invariant
            i <= block.parts@.len(),
            ctx.state() == st,
            out@ == start + render_parts(block@.take(i as int), st),
        decreases block.parts@.len() - i,
    {
        let ghost before = out@;
        assert(block@.take(i + 1).drop_last() =~= block@.take(i as int));
        assert(block@.take(i + 1).last() == block.parts@[i as int]@);
        write_part(&block.parts[i], ctx, out);
        assert(out@ =~= start + render_parts(block@.take(i + 1), st));
        i = i + 1;
    }
    assert(block@.take(i as int) =~= block@);
}

/// Writes what one node writes.
fn write_part<C: ContextTrait + ?Sized>(part: &Part, ctx: &mut C, out: &mut String)
    ensures
        final(out)@ == old(out)@ + render_part(part@, old(ctx).state()),
        final(ctx).state() == old(ctx).state(),
    decreases part, 0nat,
{
    match part {
        Part::Str(part) => {
            out.append(part.str.as_str());
        },
        Part::Var(part) => {
            let text = ctx.get_str(part.key.as_str(), &part.opt);
            out.append(text.as_str());
        },
        Part::CondBlock(part) => {
            if ctx.get_bool(part.key.as_str()) {
                write_block(&part.pos, ctx, out);
            } else {
                write_block(&part.neg, ctx, out);
            }
        },
        Part::LoopBlock(lp) => {
            write_loop(lp, ctx, out);
        },
    }
}

/// Writes what a loop writes.
fn write_loop<C: ContextTrait + ?Sized>(lp: &LoopBlock, ctx: &mut C, out: &mut String)
    ensures
        final(out)@ == old(out)@ + render_part(
            PartView::Loop { name: lp.name@, key: lp.key@, body: lp.inner@ },
            old(ctx).state(),
        ),
        final(ctx).state() == old(ctx).state(),
    decreases lp, 2nat,
{
    match ctx.get_vec(lp.key.as_str()) {
        Some(items) => {
            let ghost st = ctx.state();
            let ghost start = out@;
            let ghost all = items_view(items@);
            let mut i: usize = 0;
            assert(all.take(0) =~= Seq::<Value>::empty());
            assert(out@ =~= start + Seq::<char>::empty());
            while i < items.len()
                invariant
                    i <= items@.len(),
                    all == items_view(items@),
                    ctx.state() == st,
                    out@ == start + render_each(lp.name@, all.take(i as int), lp.inner@, st),
                decreases items@.len() - i,
            {
                assert(all.take(i + 1).drop_last() =~= all.take(i as int));
                assert(all.take(i + 1).last() == items@[i as int]@);
                ctx.push(lp.name.as_str(), &items[i]);
                write_block(&lp.inner, ctx, out);
                ctx.pop();
                assert(ctx.state().stack =~= st.stack);
                assert(out@ =~= start + render_each(lp.name@, all.take(i + 1), lp.inner@, st));
                i = i + 1;
            }
            assert(all.take(i as int) =~= all);
        },
        None => {
            assert(out@ =~= old(out)@ + Seq::<char>::empty());
        },
    }
}

impl WriteTo for Block {
    open spec fn rendered(&self, ctx: ContextView) -> Seq<char> {
        render_parts(self@, ctx)
    }

    fn write_to<C: ContextTrait + ?Sized>(&self, ctx: &mut C, out: &mut String) {
        write_block(self, ctx, out);
    }
}

impl WriteTo for Part {
    open spec fn rendered(&self, ctx: ContextView) -> Seq<char> {
        render_part(self@, ctx)
    }

    fn write_to<C: ContextTrait + ?Sized>(&self, ctx: &mut C, out: &mut String) {
        write_part(self, ctx, out);
    }
}

impl Template {
    /// Renders the template at the end of `out`. The context is the same
    /// afterwards.
    pub fn write_to<C: ContextTrait + ?Sized>(&self, ctx: &mut C, out: &mut String)
        ensures
            final(out)@ == old(out)@ + render_parts(self@, old(ctx).state()),
            final(ctx).state() == old(ctx).state(),
    {
        write_block(self.block(), ctx, out);
    }

    /// Renders the template. The context is the same afterwards.
    pub fn render<C: ContextTrait + ?Sized>(&self, ctx: &mut C) -> (s: String)
        ensures
            s@ == render_parts(self@, old(ctx).state()),
            final(ctx).state() == old(ctx).state(),
    {
        let mut s = String::new();
        self.write_to(ctx, &mut s);
        assert(s@ =~= render_parts(self@, old(ctx).state()));
        s
    }
}

} // verus!
