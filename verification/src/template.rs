//! The parsed form of a template: a tree of literal text, variable references,
//! conditionals and loops.

use vstd::hash_set::StringHashSet;
use vstd::prelude::*;

verus! {

/// How the text of a variable is escaped when it is written out.
#[derive(Debug, Clone, Copy, PartialEq, Eq, Structural)]
pub enum VarOpt {
    /// As the context says.
    DEF,
    /// Unchanged.
    RAW,
    /// With the characters that HTML reserves replaced by entities.
    HTML,
    /// With the characters that XML reserves replaced by entities.
    XML,
}

/// Literal text.
#[derive(Debug, Clone)]
pub struct Str {
    pub str: String,
}

/// A reference to a variable.
#[derive(Debug, Clone)]
pub struct Var {
    pub key: String,
    pub opt: VarOpt,
}

/// A conditional: `pos` is rendered where `key` holds, `neg` where it does not.
#[derive(Debug)]
pub struct CondBlock {
    pub key: String,
    pub pos: Block,
    pub neg: Block,
}

/// A loop: `inner` is rendered once for each item of the sequence `key`, with
/// the item bound to `name`.
#[derive(Debug)]
pub struct LoopBlock {
    pub name: String,
    pub key: String,
    pub inner: Block,
}

/// One node of a template.
#[derive(Debug)]
pub enum Part {
    Str(Str),
    Var(Var),
    CondBlock(CondBlock),
    LoopBlock(LoopBlock),
}

/// A run of nodes, in the order of the source.
#[derive(Debug)]
pub struct Block {
    pub parts: Vec<Part>,
}

/// A parsed template. It comes from a parse and never changes.
#[derive(Debug)]
pub struct Template {
    block: Block,
}

/// The mathematical form of a [`Part`].
pub ghost enum PartView {
    Literal { text: Seq<char> },
    VarRef { key: Seq<char>, opt: VarOpt },
    Conditional { key: Seq<char>, pos: Seq<PartView>, neg: Seq<PartView> },
    Loop { name: Seq<char>, key: Seq<char>, body: Seq<PartView> },
}

/// The mathematical form of a node.
pub open spec fn part_view(p: Part) -> PartView
    decreases p,
{
    match p {
        Part::Str(s) => PartView::Literal { text: s.str@ },
        Part::Var(v) => PartView::VarRef { key: v.key@, opt: v.opt },
        Part::CondBlock(c) => PartView::Conditional {
            key: c.key@,
            pos: parts_view(c.pos.parts@),
            neg: parts_view(c.neg.parts@),
        },
        Part::LoopBlock(l) => PartView::Loop {
            name: l.name@,
            key: l.key@,
            body: parts_view(l.inner.parts@),
        },
    }
}

/// The mathematical form of a run of nodes.
pub open spec fn parts_view(parts: Seq<Part>) -> Seq<PartView>
    decreases parts,
{
    Seq::new(
        parts.len(),
        |i: int|
            if 0 <= i < parts.len() {
                part_view(parts[i])
            } else {
                PartView::Literal { text: Seq::empty() }
            },
    )
}

impl View for Part {
    type V = PartView;

    open spec fn view(&self) -> PartView {
        part_view(*self)
    }
}

impl View for Block {
    type V = Seq<PartView>;

    open spec fn view(&self) -> Seq<PartView> {
        parts_view(self.parts@)
    }
}

impl View for Template {
    type V = Seq<PartView>;

    closed spec fn view(&self) -> Seq<PartView> {
        self.block@
    }
}

/// The form of a run with one more node is the form of the run with the
/// form of the node added.
pub proof fn lemma_parts_view_push(parts: Seq<Part>, p: Part)
    ensures
        parts_view(parts.push(p)) == parts_view(parts).push(part_view(p)),
{
    assert(parts_view(parts.push(p)) =~= parts_view(parts).push(part_view(p)));
}

/// The keys that one node refers to, at any depth.
pub open spec fn part_names(p: PartView) -> Set<Seq<char>>
    decreases p,
{
    match p {
        PartView::Literal { .. } => Set::empty(),
        PartView::VarRef { key, .. } => set![key],
        PartView::Conditional { key, pos, neg } => set![key].union(names(pos)).union(names(neg)),
        PartView::Loop { key, body, .. } => set![key].union(names(body)),
    }
}

/// The keys that a run of nodes refers to, at any depth.
pub open spec fn names(parts: Seq<PartView>) -> Set<Seq<char>>
    decreases parts,
{
    if parts.len() == 0 {
        Set::empty()
    } else {
        names(parts.drop_last()).union(part_names(parts.last()))
    }
}

impl Block {
    /// The empty block.
    pub fn new() -> (b: Block)
        ensures
            b@ == Seq::<PartView>::empty(),
    {
        let b = Block { parts: Vec::new() };
        assert(b@ =~= Seq::<PartView>::empty());
        b
    }
}

/// The texts of a run of strings.
pub open spec fn texts(v: Seq<String>) -> Seq<Seq<char>> {
    v.map_values(|s: String| s@)
}

/// Whether `listed` holds each text of `seen` once, and nothing else.
pub open spec fn lists(listed: Seq<String>, seen: Set<Seq<char>>) -> bool {
    texts(listed).no_duplicates() && texts(listed).to_set() == seen
}

/// Lists `key`, unless it is listed.
fn note_name(seen: &mut StringHashSet, listed: &mut Vec<String>, key: &String)
    requires
        lists(old(listed)@, old(seen)@),
    ensures
        lists(final(listed)@, final(seen)@),
        final(seen)@ == old(seen)@.insert(key@),
{
    if seen.insert(key.clone()) {
        listed.push(key.clone());
        assert(texts(listed@) =~= texts(old(listed)@).push(key@));
        assert(texts(listed@).to_set() =~= seen@) by {
            assert forall|t: Seq<char>| seen@.contains(t) implies texts(listed@).contains(t) by {
                if t == key@ {
                    assert(texts(listed@)[listed@.len() - 1] == t);
                } else {
                    assert(texts(old(listed)@).to_set().contains(t));
                    let i = choose|i: int|
                        0 <= i < texts(old(listed)@).len() && texts(old(listed)@)[i] == t;
                    assert(texts(listed@)[i] == t);
                }
            }
        }
    } else {
        assert(seen@ =~= old(seen)@);
    }
}

/// Lists the keys that `block` refers to, unless they are listed.
fn collect_names(seen: &mut StringHashSet, listed: &mut Vec<String>, block: &Block)
    requires
        lists(old(listed)@, old(seen)@),
    ensures
        lists(final(listed)@, final(seen)@),
        final(seen)@ == old(seen)@.union(names(block@)),
    decreases block,
{
    let mut i: usize = 0;
    assert(block@.take(0) =~= Seq::<PartView>::empty());
    assert(old(seen)@.union(Set::empty()) =~= old(seen)@);
    while i < block.parts.len()
        invariant
            i <= block.parts@.len(),
            lists(listed@, seen@),
            seen@ == old(seen)@.union(names(block@.take(i as int))),
        decreases block.parts@.len() - i,
    {
        let ghost before = seen@;
        let ghost head = block@.take(i as int);
        let ghost next = block@.take(i + 1);
        assert(next.drop_last() =~= head);
        assert(next.last() == part_view(block.parts@[i as int]));
        match &block.parts[i] {
            Part::Str(_) => {},
            Part::Var(part) => {
                note_name(seen, listed, &part.key);
            },
            Part::CondBlock(part) => {
                note_name(seen, listed, &part.key);
                collect_names(seen, listed, &part.pos);
                collect_names(seen, listed, &part.neg);
            },
            Part::LoopBlock(part) => {
                note_name(seen, listed, &part.key);
                collect_names(seen, listed, &part.inner);
            },
        }
        assert(seen@ =~= before.union(part_names(next.last())));
        assert(seen@ =~= old(seen)@.union(names(next)));
        i = i + 1;
    }
    assert(block@.take(i as int) =~= block@);
}

impl Template {
    /// The template that writes nothing.
    pub fn new() -> (t: Template)
        ensures
            t@ == Seq::<PartView>::empty(),
    {
        Template { block: Block::new() }
    }

    /// The template that is made of `block`.
    pub(crate) fn from_block(block: Block) -> (t: Template)
        ensures
            t@ == block@,
    {
        Template { block }
    }

    /// The nodes of the template.
    pub fn block(&self) -> (block: &Block)
        ensures
            block@ == self@,
    {
        &self.block
    }

    /// The keys that the template refers to: those of its variables, of its
    /// conditions and of the sequences that its loops run over. Each key
    /// stands once, where the template first refers to it.
    pub fn get_varnames(&self) -> (listed: Vec<String>)
        ensures
            texts(listed@).no_duplicates(),
            texts(listed@).to_set() == names(self@),
    {
        let mut seen = StringHashSet::new();
        let mut listed: Vec<String> = Vec::new();
        assert(texts(listed@).to_set() =~= seen@);
        collect_names(&mut seen, &mut listed, &self.block);
        assert(seen@ =~= names(self@));
        listed
    }
}

} // verus!
