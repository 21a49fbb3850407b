//! The values that a context binds: strings, booleans, numbers, maps from
//! strings to values and sequences of values. A value is never changed once
//! it is made; sequences and maps hold their items behind reference counts,
//! so that an item can be handed on without being copied.

use std::rc::Rc;
use vstd::prelude::*;
use vstd::std_specs::convert::FromSpecImpl;

use crate::text::same_text;

verus! {

/// A sequence of values.
pub type VecValue = Vec<Rc<ContextValue>>;

/// A map from strings to values: a list of entries, of which the last one
/// with a given key counts.
#[derive(Debug)]
pub struct MapValue {
    pub entries: Vec<(String, Rc<ContextValue>)>,
}

/// A number with a fraction, kept as what the engine reads of it: how it is
/// written, and whether it differs from zero.
#[derive(Debug, Clone)]
pub struct Float {
    pub text: String,
    pub nonzero: bool,
}

/// A value.
#[derive(Debug)]
pub enum ContextValue {
    String(String),
    Bool(bool),
    I32(i32),
    I64(i64),
    F64(Float),
    MapValue(MapValue),
    VecValue(VecValue),
}

/// The mathematical form of a [`ContextValue`].
#[allow(inconsistent_fields)]
pub ghost enum Value {
    Text { text: Seq<char> },
    Bool { b: bool },
    I32 { n: i32 },
    I64 { n: i64 },
    F64 { text: Seq<char>, nonzero: bool },
    Dict { entries: Map<Seq<char>, Value> },
    List { items: Seq<Value> },
}

/// The mathematical form of a value.
pub open spec fn value_view(v: ContextValue) -> Value
    decreases v,
{
    match v {
        ContextValue::String(s) => Value::Text { text: s@ },
        ContextValue::Bool(b) => Value::Bool { b },
        ContextValue::I32(n) => Value::I32 { n },
        ContextValue::I64(n) => Value::I64 { n },
        ContextValue::F64(f) => Value::F64 { text: f.text@, nonzero: f.nonzero },
        ContextValue::MapValue(m) => Value::Dict { entries: entries_view(m.entries@) },
        ContextValue::VecValue(l) => Value::List { items: items_view(l@) },
    }
}

/// The mathematical form of a sequence of values.
pub open spec fn items_view(items: Seq<Rc<ContextValue>>) -> Seq<Value>
    decreases items,
{
    Seq::new(
        items.len(),
        |i: int|
            if 0 <= i < items.len() {
                value_view(*items[i])
            } else {
                Value::Bool { b: false }
            },
    )
}

/// What a list of entries binds: each key to the value of the last entry
/// that has it.
pub open spec fn entries_view(entries: Seq<(String, Rc<ContextValue>)>) -> Map<Seq<char>, Value>
    decreases entries,
{
    if entries.len() == 0 {
        Map::empty()
    } else {
        entries_view(entries.drop_last()).insert(
            entries.last().0@,
            value_view(*entries.last().1),
        )
    }
}

impl View for ContextValue {
    type V = Value;

    open spec fn view(&self) -> Value {
        value_view(*self)
    }
}

impl View for MapValue {
    type V = Map<Seq<char>, Value>;

    open spec fn view(&self) -> Map<Seq<char>, Value> {
        entries_view(self.entries@)
    }
}

/// The view of a value that may be absent.
pub open spec fn option_view(v: Option<Rc<ContextValue>>) -> Option<Value> {
    match v {
        Some(rc) => Some(rc@),
        None => None,
    }
}

/// The form of a sequence with one more item is the form of the sequence
/// with the form of the item added.
pub proof fn lemma_items_view_push(items: Seq<Rc<ContextValue>>, item: Rc<ContextValue>)
    ensures
        items_view(items.push(item)) == items_view(items).push(item@),
{
    assert(items_view(items.push(item)) =~= items_view(items).push(item@));
}

/// The index of the entry that counts for `key`: the last one with that key.
/// `-1` where there is none.
pub open spec fn last_index_of(entries: Seq<(String, Rc<ContextValue>)>, key: Seq<char>) -> int
    decreases entries.len(),
{
    if entries.len() == 0 {
        -1
    } else if entries.last().0@ == key {
        entries.len() - 1
    } else {
        last_index_of(entries.drop_last(), key)
    }
}

/// A key is bound where an entry has it, and then to the value of the last
/// such entry.
pub proof fn lemma_last_index(entries: Seq<(String, Rc<ContextValue>)>, key: Seq<char>)
    ensures
        -1 <= last_index_of(entries, key) < entries.len(),
        last_index_of(entries, key) >= 0 <==> entries_view(entries).contains_key(key),
        last_index_of(entries, key) >= 0 ==> entries[last_index_of(entries, key)].0@ == key
            && entries_view(entries)[key] == entries[last_index_of(entries, key)].1@,
        forall|i: int|
            last_index_of(entries, key) < i < entries.len() ==> (#[trigger] entries[i]).0@ != key,
    decreases entries.len(),
{
    if entries.len() > 0 {
        lemma_last_index(entries.drop_last(), key);
        if entries.last().0@ != key {
            assert forall|i: int| last_index_of(entries, key) < i < entries.len() implies (
            #[trigger] entries[i]).0@ != key by {
                if i < entries.len() - 1 {
                    assert(entries.drop_last()[i] == entries[i]);
                }
            }
        }
    }
}

/// Replacing the entry that counts for a key by another entry with that key
/// binds the key anew and changes nothing else.
pub proof fn lemma_replace_entry(
    entries: Seq<(String, Rc<ContextValue>)>,
    i: int,
    entry: (String, Rc<ContextValue>),
)
    requires
        0 <= i < entries.len(),
        i == last_index_of(entries, entry.0@),
    ensures
        entries_view(entries.update(i, entry)) == entries_view(entries).insert(
            entry.0@,
            entry.1@,
        ),
    decreases entries.len(),
{
    let after = entries.update(i, entry);
    lemma_last_index(entries.drop_last(), entry.0@);
    if i == entries.len() - 1 {
        assert(after.drop_last() =~= entries.drop_last());
        assert(entries.last().0@ == entry.0@);
        assert(after.last() == entry);
        assert(entries_view(after) =~= entries_view(entries).insert(entry.0@, entry.1@));
    } else {
        assert(after.drop_last() =~= entries.drop_last().update(i, entry));
        assert(after.last() == entries.last());
        assert(entries.last().0@ != entry.0@);
        assert(last_index_of(entries.drop_last(), entry.0@) == i);
        lemma_replace_entry(entries.drop_last(), i, entry);
        assert(entries_view(after) == entries_view(after.drop_last()).insert(
            entries.last().0@,
            value_view(*entries.last().1),
        ));
        assert(entries_view(after) =~= entries_view(entries).insert(entry.0@, entry.1@));
    }
}

impl MapValue {
    /// The empty map.
    pub fn new() -> (m: MapValue)
        ensures
            m@ == Map::<Seq<char>, Value>::empty(),
    {
        MapValue { entries: Vec::new() }
    }

    /// The index of the entry that counts for `key`.
    fn find(&self, key: &str) -> (r: Option<usize>)
        ensures
            match r {
                Some(i) => i == last_index_of(self.entries@, key@),
                None => last_index_of(self.entries@, key@) == -1,
            },
    {
        let mut i: usize = self.entries.len();
        assert(self.entries@.take(i as int) =~= self.entries@);
        while i > 0
            invariant
                i <= self.entries@.len(),
                last_index_of(self.entries@, key@) == last_index_of(
                    self.entries@.take(i as int),
                    key@,
                ),
            decreases i,
        {
            i = i - 1;
            assert(self.entries@.take(i + 1).drop_last() =~= self.entries@.take(i as int));
            if same_text(self.entries[i].0.as_str(), key) {
                return Some(i);
            }
        }
        None
    }

    /// The value that `key` is bound to.
    pub fn get(&self, key: &str) -> (r: Option<&Rc<ContextValue>>)
        ensures
            match r {
                Some(v) => self@.contains_key(key@) && self@[key@] == v@,
                None => !self@.contains_key(key@),
            },
    {
        proof {
            lemma_last_index(self.entries@, key@);
        }
        match self.find(key) {
            Some(i) => Some(&self.entries[i].1),
            None => None,
        }
    }

    /// Binds `key` to `value`, and hands back what it was bound to.
    pub fn insert(&mut self, key: String, value: Rc<ContextValue>) -> (prev: Option<
        Rc<ContextValue>,
    >)
        ensures
            final(self)@ == old(self)@.insert(key@, value@),
            option_view(prev) == old(self)@.get(key@),
    {
        proof {
            lemma_last_index(self.entries@, key@);
        }
        match self.find(key.as_str()) {
            Some(i) => {
                proof {
                    lemma_replace_entry(self.entries@, i as int, (key, value));
                }
                let prev = Rc::clone(&self.entries[i].1);
                self.entries[i] = (key, value);
                Some(prev)
            },
            None => {
                self.entries.push((key, value));
                assert(self.entries@.drop_last() =~= old(self).entries@);
                None
            },
        }
    }
}

impl Clone for MapValue {
    fn clone(&self) -> (r: Self)
        ensures
            r@ == self@,
    {
        let mut entries: Vec<(String, Rc<ContextValue>)> = Vec::new();
        let mut i: usize = 0;
        assert(self.entries@.take(0) =~= Seq::empty());
        while i < self.entries.len()
            invariant
                i <= self.entries@.len(),
                entries_view(entries@) == entries_view(self.entries@.take(i as int)),
            decreases self.entries@.len() - i,
        {
            let key = self.entries[i].0.clone();
            let value = Rc::clone(&self.entries[i].1);
            let ghost before = entries@;
            entries.push((key, value));
            assert(entries@.drop_last() =~= before);
            assert(self.entries@.take(i + 1).drop_last() =~= self.entries@.take(i as int));
            i = i + 1;
        }
        assert(self.entries@.take(i as int) =~= self.entries@);
        MapValue { entries }
    }
}

/// A copy of a sequence that shares its items.
pub(crate) fn share_items(items: &Vec<Rc<ContextValue>>) -> (r: Vec<Rc<ContextValue>>)
    ensures
        r@ == items@,
{
    let mut r: Vec<Rc<ContextValue>> = Vec::new();
    let mut i: usize = 0;
    while i < items.len()
        invariant
            i <= items@.len(),
            r@ == items@.take(i as int),
        decreases items@.len() - i,
    {
        r.push(Rc::clone(&items[i]));
        assert(r@ =~= items@.take(i + 1));
        i = i + 1;
    }
    assert(items@.take(i as int) =~= items@);
    r
}

impl Clone for ContextValue {
    fn clone(&self) -> (r: Self)
        ensures
            r@ == self@,
    {
        match self {
            ContextValue::String(s) => ContextValue::String(s.clone()),
            ContextValue::Bool(b) => ContextValue::Bool(*b),
            ContextValue::I32(n) => ContextValue::I32(*n),
            ContextValue::I64(n) => ContextValue::I64(*n),
            ContextValue::F64(f) => ContextValue::F64(
                Float { text: f.text.clone(), nonzero: f.nonzero },
            ),
            ContextValue::MapValue(m) => ContextValue::MapValue(m.clone()),
            ContextValue::VecValue(l) => ContextValue::VecValue(share_items(l)),
        }
    }
}

impl From<String> for ContextValue {
    fn from(value: String) -> (r: Self) {
        ContextValue::String(value)
    }
}

impl FromSpecImpl<String> for ContextValue {
    open spec fn obeys_from_spec() -> bool {
        true
    }

    open spec fn from_spec(value: String) -> Self {
        ContextValue::String(value)
    }
}

impl From<&str> for ContextValue {
    fn from(value: &str) -> (r: Self)
        ensures
            r@ == (Value::Text { text: value@ }),
    {
        ContextValue::String(value.to_owned())
    }
}

impl FromSpecImpl<&str> for ContextValue {
    open spec fn obeys_from_spec() -> bool {
        false
    }

    open spec fn from_spec(value: &str) -> Self {
        arbitrary()
    }
}

impl From<i32> for ContextValue {
    fn from(value: i32) -> (r: Self) {
        ContextValue::I32(value)
    }
}

impl FromSpecImpl<i32> for ContextValue {
    open spec fn obeys_from_spec() -> bool {
        true
    }

    open spec fn from_spec(value: i32) -> Self {
        ContextValue::I32(value)
    }
}

impl From<i64> for ContextValue {
    fn from(value: i64) -> (r: Self) {
        ContextValue::I64(value)
    }
}

impl FromSpecImpl<i64> for ContextValue {
    open spec fn obeys_from_spec() -> bool {
        true
    }

    open spec fn from_spec(value: i64) -> Self {
        ContextValue::I64(value)
    }
}

impl From<Float> for ContextValue {
    fn from(value: Float) -> (r: Self) {
        ContextValue::F64(value)
    }
}

impl FromSpecImpl<Float> for ContextValue {
    open spec fn obeys_from_spec() -> bool {
        true
    }

    open spec fn from_spec(value: Float) -> Self {
        ContextValue::F64(value)
    }
}

impl From<MapValue> for ContextValue {
    fn from(value: MapValue) -> (r: Self) {
        ContextValue::MapValue(value)
    }
}

impl FromSpecImpl<MapValue> for ContextValue {
    open spec fn obeys_from_spec() -> bool {
        true
    }

    open spec fn from_spec(value: MapValue) -> Self {
        ContextValue::MapValue(value)
    }
}

impl From<VecValue> for ContextValue {
    fn from(value: VecValue) -> (r: Self) {
        ContextValue::VecValue(value)
    }
}

impl FromSpecImpl<VecValue> for ContextValue {
    open spec fn obeys_from_spec() -> bool {
        true
    }

    open spec fn from_spec(value: VecValue) -> Self {
        ContextValue::VecValue(value)
    }
}

/// Binding a key to a value of type `T`.
pub trait SetValue<T> {
    /// Binds `k` to `v`, and hands back what `k` was bound to.
    fn set(&mut self, k: &str, v: T) -> Option<Rc<ContextValue>>;
}

/// Adding a value of type `T` at the end of a sequence.
pub trait SetValueForVecValue<T> {
    /// Adds `v` at the end.
    fn set(&mut self, v: T);
}

/// Adds a value at the end of a sequence.
fn add_item(items: &mut VecValue, v: ContextValue)
    ensures
        items_view(final(items)@) == items_view(old(items)@).push(v@),
{
    let item = Rc::new(v);
    proof {
        lemma_items_view_push(items@, item);
    }
    items.push(item);
}

impl SetValueForVecValue<String> for VecValue {
    fn set(&mut self, v: String)
        ensures
            items_view(final(self)@) == items_view(old(self)@).push(Value::Text { text: v@ }),
    {
        add_item(self, ContextValue::String(v));
    }
}

impl SetValueForVecValue<&str> for VecValue {
    fn set(&mut self, v: &str)
        ensures
            items_view(final(self)@) == items_view(old(self)@).push(Value::Text { text: v@ }),
    {
        add_item(self, ContextValue::String(v.to_owned()));
    }
}

impl SetValueForVecValue<bool> for VecValue {
    fn set(&mut self, v: bool)
        ensures
            items_view(final(self)@) == items_view(old(self)@).push(Value::Bool { b: v }),
    {
        add_item(self, ContextValue::Bool(v));
    }
}

impl SetValueForVecValue<i32> for VecValue {
    fn set(&mut self, v: i32)
        ensures
            items_view(final(self)@) == items_view(old(self)@).push(Value::I32 { n: v }),
    {
        add_item(self, ContextValue::I32(v));
    }
}

impl SetValueForVecValue<i64> for VecValue {
    fn set(&mut self, v: i64)
        ensures
            items_view(final(self)@) == items_view(old(self)@).push(Value::I64 { n: v }),
    {
        add_item(self, ContextValue::I64(v));
    }
}

impl SetValueForVecValue<Float> for VecValue {
    fn set(&mut self, v: Float)
        ensures
            items_view(final(self)@) == items_view(old(self)@).push(
                Value::F64 { text: v.text@, nonzero: v.nonzero },
            ),
    {
        add_item(self, ContextValue::F64(v));
    }
}

impl SetValueForVecValue<VecValue> for VecValue {
    fn set(&mut self, v: VecValue)
        ensures
            items_view(final(self)@) == items_view(old(self)@).push(
                Value::List { items: items_view(v@) },
            ),
    {
        add_item(self, ContextValue::VecValue(v));
    }
}

impl SetValueForVecValue<MapValue> for VecValue {
    fn set(&mut self, v: MapValue)
        ensures
            items_view(final(self)@) == items_view(old(self)@).push(Value::Dict { entries: v@ }),
    {
        add_item(self, ContextValue::MapValue(v));
    }
}

/// Binds `k` to `v`, and hands back what `k` was bound to.
fn bind(map: &mut MapValue, k: &str, v: ContextValue) -> (prev: Option<Rc<ContextValue>>)
    ensures
        final(map)@ == old(map)@.insert(k@, v@),
        option_view(prev) == old(map)@.get(k@),
{
    map.insert(k.to_owned(), Rc::new(v))
}

impl SetValue<String> for MapValue {
    fn set(&mut self, k: &str, v: String) -> (prev: Option<Rc<ContextValue>>)
        ensures
            final(self)@ == old(self)@.insert(k@, Value::Text { text: v@ }),
            option_view(prev) == old(self)@.get(k@),
    {
        bind(self, k, ContextValue::String(v))
    }
}

impl SetValue<&str> for MapValue {
    fn set(&mut self, k: &str, v: &str) -> (prev: Option<Rc<ContextValue>>)
        ensures
            final(self)@ == old(self)@.insert(k@, Value::Text { text: v@ }),
            option_view(prev) == old(self)@.get(k@),
    {
        bind(self, k, ContextValue::String(v.to_owned()))
    }
}

impl SetValue<bool> for MapValue {
    fn set(&mut self, k: &str, v: bool) -> (prev: Option<Rc<ContextValue>>)
        ensures
            final(self)@ == old(self)@.insert(k@, Value::Bool { b: v }),
            option_view(prev) == old(self)@.get(k@),
    {
        bind(self, k, ContextValue::Bool(v))
    }
}

impl SetValue<i32> for MapValue {
    fn set(&mut self, k: &str, v: i32) -> (prev: Option<Rc<ContextValue>>)
        ensures
            final(self)@ == old(self)@.insert(k@, Value::I32 { n: v }),
            option_view(prev) == old(self)@.get(k@),
    {
        bind(self, k, ContextValue::I32(v))
    }
}

impl SetValue<i64> for MapValue {
    fn set(&mut self, k: &str, v: i64) -> (prev: Option<Rc<ContextValue>>)
        ensures
            final(self)@ == old(self)@.insert(k@, Value::I64 { n: v }),
            option_view(prev) == old(self)@.get(k@),
    {
        bind(self, k, ContextValue::I64(v))
    }
}

impl SetValue<Float> for MapValue {
    fn set(&mut self, k: &str, v: Float) -> (prev: Option<Rc<ContextValue>>)
        ensures
            final(self)@ == old(self)@.insert(
                k@,
                Value::F64 { text: v.text@, nonzero: v.nonzero },
            ),
            option_view(prev) == old(self)@.get(k@),
    {
        bind(self, k, ContextValue::F64(v))
    }
}

impl SetValue<VecValue> for MapValue {
    fn set(&mut self, k: &str, v: VecValue) -> (prev: Option<Rc<ContextValue>>)
        ensures
            final(self)@ == old(self)@.insert(k@, Value::List { items: items_view(v@) }),
            option_view(prev) == old(self)@.get(k@),
    {
        bind(self, k, ContextValue::VecValue(v))
    }
}

/// The sequence of the given values, in their order.
pub fn make_vec_value(slice: &[ContextValue]) -> (r: VecValue)
    ensures
        items_view(r@) == Seq::new(slice@.len(), |i: int| slice@[i]@),
{
    let mut r: VecValue = Vec::new();
    let mut i: usize = 0;
    while i < slice.len()
        invariant
            i <= slice@.len(),
            items_view(r@) == Seq::new(i as nat, |j: int| slice@[j]@),
        decreases slice@.len() - i,
    {
        let ghost before = items_view(r@);
        add_item(&mut r, slice[i].clone());
        assert(items_view(r@) =~= Seq::new((i + 1) as nat, |j: int| slice@[j]@));
        i = i + 1;
    }
    r
}

/// What a list of pairs binds: each key to the value of the last pair that
/// has it.
pub open spec fn pairs_view(pairs: Seq<(&str, ContextValue)>) -> Map<Seq<char>, Value>
    decreases pairs.len(),
{
    if pairs.len() == 0 {
        Map::empty()
    } else {
        pairs_view(pairs.drop_last()).insert(pairs.last().0@, pairs.last().1@)
    }
}

/// The map that the given pairs of key and value make.
pub fn make_map_value(slice: &[(&str, ContextValue)]) -> (r: MapValue)
    ensures
        r@ == pairs_view(slice@),
{
    let mut r = MapValue::new();
    let mut i: usize = 0;
    assert(slice@.take(0) =~= Seq::empty());
    while i < slice.len()
        invariant
            i <= slice@.len(),
            r@ == pairs_view(slice@.take(i as int)),
        decreases slice@.len() - i,
    {
        assert(slice@.take(i + 1).drop_last() =~= slice@.take(i as int));
        bind(&mut r, slice[i].0, slice[i].1.clone());
        i = i + 1;
    }
    assert(slice@.take(i as int) =~= slice@);
    r
}

} // verus!
