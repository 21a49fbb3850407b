//! The context that a template is rendered against: a dictionary of values,
//! a stack of the bindings that the loops around the current node have made,
//! and two settings.

use std::rc::Rc;
use vstd::prelude::*;
use vstd::string::StringExecFns;

use crate::template::VarOpt;
use crate::text::{
    append_signed_decimal, chars_of, equals_ignoring_case, find_char, index_of_char, push_char,
    same_ignoring_case, same_text, signed_decimal, string_of,
};
use crate::value::{
    items_view, option_view, share_items, ContextValue, Float, MapValue, SetValue, Value, VecValue,
};

verus! {

/// What a character becomes where text is escaped: one of six characters
/// becomes an entity, any other stays.
pub open spec fn entity(c: char) -> Seq<char> {
    if c == '&' {
        "&amp;"@
    } else if c == '<' {
        "&lt;"@
    } else if c == '>' {
        "&gt;"@
    } else if c == '"' {
        "&quot;"@
    } else if c == '\'' {
        "&#39;"@
    } else if c == ' ' {
        "&nbsp;"@
    } else {
        seq![c]
    }
}

/// A text with each of its characters escaped.
pub open spec fn escaped(text: Seq<char>) -> Seq<char>
    decreases text.len(),
{
    if text.len() == 0 {
        Seq::empty()
    } else {
        escaped(text.drop_last()) + entity(text.last())
    }
}

/// A text as it is written out under an option.
pub open spec fn escape(text: Seq<char>, opt: VarOpt) -> Seq<char> {
    match opt {
        VarOpt::HTML | VarOpt::XML => escaped(text),
        _ => text,
    }
}

/// Escapes a text for the given option: for HTML and XML each of `&`, `<`,
/// `>`, `"`, `'` and the space becomes an entity; otherwise nothing changes.
pub fn escape_str(item: String, opt: &VarOpt) -> (r: String)
    ensures
        r@ == escape(item@, *opt),
{
    match opt {
        VarOpt::HTML | VarOpt::XML => {
            let chars = chars_of(item.as_str());
            let mut r = String::new();
            let mut i: usize = 0;
            assert(chars@.take(0) =~= Seq::<char>::empty());
            while i < chars.len()
                invariant
                    i <= chars@.len(),
                    r@ == escaped(chars@.take(i as int)),
                decreases chars@.len() - i,
            {
                let c = chars[i];
                let ghost before = r@;
                assert(chars@.take(i + 1).drop_last() =~= chars@.take(i as int));
                if c == '&' {
                    r.append("&amp;");
                } else if c == '<' {
                    r.append("&lt;");
                } else if c == '>' {
                    r.append("&gt;");
                } else if c == '"' {
                    r.append("&quot;");
                } else if c == '\'' {
                    r.append("&#39;");
                } else if c == ' ' {
                    r.append("&nbsp;");
                } else {
                    push_char(&mut r, c);
                    assert(r@ =~= before + seq![c]);
                }
                i = i + 1;
            }
            assert(chars@.take(i as int) =~= chars@);
            r
        },
        _ => item,
    }
}

/// The part of a key before its first dot; the whole key if it has none.
pub open spec fn key_head(key: Seq<char>) -> Seq<char> {
    key.take(find_char(key, '.', 0))
}

/// The part of a key after its first dot; empty if it has none.
pub open spec fn key_rest(key: Seq<char>) -> Seq<char> {
    let d = find_char(key, '.', 0);
    if d < key.len() {
        key.skip(d + 1)
    } else {
        Seq::empty()
    }
}

/// The value that the innermost binding of `name` holds.
pub open spec fn find_binding(stack: Seq<(Seq<char>, Value)>, name: Seq<char>) -> Option<Value>
    decreases stack.len(),
{
    if stack.len() == 0 {
        None
    } else if stack.last().0 == name {
        Some(stack.last().1)
    } else {
        find_binding(stack.drop_last(), name)
    }
}

/// Whether a string counts as true: whether it is one of `true`, `t`, `1`,
/// `yes`, `y`, in any case.
pub open spec fn is_true_text(s: Seq<char>) -> bool {
    ||| same_ignoring_case(s, "true"@)
    ||| same_ignoring_case(s, "t"@)
    ||| same_ignoring_case(s, "1"@)
    ||| same_ignoring_case(s, "yes"@)
    ||| same_ignoring_case(s, "y"@)
}

/// Whether a value counts as true. A number does where it is not zero; a map
/// or a sequence never does.
pub open spec fn is_true(v: Value) -> bool {
    match v {
        Value::Bool { b } => b,
        Value::Text { text } => is_true_text(text),
        Value::I32 { n } => n != 0,
        Value::I64 { n } => n != 0,
        Value::F64 { nonzero, .. } => nonzero,
        _ => false,
    }
}

/// How a value is written: a string as it is, a boolean as `true` or
/// `false`, a number in decimal, a map or a sequence as nothing.
pub open spec fn value_text(v: Value) -> Seq<char> {
    match v {
        Value::Bool { b } => if b {
            "true"@
        } else {
            "false"@
        },
        Value::Text { text } => text,
        Value::I32 { n } => signed_decimal(n as int),
        Value::I64 { n } => signed_decimal(n as int),
        Value::F64 { text, .. } => text,
        _ => Seq::empty(),
    }
}

/// What is written for a key that resolves to nothing.
pub open spec fn placeholder(key: Seq<char>) -> Seq<char> {
    "???"@ + key + "???"@
}

/// The mathematical form of a context.
pub ghost struct ContextView {
    /// What the caller has bound.
    pub dict: Map<Seq<char>, Value>,
    /// What the loops have bound, the innermost binding last.
    pub stack: Seq<(Seq<char>, Value)>,
    /// How a variable without an option of its own is escaped.
    pub opt: VarOpt,
    /// Whether a key that resolves to nothing is written as nothing.
    pub blank: bool,
}

impl ContextView {
    /// The value of `key`.
    ///
    /// The key is split at its first dot. Where a loop has bound the part
    /// before the dot, the innermost such binding decides, and the
    /// dictionary is not asked: a map gives what it holds under the part
    /// after the dot, if there is such a part, and any other value gives
    /// itself. Otherwise the dictionary is asked for the whole key, dots
    /// included.
    pub open spec fn resolve(self, key: Seq<char>) -> Option<Value> {
        match find_binding(self.stack, key_head(key)) {
            Some(Value::Dict { entries }) => if key_rest(key).len() > 0 {
                entries.get(key_rest(key))
            } else {
                Some(Value::Dict { entries })
            },
            Some(v) => Some(v),
            None => self.dict.get(key),
        }
    }

    /// Whether `key` holds.
    pub open spec fn truth(self, key: Seq<char>) -> bool {
        match self.resolve(key) {
            Some(v) => is_true(v),
            None => false,
        }
    }

    /// The text of `key`, before it is escaped.
    pub open spec fn string(self, key: Seq<char>) -> Seq<char> {
        match self.resolve(key) {
            Some(v) => value_text(v),
            None => if self.blank {
                Seq::empty()
            } else {
                placeholder(key)
            },
        }
    }

    /// The option that counts for a variable written with `opt`.
    pub open spec fn effective(self, opt: VarOpt) -> VarOpt {
        if opt == VarOpt::DEF {
            self.opt
        } else {
            opt
        }
    }

    /// The text of `key` as a variable written with `opt` shows it.
    pub open spec fn text(self, key: Seq<char>, opt: VarOpt) -> Seq<char> {
        escape(self.string(key), self.effective(opt))
    }

    /// The items of `key`, where it is a sequence.
    pub open spec fn sequence(self, key: Seq<char>) -> Option<Seq<Value>> {
        match self.resolve(key) {
            Some(Value::List { items }) => Some(items),
            _ => None,
        }
    }

    /// The context with `key` bound to `v` in the dictionary.
    pub open spec fn put(self, key: Seq<char>, v: Value) -> ContextView {
        ContextView { dict: self.dict.insert(key, v), ..self }
    }

    /// The context with one more binding.
    pub open spec fn push(self, name: Seq<char>, v: Value) -> ContextView {
        ContextView { stack: self.stack.push((name, v)), ..self }
    }

    /// The context without its innermost binding.
    pub open spec fn pop(self) -> ContextView {
        if self.stack.len() > 0 {
            ContextView { stack: self.stack.drop_last(), ..self }
        } else {
            self
        }
    }
}

/// What a template needs of a context.
pub trait ContextTrait {
    /// What the context holds.
    spec fn state(&self) -> ContextView;

    /// Binds `key` to `val` in the dictionary, and hands back what it was
    /// bound to.
    fn put_item(&mut self, key: &str, val: ContextValue) -> (prev: Option<Rc<ContextValue>>)
        ensures
            final(self).state() == old(self).state().put(key@, val@),
            option_view(prev) == old(self).state().dict.get(key@),
    ;

    /// The value of `key`.
    fn get_item(&self, key: &str) -> (r: Option<Rc<ContextValue>>)
        ensures
            option_view(r) == self.state().resolve(key@),
    ;

    /// Whether `key` holds.
    fn get_bool(&self, key: &str) -> (b: bool)
        ensures
            b == self.state().truth(key@),
    ;

    /// The text of `key` as a variable written with `opt` shows it.
    fn get_str(&self, key: &str, opt: &VarOpt) -> (s: String)
        ensures
            s@ == self.state().text(key@, *opt),
    ;

    /// The items of `key`, where it is a sequence.
    fn get_vec(&self, key: &str) -> (r: Option<Vec<Rc<ContextValue>>>)
        ensures
            match r {
                Some(items) => self.state().sequence(key@) == Some(items_view(items@)),
                None => self.state().sequence(key@) is None,
            },
    ;

    /// Binds `name` to `item` until the next `pop`.
    fn push(&mut self, name: &str, item: &Rc<ContextValue>)
        ensures
            final(self).state() == old(self).state().push(name@, item@),
    ;

    /// Drops the innermost binding, if there is one.
    fn pop(&mut self)
        ensures
            final(self).state() == old(self).state().pop(),
    ;
}

/// A context.
pub struct Context {
    /// How a variable without an option of its own is escaped.
    pub opt: VarOpt,
    /// Whether a key that resolves to nothing is written as nothing, and not
    /// as a placeholder.
    pub is_def_blank: bool,
    /// What the caller has bound.
    pub dict: MapValue,
    /// What the loops have bound, the innermost binding last.
    pub stack: Vec<(String, Rc<ContextValue>)>,
}

/// The mathematical form of a stack of bindings.
pub open spec fn bindings_view(stack: Seq<(String, Rc<ContextValue>)>) -> Seq<(Seq<char>, Value)> {
    Seq::new(stack.len(), |i: int| (stack[i].0@, stack[i].1@))
}

/// Whether a value counts as true.
pub fn truth_of(v: &ContextValue) -> (b: bool)
    ensures
        b == is_true(v@),
{
    match v {
        ContextValue::Bool(b) => *b,
        ContextValue::String(s) => {
            let chars = chars_of(s.as_str());
            equals_ignoring_case(&chars, "true") || equals_ignoring_case(&chars, "t")
                || equals_ignoring_case(&chars, "1") || equals_ignoring_case(&chars, "yes")
                || equals_ignoring_case(&chars, "y")
        },
        ContextValue::I32(n) => *n != 0,
        ContextValue::I64(n) => *n != 0,
        ContextValue::F64(f) => f.nonzero,
        _ => false,
    }
}

/// How a value is written.
pub fn text_of(v: &ContextValue) -> (s: String)
    ensures
        s@ == value_text(v@),
{
    match v {
        ContextValue::Bool(b) => {
            let mut s = String::new();
            if *b {
                s.append("true");
            } else {
                s.append("false");
            }
            assert(s@ =~= value_text(v@));
            s
        },
        ContextValue::String(s) => s.clone(),
        ContextValue::I32(n) => {
            let mut s = String::new();
            append_signed_decimal(&mut s, *n as i64);
            assert(s@ =~= value_text(v@));
            s
        },
        ContextValue::I64(n) => {
            let mut s = String::new();
            append_signed_decimal(&mut s, *n);
            assert(s@ =~= value_text(v@));
            s
        },
        ContextValue::F64(f) => f.text.clone(),
        _ => String::new(),
    }
}

impl Context {
    /// A context that binds nothing, escapes for HTML and shows a
    /// placeholder for a key that resolves to nothing.
    pub fn new() -> (c: Context)
        ensures
            c.state() == (ContextView {
                dict: Map::empty(),
                stack: Seq::empty(),
                opt: VarOpt::HTML,
                blank: false,
            }),
    {
        let c = Context {
            stack: Vec::new(),
            opt: VarOpt::HTML,
            is_def_blank: false,
            dict: MapValue::new(),
        };
        assert(c.state().stack =~= Seq::empty());
        c
    }
}

impl ContextTrait for Context {
    open spec fn state(&self) -> ContextView {
        ContextView {
            dict: self.dict@,
            stack: bindings_view(self.stack@),
            opt: self.opt,
            blank: self.is_def_blank,
        }
    }

    fn put_item(&mut self, key: &str, val: ContextValue) -> (prev: Option<Rc<ContextValue>>) {
        self.dict.insert(key.to_owned(), Rc::new(val))
    }

    fn get_item(&self, key: &str) -> (r: Option<Rc<ContextValue>>) {
        let chars = chars_of(key);
        let d = index_of_char(&chars, '.', 0);
        let head = string_of(&chars, 0, d);
        let ghost stack = bindings_view(self.stack@);
        let mut i: usize = self.stack.len();
        assert(stack.take(i as int) =~= stack);
        while i > 0
            invariant
                i <= self.stack@.len(),
                stack == bindings_view(self.stack@),
                chars@ == key@,
                d == find_char(key@, '.', 0),
                d <= key@.len(),
                head@ == key_head(key@),
                find_binding(stack, head@) == find_binding(stack.take(i as int), head@),
            decreases i,
        {
            i = i - 1;
            assert(stack.take(i + 1).drop_last() =~= stack.take(i as int));
            assert(stack.take(i + 1).last() == (self.stack@[i as int].0@, self.stack@[i as int].1@));
            if same_text(self.stack[i].0.as_str(), head.as_str()) {
                let item = &self.stack[i].1;
                match &**item {
                    ContextValue::MapValue(m) => {
                        if d < chars.len() && chars.len() - d > 1 {
                            let rest = string_of(&chars, d + 1, chars.len());
                            assert(rest@ =~= key_rest(key@));
                            return match m.get(rest.as_str()) {
                                Some(v) => Some(Rc::clone(v)),
                                None => None,
                            };
                        } else {
                            assert(key_rest(key@).len() == 0);
                            return Some(Rc::clone(item));
                        }
                    },
                    _ => {
                        return Some(Rc::clone(item));
                    },
                }
            }
        }
        assert(stack.take(0) =~= Seq::empty());
        match self.dict.get(key) {
            Some(v) => Some(Rc::clone(v)),
            None => None,
        }
    }

    fn get_bool(&self, key: &str) -> (b: bool) {
        match self.get_item(key) {
            Some(item) => truth_of(&*item),
            None => false,
        }
    }

    fn get_str(&self, key: &str, opt: &VarOpt) -> (s: String) {
        let ret = match self.get_item(key) {
            Some(item) => text_of(&*item),
            None => {
                let mut s = String::new();
                if !self.is_def_blank {
                    s.append("???");
                    s.append(key);
                    s.append("???");
                    assert(s@ =~= placeholder(key@));
                }
                s
            },
        };
        let opt = if *opt == VarOpt::DEF {
            &self.opt
        } else {
            opt
        };
        escape_str(ret, opt)
    }

    fn get_vec(&self, key: &str) -> (r: Option<Vec<Rc<ContextValue>>>) {
        match self.get_item(key) {
            Some(item) => match &*item {
                ContextValue::VecValue(items) => Some(share_items(items)),
                _ => None,
            },
            None => None,
        }
    }

    fn push(&mut self, name: &str, item: &Rc<ContextValue>) {
        self.stack.push((name.to_owned(), Rc::clone(item)));
        assert(self.state().stack =~= old(self).state().push(name@, item@).stack);
    }

    fn pop(&mut self) {
        self.stack.pop();
        assert(self.state().stack =~= old(self).state().pop().stack);
    }
}

impl SetValue<String> for Context {
    fn set(&mut self, k: &str, v: String) -> (prev: Option<Rc<ContextValue>>)
        ensures
            final(self).state() == old(self).state().put(k@, Value::Text { text: v@ }),
            option_view(prev) == old(self).state().dict.get(k@),
    {
        self.put_item(k, ContextValue::String(v))
    }
}

impl SetValue<&str> for Context {
    fn set(&mut self, k: &str, v: &str) -> (prev: Option<Rc<ContextValue>>)
        ensures
            final(self).state() == old(self).state().put(k@, Value::Text { text: v@ }),
            option_view(prev) == old(self).state().dict.get(k@),
    {
        self.put_item(k, ContextValue::String(v.to_owned()))
    }
}

impl SetValue<bool> for Context {
    fn set(&mut self, k: &str, v: bool) -> (prev: Option<Rc<ContextValue>>)
        ensures
            final(self).state() == old(self).state().put(k@, Value::Bool { b: v }),
            option_view(prev) == old(self).state().dict.get(k@),
    {
        self.put_item(k, ContextValue::Bool(v))
    }
}

impl SetValue<i32> for Context {
    fn set(&mut self, k: &str, v: i32) -> (prev: Option<Rc<ContextValue>>)
        ensures
            final(self).state() == old(self).state().put(k@, Value::I32 { n: v }),
            option_view(prev) == old(self).state().dict.get(k@),
    {
        self.put_item(k, ContextValue::I32(v))
    }
}

impl SetValue<i64> for Context {
    fn set(&mut self, k: &str, v: i64) -> (prev: Option<Rc<ContextValue>>)
        ensures
            final(self).state() == old(self).state().put(k@, Value::I64 { n: v }),
            option_view(prev) == old(self).state().dict.get(k@),
    {
        self.put_item(k, ContextValue::I64(v))
    }
}

impl SetValue<Float> for Context {
    fn set(&mut self, k: &str, v: Float) -> (prev: Option<Rc<ContextValue>>)
        ensures
            final(self).state() == old(self).state().put(
                k@,
                Value::F64 { text: v.text@, nonzero: v.nonzero },
            ),
            option_view(prev) == old(self).state().dict.get(k@),
    {
        self.put_item(k, ContextValue::F64(v))
    }
}

impl SetValue<VecValue> for Context {
    fn set(&mut self, k: &str, v: VecValue) -> (prev: Option<Rc<ContextValue>>)
        ensures
            final(self).state() == old(self).state().put(k@, Value::List { items: items_view(v@) }),
            option_view(prev) == old(self).state().dict.get(k@),
    {
        self.put_item(k, ContextValue::VecValue(v))
    }
}

} // verus!
