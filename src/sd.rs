//! Structured data trees and their indented text rendering.
//!
//! An [`Object`] holds its properties in ascending key order, so that a tree
//! prints the same way every time. Each object may carry the debug symbols that
//! were decoded for it: a table from property keys to names.

use vstd::prelude::*;
use vstd::string::StringExecFns;
use crate::text::{dec_text, signed_text, tabs, push_tabs, push_decimal, push_signed};

verus! {

broadcast use vstd::std_specs::vec::axiom_vec_index_decreases;

/// A structured data value. Floating point values are held as the decimal text
/// that std's `Display` gives for them.
pub enum Value {
    Null,
    Bool(bool),
    Uint8(u8),
    Uint16(u16),
    Uint32(u32),
    Uint64(u64),
    Int8(i8),
    Int16(i16),
    Int32(i32),
    Int64(i64),
    Float(String),
    Double(String),
    String(String),
    Array(Vec<Value>),
    Object(Object),
}

/// A structured data object: properties keyed by a 64-bit hash, and the debug
/// symbols decoded for the object (`None` when it has none, or they did not decode).
pub struct Object {
    pub props: Vec<(u64, Value)>,
    pub symbols: Option<Vec<(u64, String)>>,
}

/// Replacing the property that has `key` leaves the other properties as they were.
proof fn lemma_set_after_update(before: Seq<(u64, Value)>, i: int, key: u64, value: Value)
    requires
        0 <= i < before.len(),
        before[i].0 == key,
        forall|a: int, b: int| 0 <= a < b < before.len() ==> #[trigger] before[a].0 < #[trigger] before[b].0,
    ensures
        before.update(i, (key, value)).to_set() == before.to_set().filter(|p: (u64, Value)| p.0 != key).insert(
            (key, value),
        ),
{
    let after = before.update(i, (key, value));
    let expected = before.to_set().filter(|p: (u64, Value)| p.0 != key).insert((key, value));
    assert forall|p: (u64, Value)| after.to_set().contains(p) <==> expected.contains(p) by {
        if after.to_set().contains(p) {
            let j = choose|j: int| 0 <= j < after.len() && after[j] == p;
            if j != i {
                assert(before[j] == p);
                assert(before.to_set().contains(p));
                assert(j < i ==> before[j].0 < before[i].0);
                assert(j > i ==> before[i].0 < before[j].0);
            }
        }
        if expected.contains(p) {
            if p == (key, value) {
                assert(after[i] == p);
            } else {
                let j = choose|j: int| 0 <= j < before.len() && before[j] == p;
                assert(j != i);
                assert(after[j] == p);
            }
        }
    }
    assert(after.to_set() =~= expected);
}

/// Adding a property whose key no property has keeps all the others.
proof fn lemma_set_after_insert(before: Seq<(u64, Value)>, i: int, key: u64, value: Value)
    requires
        0 <= i <= before.len(),
        forall|j: int| 0 <= j < before.len() ==> before[j].0 != key,
    ensures
        before.insert(i, (key, value)).to_set() == before.to_set().filter(|p: (u64, Value)| p.0 != key).insert(
            (key, value),
        ),
{
    let after = before.insert(i, (key, value));
    let expected = before.to_set().filter(|p: (u64, Value)| p.0 != key).insert((key, value));
    assert forall|p: (u64, Value)| after.to_set().contains(p) <==> expected.contains(p) by {
        if after.to_set().contains(p) {
            let j = choose|j: int| 0 <= j < after.len() && after[j] == p;
            if j < i {
                assert(before[j] == p);
            } else if j > i {
                assert(before[j - 1] == p);
            }
        }
        if expected.contains(p) {
            if p == (key, value) {
                assert(after[i] == p);
            } else {
                let j = choose|j: int| 0 <= j < before.len() && before[j] == p;
                if j < i {
                    assert(after[j] == p);
                } else {
                    assert(after[j + 1] == p);
                }
            }
        }
    }
    assert(after.to_set() =~= expected);
}

impl Object {
    /// Keys are strictly ascending.
    pub open spec fn wf(&self) -> bool {
        forall|i: int, j: int|
            0 <= i < j < self.props@.len() ==> #[trigger] self.props@[i].0 < #[trigger] self.props@[j].0
    }

    /// An empty object without debug symbols.
    pub fn new() -> (r: Object)
        ensures
            r.wf(),
            r.props@.len() == 0,
            r.symbols is None,
    {
        Object { props: Vec::new(), symbols: None }
    }

    /// Sets property `key` to `value`, replacing the value that it had.
    pub fn insert(&mut self, key: u64, value: Value)
        requires
            old(self).wf(),
        ensures
            final(self).wf(),
            final(self).symbols == old(self).symbols,
            final(self).props@.to_set() == old(self).props@.to_set().filter(|p: (u64, Value)| p.0 != key).insert(
                (key, value),
            ),
    {
        let n = self.props.len();
        let mut i: usize = 0;
        while i < n && self.props[i].0 < key
            invariant
                n == self.props@.len(),
                i <= n,
                forall|j: int| 0 <= j < i ==> self.props@[j].0 < key,
            decreases n - i,
        {
            i = i + 1;
        }
        let ghost before = self.props@;
        if i < n && self.props[i].0 == key {
            self.props.set(i, (key, value));
            proof {
                let after = self.props@;
                assert(after[i as int] == (key, value));
                assert forall|a: int, b: int| 0 <= a < b < after.len() implies #[trigger] after[a].0 < #[trigger] after[b].0 by {
                    assert(before[a].0 < before[b].0);
                }
                assert(after =~= before.update(i as int, (key, value)));
                lemma_set_after_update(before, i as int, key, value);
            }
        } else {
            self.props.insert(i, (key, value));
            proof {
                let after = self.props@;
                assert(after[i as int] == (key, value));
                assert forall|j: int| 0 <= j < i implies after[j] == before[j] by {}
                assert forall|j: int| i < j < after.len() implies after[j] == before[j - 1] by {}
                assert forall|a: int, b: int| 0 <= a < b < after.len() implies #[trigger] after[a].0 < #[trigger] after[b].0 by {
                    if b == i {
                        assert(before[a].0 < key);
                    } else if a == i {
                        assert(after[b] == before[b - 1]);
                        assert(before[b - 1].0 >= key);
                        assert(before[b - 1].0 != key);
                    } else if a > i {
                        assert(before[a - 1].0 < before[b - 1].0);
                    } else if b > i {
                        assert(before[a].0 < before[b - 1].0);
                    } else {
                        assert(before[a].0 < before[b].0);
                    }
                }
                assert forall|j: int| 0 <= j < before.len() implies before[j].0 != key by {
                    if j >= i {
                        assert(j == i || before[i as int].0 < before[j].0);
                    }
                }
                assert(after =~= before.insert(i as int, (key, value)));
                lemma_set_after_insert(before, i as int, key, value);
            }
        }
    }
}


/// The name that a symbol table gives to `key`: its first entry with that key.
pub open spec fn lookup_symbol(table: Seq<(u64, String)>, key: u64) -> Option<Seq<char>>
    decreases table.len(),
{
    if table.len() == 0 {
        None
    } else if table[0].0 == key {
        Some(table[0].1@)
    } else {
        lookup_symbol(table.drop_first(), key)
    }
}

/// How a property key is shown: its symbol name where the table has one, else
/// the key in decimal.
pub open spec fn key_text(symbols: Option<Vec<(u64, String)>>, key: u64) -> Seq<char> {
    match symbols {
        Some(table) => match lookup_symbol(table@, key) {
            Some(name) => name,
            None => dec_text(key as nat),
        },
        None => dec_text(key as nat),
    }
}

/// The text of a value whose container stands at `layer`. Scalars take one line;
/// an object or an array is printed one layer deeper.
pub open spec fn render_value(layer: nat, v: Value) -> Seq<char>
    decreases v, 0nat,
{
    match v {
        Value::Null => "NULL\n"@,
        Value::Bool(b) => if b { "true\n"@ } else { "false\n"@ },
        Value::Uint8(x) => "(Uint8) "@ + dec_text(x as nat) + "\n"@,
        Value::Uint16(x) => "(Uint16) "@ + dec_text(x as nat) + "\n"@,
        Value::Uint32(x) => "(Uint32) "@ + dec_text(x as nat) + "\n"@,
        Value::Uint64(x) => "(Uint64) "@ + dec_text(x as nat) + "\n"@,
        Value::Int8(x) => "(Int8) "@ + signed_text(x as int) + "\n"@,
        Value::Int16(x) => "(Int16) "@ + signed_text(x as int) + "\n"@,
        Value::Int32(x) => "(Int32) "@ + signed_text(x as int) + "\n"@,
        Value::Int64(x) => "(Int64) "@ + signed_text(x as int) + "\n"@,
        Value::Float(t) => "(Float) "@ + t@ + "\n"@,
        Value::Double(t) => "(Double) "@ + t@ + "\n"@,
        Value::String(t) => t@ + "\n"@,
        Value::Array(a) => render_array(layer + 1, a),
        Value::Object(o) => render_object(layer + 1, o),
    }
}

/// The first `n` items of an array at `layer`, one after the other.
pub open spec fn render_items(layer: nat, a: Vec<Value>, n: nat) -> Seq<char>
    decreases a, n,
{
    if n == 0 || n > a@.len() {
        Seq::empty()
    } else {
        render_items(layer, a, (n - 1) as nat) + render_value(layer, a@[n - 1])
    }
}

/// An array whose items stand at `layer`: `[`, the items, and `]` indented by
/// `layer - 1` tabs.
pub open spec fn render_array(layer: nat, a: Vec<Value>) -> Seq<char>
    decreases a, a@.len() + 1,
{
    "[\n"@ + render_items(layer, a, a@.len()) + tabs((layer - 1) as nat) + "]\n"@
}

/// The line of property `p` of an object at `layer`: `layer` tabs, a space, the
/// key as `key_text` shows it, then the value.
pub open spec fn render_prop(layer: nat, symbols: Option<Vec<(u64, String)>>, p: (u64, Value)) -> Seq<char>
    decreases p, 0nat,
{
    tabs(layer) + " "@ + key_text(symbols, p.0) + render_value(layer, p.1)
}

/// The first `n` properties of an object at `layer`.
pub open spec fn render_props(
    layer: nat,
    symbols: Option<Vec<(u64, String)>>,
    props: Vec<(u64, Value)>,
    n: nat,
) -> Seq<char>
    decreases props, n,
{
    if n == 0 || n > props@.len() {
        Seq::empty()
    } else {
        render_props(layer, symbols, props, (n - 1) as nat) + render_prop(layer, symbols, props@[n - 1])
    }
}

/// An object whose properties stand at `layer`: `{`, one line per property in
/// order, and `}` indented by `layer - 1` tabs.
pub open spec fn render_object(layer: nat, o: Object) -> Seq<char>
    decreases o, 1nat,
{
    "{\n"@ + render_props(layer, o.symbols, o.props, o.props@.len()) + tabs((layer - 1) as nat) + "}\n"@
}


/// How many containers a value opens, itself included: 0 for a scalar.
pub open spec fn value_depth(v: Value) -> nat
    decreases v, 0nat,
{
    match v {
        Value::Array(a) => 1 + items_depth(a, a@.len()),
        Value::Object(o) => 1 + props_depth(o.props, o.props@.len()),
        _ => 0,
    }
}

/// The greatest depth among the first `n` items of an array.
pub open spec fn items_depth(a: Vec<Value>, n: nat) -> nat
    decreases a, n,
{
    if n == 0 || n > a@.len() {
        0
    } else {
        let rest = items_depth(a, (n - 1) as nat);
        let d = value_depth(a@[n - 1]);
        if rest >= d { rest } else { d }
    }
}

/// The greatest depth among the values of the first `n` properties.
pub open spec fn props_depth(props: Vec<(u64, Value)>, n: nat) -> nat
    decreases props, n,
{
    if n == 0 || n > props@.len() {
        0
    } else {
        let rest = props_depth(props, (n - 1) as nat);
        let d = value_depth(props@[n - 1].1);
        if rest >= d { rest } else { d }
    }
}

/// How deep the containers inside an object go.
pub open spec fn object_depth(o: Object) -> nat {
    props_depth(o.props, o.props@.len())
}

proof fn lemma_items_depth_bound(a: Vec<Value>, n: nat, i: int)
    requires
        0 <= i < n <= a@.len(),
    ensures
        value_depth(a@[i]) <= items_depth(a, n),
        items_depth(a, (i + 1) as nat) <= items_depth(a, n),
    decreases n,
{
    if i + 1 < n {
        lemma_items_depth_bound(a, (n - 1) as nat, i);
    }
}

proof fn lemma_props_depth_bound(props: Vec<(u64, Value)>, n: nat, i: int)
    requires
        0 <= i < n <= props@.len(),
    ensures
        value_depth(props@[i].1) <= props_depth(props, n),
        props_depth(props, (i + 1) as nat) <= props_depth(props, n),
    decreases n,
{
    if i + 1 < n {
        lemma_props_depth_bound(props, (n - 1) as nat, i);
    }
}

/// `a + b` when it fits in a `usize`, else `usize::MAX`.
fn add_capped(a: usize, b: usize) -> (r: usize)
    ensures
        r as int == if a + b <= usize::MAX { a + b } else { usize::MAX as int },
{
    if a <= usize::MAX - b { a + b } else { usize::MAX }
}

/// The larger of `a` and `b`.
fn larger(a: usize, b: usize) -> (r: usize)
    ensures
        r == if a >= b { a } else { b },
{
    if a >= b { a } else { b }
}

/// The nesting depth of a value, or `usize::MAX` where it does not fit.
pub fn value_depth_capped(v: &Value) -> (r: usize)
    ensures
        r as int == if value_depth(*v) <= usize::MAX { value_depth(*v) as int } else { usize::MAX as int },
    decreases v,
{
    match v {
        Value::Array(a) => {
            let mut d: usize = 0;
            let mut i: usize = 0;
            while i < a.len()
                invariant
                    *v == Value::Array(*a),
                    i <= a@.len(),
                    d as int == if items_depth(*a, i as nat) <= usize::MAX { items_depth(*a, i as nat) as int } else { usize::MAX as int },
                decreases a@.len() - i,
            {
                proof {
                    assert(decreases_to!(*v => v->Array_0));
                    assert(decreases_to!(v->Array_0 => v->Array_0[i as int]));
                }
                let e = value_depth_capped(&a[i]);
                d = larger(d, e);
                i = i + 1;
            }
            add_capped(1, d)
        },
        Value::Object(o) => {
            let d = o.depth();
            add_capped(1, d)
        },
        _ => 0,
    }
}

impl Object {
    /// The nesting depth of the object, or `usize::MAX` where it does not fit.
    pub fn depth(&self) -> (r: usize)
        ensures
            r as int == if object_depth(*self) <= usize::MAX { object_depth(*self) as int } else { usize::MAX as int },
        decreases self,
    {
        let mut d: usize = 0;
        let mut i: usize = 0;
        while i < self.props.len()
            invariant
                i <= self.props@.len(),
                d as int == if props_depth(self.props, i as nat) <= usize::MAX { props_depth(self.props, i as nat) as int } else { usize::MAX as int },
            decreases self.props@.len() - i,
        {
            let e = value_depth_capped(&self.props[i].1);
            d = larger(d, e);
            i = i + 1;
        }
        d
    }
}

/// The name that `table` gives to `key`, if any.
fn find_symbol(table: &Vec<(u64, String)>, key: u64) -> (r: Option<&String>)
    ensures
        match r {
            Some(name) => lookup_symbol(table@, key) == Some(name@),
            None => lookup_symbol(table@, key) is None,
        },
{
    let mut i: usize = 0;
    assert(table@.subrange(0, table@.len() as int) =~= table@);
    while i < table.len()
        invariant
            i <= table@.len(),
            lookup_symbol(table@.subrange(i as int, table@.len() as int), key) == lookup_symbol(table@, key),
        decreases table@.len() - i,
    {
        let ghost rest = table@.subrange(i as int, table@.len() as int);
        if table[i].0 == key {
            assert(rest[0] == table@[i as int]);
            return Some(&table[i].1);
        }
        assert(rest.drop_first() =~= table@.subrange(i + 1, table@.len() as int));
        i = i + 1;
    }
    assert(table@.subrange(i as int, table@.len() as int).len() == 0);
    None
}

/// Appends the text of `key` as `key_text` shows it.
fn push_key(out: &mut String, symbols: &Option<Vec<(u64, String)>>, key: u64)
    ensures
        final(out)@ == old(out)@ + key_text(*symbols, key),
{
    match symbols {
        Some(table) => match find_symbol(table, key) {
            Some(name) => out.append(name.as_str()),
            None => push_decimal(out, key),
        },
        None => push_decimal(out, key),
    }
}

/// Appends the text of `value`, whose container stands at `layer`.
pub fn print_value(layer: usize, value: &Value, out: &mut String)
    requires
        layer + value_depth(*value) <= usize::MAX,
    ensures
        final(out)@ == old(out)@ + render_value(layer as nat, *value),
    decreases value,
{
    match value {
        Value::Null => out.append("NULL\n"),
        Value::Bool(b) => {
            if *b {
                out.append("true\n");
            } else {
                out.append("false\n");
            }
        },
        Value::Uint8(x) => {
            out.append("(Uint8) ");
            push_decimal(out, *x as u64);
            out.append("\n");
        },
        Value::Uint16(x) => {
            out.append("(Uint16) ");
            push_decimal(out, *x as u64);
            out.append("\n");
        },
        Value::Uint32(x) => {
            out.append("(Uint32) ");
            push_decimal(out, *x as u64);
            out.append("\n");
        },
        Value::Uint64(x) => {
            out.append("(Uint64) ");
            push_decimal(out, *x);
            out.append("\n");
        },
        Value::Int8(x) => {
            out.append("(Int8) ");
            push_signed(out, *x as i64);
            out.append("\n");
        },
        Value::Int16(x) => {
            out.append("(Int16) ");
            push_signed(out, *x as i64);
            out.append("\n");
        },
        Value::Int32(x) => {
            out.append("(Int32) ");
            push_signed(out, *x as i64);
            out.append("\n");
        },
        Value::Int64(x) => {
            out.append("(Int64) ");
            push_signed(out, *x);
            out.append("\n");
        },
        Value::Float(t) => {
            out.append("(Float) ");
            out.append(t.as_str());
            out.append("\n");
        },
        Value::Double(t) => {
            out.append("(Double) ");
            out.append(t.as_str());
            out.append("\n");
        },
        Value::String(t) => {
            out.append(t.as_str());
            out.append("\n");
        },
        Value::Array(a) => {
            proof {
                assert(decreases_to!(*value => value->Array_0));
            }
            print_array(layer + 1, a, out);
        },
        Value::Object(o) => {
            proof {
                assert(decreases_to!(*value => value->Object_0));
            }
            print_object(layer + 1, o, out);
        },
    }
    assert(final(out)@ =~= old(out)@ + render_value(layer as nat, *value));
}

/// Appends an array whose items stand at `layer`: `[`, each item, and `]`
/// indented by one tab less than the items.
pub fn print_array(layer: usize, array: &Vec<Value>, out: &mut String)
    requires
        1 <= layer,
        layer + items_depth(*array, array@.len()) <= usize::MAX,
    ensures
        final(out)@ == old(out)@ + render_array(layer as nat, *array),
    decreases array,
{
    out.append("[\n");
    let ghost start = out@;
    let mut i: usize = 0;
    while i < array.len()
        invariant
            1 <= layer,
            layer + items_depth(*array, array@.len()) <= usize::MAX,
            i <= array@.len(),
            out@ == start + render_items(layer as nat, *array, i as nat),
        decreases array@.len() - i,
    {
        proof {
            assert(decreases_to!(*array => array[i as int]));
            lemma_items_depth_bound(*array, array@.len(), i as int);
        }
        print_value(layer, &array[i], out);
        assert(render_items(layer as nat, *array, (i + 1) as nat)
            == render_items(layer as nat, *array, i as nat) + render_value(layer as nat, array@[i as int]));
        assert(out@ =~= start + render_items(layer as nat, *array, (i + 1) as nat));
        i = i + 1;
    }
    push_tabs(out, layer - 1);
    out.append("]\n");
    assert(final(out)@ =~= old(out)@ + render_array(layer as nat, *array));
}

/// Appends an object whose properties stand at `layer`: `{`, then for each
/// property `layer` tabs, a space, its key (the symbol name where the object's
/// debug symbols have one) and its value, and `}` indented by one tab less.
pub fn print_object(layer: usize, object: &Object, out: &mut String)
    requires
        1 <= layer,
        layer + object_depth(*object) <= usize::MAX,
    ensures
        final(out)@ == old(out)@ + render_object(layer as nat, *object),
    decreases object,
{
    out.append("{\n");
    let ghost start = out@;
    let mut i: usize = 0;
    while i < object.props.len()
        invariant
            1 <= layer,
            layer + object_depth(*object) <= usize::MAX,
            i <= object.props@.len(),
            out@ == start + render_props(layer as nat, object.symbols, object.props, i as nat),
        decreases object.props@.len() - i,
    {
        proof {
            assert(decreases_to!(*object => object.props));
            assert(decreases_to!(object.props => object.props[i as int]));
            assert(decreases_to!(object.props[i as int] => object.props[i as int].1));
            lemma_props_depth_bound(object.props, object.props@.len(), i as int);
        }
        let ghost line_start = out@;
        push_tabs(out, layer);
        out.append(" ");
        push_key(out, &object.symbols, object.props[i].0);
        print_value(layer, &object.props[i].1, out);
        assert(out@ =~= line_start + render_prop(layer as nat, object.symbols, object.props@[i as int]));
        assert(render_props(layer as nat, object.symbols, object.props, (i + 1) as nat)
            == render_props(layer as nat, object.symbols, object.props, i as nat)
                + render_prop(layer as nat, object.symbols, object.props@[i as int]));
        assert(out@ =~= start + render_props(layer as nat, object.symbols, object.props, (i + 1) as nat));
        i = i + 1;
    }
    push_tabs(out, layer - 1);
    out.append("}\n");
    assert(final(out)@ =~= old(out)@ + render_object(layer as nat, *object));
}

/// Printing is deterministic: two prints of the same object at the same layer
/// give the same text, whatever text they were appended to.
pub proof fn lemma_print_deterministic(layer: nat, o: Object, before1: Seq<char>, after1: Seq<char>, before2: Seq<char>, after2: Seq<char>)
    requires
        after1 == before1 + render_object(layer, o),
        after2 == before2 + render_object(layer, o),
    ensures
        after1.subrange(before1.len() as int, after1.len() as int)
            == after2.subrange(before2.len() as int, after2.len() as int),
{
    assert(after1.subrange(before1.len() as int, after1.len() as int) =~= render_object(layer, o));
    assert(after2.subrange(before2.len() as int, after2.len() as int) =~= render_object(layer, o));
}

/// Two property lists with strictly ascending keys and the same properties are the same list.
proof fn lemma_sorted_unique(a: Seq<(u64, Value)>, b: Seq<(u64, Value)>)
    requires
        forall|i: int, j: int| 0 <= i < j < a.len() ==> #[trigger] a[i].0 < #[trigger] a[j].0,
        forall|i: int, j: int| 0 <= i < j < b.len() ==> #[trigger] b[i].0 < #[trigger] b[j].0,
        a.to_set() == b.to_set(),
    ensures
        a == b,
    decreases a.len(),
{
    if a.len() == 0 {
        if b.len() > 0 {
            assert(b.to_set().contains(b[0]));
        }
        assert(a =~= b);
    } else {
        assert(a.to_set().contains(a[0]));
        let j = choose|j: int| 0 <= j < b.len() && b[j] == a[0];
        assert(b.to_set().contains(b[0]));
        let i = choose|i: int| 0 <= i < a.len() && a[i] == b[0];
        assert(i == 0) by {
            if i > 0 {
                assert(a[0].0 < a[i].0);
                assert(j == 0 || b[0].0 < b[j].0);
            }
        }
        let a2 = a.drop_first();
        let b2 = b.drop_first();
        assert forall|p: (u64, Value)| a2.to_set().contains(p) <==> b2.to_set().contains(p) by {
            if a2.to_set().contains(p) {
                let k = choose|k: int| 0 <= k < a2.len() && a2[k] == p;
                assert(a[k + 1] == p);
                assert(a[0].0 < a[k + 1].0);
                assert(b.to_set().contains(p));
                let m = choose|m: int| 0 <= m < b.len() && b[m] == p;
                assert(m != 0);
                assert(b2[m - 1] == p);
            }
            if b2.to_set().contains(p) {
                let k = choose|k: int| 0 <= k < b2.len() && b2[k] == p;
                assert(b[k + 1] == p);
                assert(b[0].0 < b[k + 1].0);
                assert(a.to_set().contains(p));
                let m = choose|m: int| 0 <= m < a.len() && a[m] == p;
                assert(m != 0);
                assert(a2[m - 1] == p);
            }
        }
        assert(a2.to_set() =~= b2.to_set());
        assert forall|x: int, y: int| 0 <= x < y < a2.len() implies #[trigger] a2[x].0 < #[trigger] a2[y].0 by {
            assert(a[x + 1].0 < a[y + 1].0);
        }
        assert forall|x: int, y: int| 0 <= x < y < b2.len() implies #[trigger] b2[x].0 < #[trigger] b2[y].0 by {
            assert(b[x + 1].0 < b[y + 1].0);
        }
        lemma_sorted_unique(a2, b2);
        assert(a[0] == b[0]);
        assert(a.len() == b.len());
        assert forall|k: int| 0 <= k < a.len() implies a[k] == b[k] by {
            if k > 0 {
                assert(a[k] == a2[k - 1]);
                assert(b[k] == b2[k - 1]);
            }
        }
        assert(a =~= b);
    }
}

proof fn lemma_props_same_view(
    layer: nat,
    symbols: Option<Vec<(u64, String)>>,
    a: Vec<(u64, Value)>,
    b: Vec<(u64, Value)>,
    n: nat,
)
    requires
        a@ == b@,
    ensures
        render_props(layer, symbols, a, n) == render_props(layer, symbols, b, n),
    decreases n,
{
    if n > 0 && n <= a@.len() {
        lemma_props_same_view(layer, symbols, a, b, (n - 1) as nat);
    }
}

/// The text of an object depends on its set of properties and its debug
/// symbols alone, not on the order in which the properties were inserted.
pub proof fn lemma_print_order_free(layer: nat, a: Object, b: Object)
    requires
        a.wf(),
        b.wf(),
        a.props@.to_set() == b.props@.to_set(),
        a.symbols == b.symbols,
    ensures
        render_object(layer, a) == render_object(layer, b),
{
    lemma_sorted_unique(a.props@, b.props@);
    lemma_props_same_view(layer, a.symbols, a.props, b.props, a.props@.len());
}

/// `tabs(n)` is `n` tab characters.
pub proof fn lemma_tabs(n: nat)
    ensures
        tabs(n).len() == n,
        forall|j: int| 0 <= j < n ==> tabs(n)[j] == '\t',
    decreases n,
{
    if n > 0 {
        lemma_tabs((n - 1) as nat);
    }
}

/// The text of every value ends with a line break.
pub proof fn lemma_value_ends_line(layer: nat, v: Value)
    ensures
        render_value(layer, v).len() > 0,
        render_value(layer, v).last() == '\n',
{
    reveal_strlit("\n");
    reveal_strlit("NULL\n");
    reveal_strlit("true\n");
    reveal_strlit("false\n");
    reveal_strlit("]\n");
    reveal_strlit("}\n");
    match v {
        Value::Array(a) => {
            let t = render_array(layer + 1, a);
            assert(t == ("[\n"@ + render_items(layer + 1, a, a@.len()) + tabs(layer)) + "]\n"@);
        },
        Value::Object(o) => {
            let t = render_object(layer + 1, o);
            assert(t == ("{\n"@ + render_props(layer + 1, o.symbols, o.props, o.props@.len()) + tabs(layer))
                + "}\n"@);
        },
        _ => {},
    }
}

/// The properties before property `i` end a line (or nothing comes before it
/// but the opening brace's line).
proof fn lemma_props_prefix(layer: nat, o: Object, n: nat)
    requires
        n <= o.props@.len(),
    ensures
        ("{\n"@ + render_props(layer, o.symbols, o.props, n)).last() == '\n',
{
    reveal_strlit("{\n");
    if n > 0 {
        let p = o.props@[n - 1];
        lemma_value_ends_line(layer, p.1);
        let line = render_prop(layer, o.symbols, p);
        assert(line == (tabs(layer) + " "@ + key_text(o.symbols, p.0)) + render_value(layer, p.1));
    }
}

/// `render_props` of a longer run extends that of a shorter one by `rest`.
proof fn lemma_props_extend(layer: nat, symbols: Option<Vec<(u64, String)>>, props: Vec<(u64, Value)>, i: nat, n: nat) -> (rest: Seq<char>)
    requires
        i <= n <= props@.len(),
    ensures
        render_props(layer, symbols, props, n) == render_props(layer, symbols, props, i) + rest,
    decreases n - i,
{
    if i == n {
        assert(render_props(layer, symbols, props, n) =~= render_props(layer, symbols, props, i) + Seq::empty());
        Seq::empty()
    } else {
        let rest = lemma_props_extend(layer, symbols, props, i, (n - 1) as nat);
        let last = render_prop(layer, symbols, props@[n - 1]);
        assert(render_props(layer, symbols, props, n) =~= render_props(layer, symbols, props, i) + (rest + last));
        rest + last
    }
}

/// Indentation follows nesting: in an object printed at `layer`, the line of
/// every property starts after a line break with exactly `layer` tabs, then a
/// space; an object or array held in a property is printed at `layer + 1`.
pub proof fn lemma_indentation(layer: nat, o: Object, i: int) -> (parts: (Seq<char>, Seq<char>))
    requires
        0 <= i < o.props@.len(),
    ensures
        render_object(layer, o) == parts.0 + render_prop(layer, o.symbols, o.props@[i]) + parts.1,
        parts.0.len() > 0,
        parts.0.last() == '\n',
        render_prop(layer, o.symbols, o.props@[i]).subrange(0, layer as int) == tabs(layer),
        render_prop(layer, o.symbols, o.props@[i])[layer as int] == ' ',
        o.props@[i].1 matches Value::Object(inner) ==> render_value(layer, o.props@[i].1) == render_object(layer + 1, inner),
        o.props@[i].1 matches Value::Array(items) ==> render_value(layer, o.props@[i].1) == render_array(layer + 1, items),
{
    reveal_strlit(" ");
    reveal_strlit("{\n");
    lemma_tabs(layer);
    let n = o.props@.len();
    let line = render_prop(layer, o.symbols, o.props@[i]);
    let head = tabs(layer) + " "@;
    assert(line == head + (key_text(o.symbols, o.props@[i].0) + render_value(layer, o.props@[i].1)));
    assert(head.len() == layer + 1);
    assert(line.subrange(0, layer as int) =~= tabs(layer));
    assert(line[layer as int] == head[layer as int]);
    let before = "{\n"@ + render_props(layer, o.symbols, o.props, i as nat);
    lemma_props_prefix(layer, o, i as nat);
    let rest = lemma_props_extend(layer, o.symbols, o.props, (i + 1) as nat, n);
    assert(render_props(layer, o.symbols, o.props, (i + 1) as nat)
        == render_props(layer, o.symbols, o.props, i as nat) + line);
    let after = rest + tabs((layer - 1) as nat) + "}\n"@;
    assert(render_object(layer, o) =~= before + line + after);
    (before, after)
}

} // verus!
