//! The values that variables, inline parameters and expressions hold, how they are
//! written out, and how a JSON document becomes one.
use vstd::prelude::*;

use crate::json::{
    JsonKind, JsonModel, JsonNode, json_quote, json_string, node_bool, node_entries, node_i64,
    node_kind, node_number_text, node_str,
};
use crate::map::{OrderedMap, insert_sorted};
use crate::number::{display_number, number_display};
use crate::text::{append_chars, chars_of, decimal, int_chars, int_text, string_from};

verus! {

/// A value. A number that is not an `i64` is a floating-point number, held as the
/// text that `serde_json` writes for it (`1000.0`, `1.8446744073709552e+19`): its
/// JSON text is that text, and it is displayed in positional notation (`1000`,
/// `18446744073709552000`). An object's fields are kept sorted by name.
#[derive(Debug, PartialEq, Eq)]
pub enum Value {
    Null,
    Boolean(bool),
    Integer(i64),
    Number(String),
    String(String),
    Object(OrderedMap<Value>),
}

/// What a [`Value`] holds, with its texts as character sequences and an object as
/// its fields in name order.
pub enum ValueView {
    Null,
    Boolean(bool),
    Integer(i64),
    Number(Seq<char>),
    Text(Seq<char>),
    Object(Seq<(Seq<char>, ValueView)>),
}

impl Value {
    pub open spec fn view(&self) -> ValueView
        decreases self, 0nat,
    {
        match self {
            Value::Null => ValueView::Null,
            Value::Boolean(b) => ValueView::Boolean(*b),
            Value::Integer(i) => ValueView::Integer(*i),
            Value::Number(t) => ValueView::Number(t@),
            Value::String(s) => ValueView::Text(s@),
            Value::Object(m) => ValueView::Object(m.field_views()),
        }
    }
}

impl OrderedMap<Value> {
    /// The fields of an object map, each value by its view.
    pub closed spec fn field_views(&self) -> Seq<(Seq<char>, ValueView)>
        decreases self, 1nat,
    {
        views_from(self.entries@, 0)
    }
}

/// The pairs of `es` from `i` on, each value by its view.
pub closed spec fn views_from(es: Seq<(String, Value)>, i: int) -> Seq<(Seq<char>, ValueView)>
    decreases es, es.len() - i,
{
    if i < 0 || i >= es.len() {
        Seq::empty()
    } else {
        seq![(es[i].0@, es[i].1.view())] + views_from(es, i + 1)
    }
}

proof fn lemma_views_from(es: Seq<(String, Value)>, i: int)
    requires
        0 <= i <= es.len(),
    ensures
        views_from(es, i).len() == es.len() - i,
        forall|k: int|
            0 <= k < es.len() - i ==> #[trigger] views_from(es, i)[k] == (
                es[i + k].0@,
                es[i + k].1.view(),
            ),
    decreases es.len() - i,
{
    if i < es.len() {
        lemma_views_from(es, i + 1);
    }
}

/// The views of the values of `ps`, with their keys.
pub open spec fn view_pairs(ps: Seq<(Seq<char>, Value)>) -> Seq<(Seq<char>, ValueView)> {
    ps.map_values(|p: (Seq<char>, Value)| (p.0, p.1.view()))
}

proof fn lemma_field_views(m: &OrderedMap<Value>)
    ensures
        m.field_views() == view_pairs(m.pairs()),
{
    lemma_views_from(m.entries@, 0);
    m.lemma_pairs();
    assert(m.field_views() =~= view_pairs(m.pairs()));
}

proof fn lemma_insert_sorted_views(ps: Seq<(Seq<char>, Value)>, k: Seq<char>, v: Value)
    ensures
        view_pairs(insert_sorted(ps, k, v)) == insert_sorted(view_pairs(ps), k, v.view()),
    decreases ps.len(),
{
    if ps.len() > 0 {
        assert(view_pairs(ps).drop_first() =~= view_pairs(ps.drop_first()));
        if ps[0].0 == k {
            assert(view_pairs(seq![(k, v)] + ps.drop_first()) =~= seq![(k, v.view())]
                + view_pairs(ps).drop_first());
        } else if crate::map::key_lt(k, ps[0].0) {
            assert(view_pairs(seq![(k, v)] + ps) =~= seq![(k, v.view())] + view_pairs(ps));
        } else {
            lemma_insert_sorted_views(ps.drop_first(), k, v);
            assert(view_pairs(seq![ps[0]] + insert_sorted(ps.drop_first(), k, v)) =~= seq![
                view_pairs(ps)[0],
            ] + view_pairs(insert_sorted(ps.drop_first(), k, v)));
        }
    } else {
        assert(view_pairs(seq![(k, v)]) =~= seq![(k, v.view())]);
    }
}

pub open spec fn text_null() -> Seq<char> {
    seq!['n', 'u', 'l', 'l']
}

pub open spec fn text_bool(b: bool) -> Seq<char> {
    if b {
        seq!['t', 'r', 'u', 'e']
    } else {
        seq!['f', 'a', 'l', 's', 'e']
    }
}

/// How a value is displayed: `null`, `true`/`false`, an integer's digits, a number
/// in positional notation (see [`number_display`]), a string as it is, and an object
/// as `{` and its fields in name order, each the JSON string of its name, `:` and the
/// display of its value, separated by `,`, then `}`.
pub open spec fn display(v: ValueView) -> Seq<char>
    decreases v, 0nat,
{
    match v {
        ValueView::Null => text_null(),
        ValueView::Boolean(b) => text_bool(b),
        ValueView::Integer(i) => int_text(i as int),
        ValueView::Number(t) => number_display(t),
        ValueView::Text(s) => s,
        ValueView::Object(ps) => seq!['{'] + display_fields(ps, 0) + seq!['}'],
    }
}

/// The displayed fields of an object from the `i`-th on.
pub open spec fn display_fields(ps: Seq<(Seq<char>, ValueView)>, i: int) -> Seq<char>
    decreases ps, ps.len() - i,
{
    if i < 0 || i >= ps.len() {
        Seq::empty()
    } else {
        (if i > 0 {
            seq![',']
        } else {
            Seq::empty()
        }) + json_string(ps[i].0) + seq![':'] + display(ps[i].1) + display_fields(ps, i + 1)
    }
}

/// The JSON text of a value, as `serde_json` writes it: `null`, `true`/`false`, the
/// number's digits, a string as a JSON string, and an object as `{` and its fields in
/// name order, each the JSON string of its name, `:` and the JSON text of its value,
/// separated by `,`, then `}`.
pub open spec fn json_text(v: ValueView) -> Seq<char>
    decreases v, 0nat,
{
    match v {
        ValueView::Null => text_null(),
        ValueView::Boolean(b) => text_bool(b),
        ValueView::Integer(i) => int_text(i as int),
        ValueView::Number(t) => t,
        ValueView::Text(s) => json_string(s),
        ValueView::Object(ps) => seq!['{'] + json_fields(ps, 0) + seq!['}'],
    }
}

/// The JSON text of an object's fields from the `i`-th on.
pub open spec fn json_fields(ps: Seq<(Seq<char>, ValueView)>, i: int) -> Seq<char>
    decreases ps, ps.len() - i,
{
    if i < 0 || i >= ps.len() {
        Seq::empty()
    } else {
        (if i > 0 {
            seq![',']
        } else {
            Seq::empty()
        }) + json_string(ps[i].0) + seq![':'] + json_text(ps[i].1) + json_fields(ps, i + 1)
    }
}

/// The value a JSON document stands for, when it stands for one: arrays have no
/// value, and an object's fields are put in name order, a later duplicate name
/// replacing an earlier one.
pub open spec fn json_value(m: JsonModel) -> Option<ValueView>
    decreases m, 0nat,
{
    match m {
        JsonModel::Null => Some(ValueView::Null),
        JsonModel::Bool(b) => Some(ValueView::Boolean(b)),
        JsonModel::Int(i) => Some(ValueView::Integer(i)),
        JsonModel::Num(t) => Some(ValueView::Number(t)),
        JsonModel::Str(s) => Some(ValueView::Text(s)),
        JsonModel::Array(_) => None,
        JsonModel::Object(es) => match json_object_fields(es, 0, Seq::empty()) {
            Some(ps) => Some(ValueView::Object(ps)),
            None => None,
        },
    }
}

/// The fields of a JSON object from the `i`-th entry on, put into `acc` in name order.
pub open spec fn json_object_fields(
    es: Seq<(Seq<char>, JsonModel)>,
    i: int,
    acc: Seq<(Seq<char>, ValueView)>,
) -> Option<Seq<(Seq<char>, ValueView)>>
    decreases es, es.len() - i,
{
    if i < 0 || i >= es.len() {
        Some(acc)
    } else {
        match json_value(es[i].1) {
            Some(v) => json_object_fields(es, i + 1, insert_sorted(acc, es[i].0, v)),
            None => None,
        }
    }
}

/// The characters of `s`, appended to `out`.
fn push_text(out: &mut Vec<char>, s: &str)
    ensures
        final(out)@ == old(out)@ + s@,
{
    let c = chars_of(s);
    append_chars(out, &c);
}

impl Value {
    /// The display of the value (see [`display`]).
    pub fn to_string(&self) -> (r: String)
        ensures
            r@ == display(self.view()),
    {
        let c = self.display_chars();
        string_from(&c)
    }

    fn display_chars(&self) -> (r: Vec<char>)
        ensures
            r@ == display(self.view()),
        decreases self,
    {
        match self {
            Value::Null => {
                let mut r = Vec::new();
                push_text(&mut r, "null");
                proof {
                    reveal_strlit("null");
                }
                r
            },
            Value::Boolean(b) => {
                let mut r = Vec::new();
                if *b {
                    push_text(&mut r, "true");
                    proof {
                        reveal_strlit("true");
                    }
                } else {
                    push_text(&mut r, "false");
                    proof {
                        reveal_strlit("false");
                    }
                }
                r
            },
            Value::Integer(i) => int_chars(*i),
            Value::Number(t) => display_number(&chars_of(t.as_str())),
            Value::String(s) => chars_of(s.as_str()),
            Value::Object(m) => {
                proof {
                    lemma_views_from(m.entries@, 0);
                }
                let ghost ps = m.field_views();
                let mut r: Vec<char> = Vec::new();
                r.push('{');
                let mut i: usize = 0;
                while i < m.entries.len()
                    invariant
                        *self == Value::Object(*m),
                        i <= m.entries@.len(),
                        ps == m.field_views(),
                        ps.len() == m.entries@.len(),
                        forall|k: int|
                            0 <= k < ps.len() ==> #[trigger] ps[k] == (
                                m.entries@[k].0@,
                                m.entries@[k].1.view(),
                            ),
                        r@ + display_fields(ps, i as int) == seq!['{'] + display_fields(ps, 0),
                    decreases m.entries@.len() - i,
                {
                    let e = m.entry_ref(i);
                    let ghost before = r@;
                    if i > 0 {
                        r.push(',');
                    }
                    let q = json_quote(e.0.as_str());
                    push_text(&mut r, q.as_str());
                    r.push(':');
                    proof {
                        let es = m.entries;
                        assert(decreases_to!(*self => (*self)->Object_0));
                        assert(decreases_to!(*m => es));
                        assert(decreases_to!(es => es@));
                        assert(decreases_to!(es@ => es@[i as int]));
                        assert(decreases_to!(es@[i as int] => es@[i as int].1));
                        assert(decreases_to!(*self => m.entries@[i as int].1));
                    }
                    let d = e.1.display_chars();
                    append_chars(&mut r, &d);
                    assert(r@ == before + (if i > 0 {
                        seq![',']
                    } else {
                        Seq::empty()
                    }) + json_string(ps[i as int].0) + seq![':'] + display(ps[i as int].1));
                    i = i + 1;
                }
                r.push('}');
                assert(display_fields(ps, i as int) == Seq::<char>::empty());
                r
            },
        }
    }

    /// The JSON text of the value (see [`json_text`]).
    pub fn to_json(&self) -> (r: String)
        ensures
            r@ == json_text(self.view()),
    {
        let c = self.json_chars();
        string_from(&c)
    }

    pub(crate) fn json_chars(&self) -> (r: Vec<char>)
        ensures
            r@ == json_text(self.view()),
        decreases self,
    {
        match self {
            Value::String(s) => {
                let q = json_quote(s.as_str());
                let r = chars_of(q.as_str());
                r
            },
            Value::Object(m) => {
                proof {
                    lemma_views_from(m.entries@, 0);
                }
                let ghost ps = m.field_views();
                let mut r: Vec<char> = Vec::new();
                r.push('{');
                let mut i: usize = 0;
                while i < m.entries.len()
                    invariant
                        *self == Value::Object(*m),
                        i <= m.entries@.len(),
                        ps == m.field_views(),
                        ps.len() == m.entries@.len(),
                        forall|k: int|
                            0 <= k < ps.len() ==> #[trigger] ps[k] == (
                                m.entries@[k].0@,
                                m.entries@[k].1.view(),
                            ),
                        r@ + json_fields(ps, i as int) == seq!['{'] + json_fields(ps, 0),
                    decreases m.entries@.len() - i,
                {
                    let e = m.entry_ref(i);
                    let ghost before = r@;
                    if i > 0 {
                        r.push(',');
                    }
                    let q = json_quote(e.0.as_str());
                    push_text(&mut r, q.as_str());
                    r.push(':');
                    proof {
                        let es = m.entries;
                        assert(decreases_to!(*self => (*self)->Object_0));
                        assert(decreases_to!(*m => es));
                        assert(decreases_to!(es => es@));
                        assert(decreases_to!(es@ => es@[i as int]));
                        assert(decreases_to!(es@[i as int] => es@[i as int].1));
                        assert(decreases_to!(*self => m.entries@[i as int].1));
                    }
                    let d = e.1.json_chars();
                    append_chars(&mut r, &d);
                    assert(r@ == before + (if i > 0 {
                        seq![',']
                    } else {
                        Seq::empty()
                    }) + json_string(ps[i as int].0) + seq![':'] + json_text(ps[i as int].1));
                    i = i + 1;
                }
                r.push('}');
                assert(json_fields(ps, i as int) == Seq::<char>::empty());
                r
            },
            Value::Number(t) => chars_of(t.as_str()),
            _ => self.display_chars(),
        }
    }

    /// The value a parsed JSON node stands for (see [`json_value`]); `None` when it
    /// holds an array.
    pub fn from_json(n: &JsonNode) -> (r: Option<Value>)
        ensures
            r is Some <==> json_value(n.model()) is Some,
            r matches Some(v) ==> v.view() == json_value(n.model())->0,
        decreases n.model(),
    {
        match node_kind(n) {
            JsonKind::Null => Some(Value::Null),
            JsonKind::Bool => match node_bool(n) {
                Some(b) => Some(Value::Boolean(b)),
                None => None,
            },
            JsonKind::Number => match node_i64(n) {
                Some(i) => Some(Value::Integer(i)),
                None => match node_number_text(n) {
                    Some(t) => Some(Value::Number(t)),
                    None => None,
                },
            },
            JsonKind::String => match node_str(n) {
                Some(s) => Some(Value::String(s)),
                None => None,
            },
            JsonKind::Array => None,
            JsonKind::Object => {
                let entries = match node_entries(n) {
                    Some(es) => es,
                    None => {
                        return None;
                    },
                };
                let ghost es = match n.model() {
                    JsonModel::Object(es) => es,
                    _ => Seq::empty(),
                };
                let mut m: OrderedMap<Value> = OrderedMap::new();
                proof {
                    lemma_field_views(&m);
                    assert(m.field_views() =~= Seq::<(Seq<char>, ValueView)>::empty());
                }
                let mut i: usize = 0;
                while i < entries.len()
                    invariant
                        n.model() == JsonModel::Object(es),
                        entries@.len() == es.len(),
                        forall|k: int|
                            0 <= k < es.len() ==> (#[trigger] entries@[k]).0@ == es[k].0
                                && entries@[k].1.model() == es[k].1,
                        i <= es.len(),
                        json_object_fields(es, 0, Seq::empty()) == json_object_fields(
                            es,
                            i as int,
                            m.field_views(),
                        ),
                    decreases es.len() - i,
                {
                    let e = &entries[i];
                    assert(e.1.model() == es[i as int].1);
                    let v = match Value::from_json(&e.1) {
                        Some(v) => v,
                        None => {
                            return None;
                        },
                    };
                    let ghost before = m.pairs();
                    proof {
                        lemma_field_views(&m);
                        lemma_insert_sorted_views(before, e.0@, v);
                    }
                    m.insert(e.0.clone(), v);
                    proof {
                        lemma_field_views(&m);
                    }
                    i = i + 1;
                }
                Some(Value::Object(m))
            },
        }
    }
}

/// Stores `v` under `k` in an object map.
pub fn insert_value(m: &mut OrderedMap<Value>, k: String, v: Value)
    ensures
        final(m).field_views() == insert_sorted(old(m).field_views(), k@, v.view()),
{
    proof {
        lemma_field_views(m);
        lemma_insert_sorted_views(m.pairs(), k@, v);
    }
    m.insert(k, v);
    proof {
        lemma_field_views(m);
    }
}

/// A new empty object map.
pub fn empty_fields() -> (m: OrderedMap<Value>)
    ensures
        m.field_views() == Seq::<(Seq<char>, ValueView)>::empty(),
{
    let m = OrderedMap::new();
    proof {
        lemma_field_views(&m);
    }
    assert(m.field_views() =~= Seq::<(Seq<char>, ValueView)>::empty());
    m
}

/// The `i`-th field of an object map, with its value's view.
pub fn field(m: &OrderedMap<Value>, i: usize) -> (r: (&String, &Value))
    requires
        i < m.field_views().len(),
    ensures
        r.0@ == m.field_views()[i as int].0,
        r.1.view() == m.field_views()[i as int].1,
{
    proof {
        lemma_field_views(m);
    }
    m.entry(i)
}

/// The number of fields of an object map.
pub fn field_count(m: &OrderedMap<Value>) -> (n: usize)
    ensures
        n == m.field_views().len(),
{
    proof {
        lemma_field_views(m);
    }
    m.len()
}

impl From<bool> for Value {
    fn from(value: bool) -> (r: Value) {
        Value::Boolean(value)
    }
}

impl vstd::std_specs::convert::FromSpecImpl<bool> for Value {
    open spec fn obeys_from_spec() -> bool {
        true
    }

    open spec fn from_spec(v: bool) -> Value {
        Value::Boolean(v)
    }
}

impl From<i64> for Value {
    fn from(value: i64) -> (r: Value) {
        Value::Integer(value)
    }
}

impl vstd::std_specs::convert::FromSpecImpl<i64> for Value {
    open spec fn obeys_from_spec() -> bool {
        true
    }

    open spec fn from_spec(v: i64) -> Value {
        Value::Integer(v)
    }
}

impl From<String> for Value {
    fn from(value: String) -> (r: Value) {
        Value::String(value)
    }
}

impl vstd::std_specs::convert::FromSpecImpl<String> for Value {
    open spec fn obeys_from_spec() -> bool {
        true
    }

    open spec fn from_spec(v: String) -> Value {
        Value::String(v)
    }
}

impl From<OrderedMap<Value>> for Value {
    fn from(value: OrderedMap<Value>) -> (r: Value) {
        Value::Object(value)
    }
}

impl vstd::std_specs::convert::FromSpecImpl<OrderedMap<Value>> for Value {
    open spec fn obeys_from_spec() -> bool {
        true
    }

    open spec fn from_spec(v: OrderedMap<Value>) -> Value {
        Value::Object(v)
    }
}

} // verus!
