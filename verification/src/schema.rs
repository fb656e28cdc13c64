//! Declaring which nodes and keys a document may contain:
//! `Schema::builder()...build()`, and the same shape one level down for
//! [`NodeSchema`]. There is no schema file format: a host declares its
//! schema with this builder.
//!
//! Names map to declarations in insertion order; declaring a name again
//! replaces its declaration in place.

use vstd::prelude::*;
use std::rc::Rc;
use crate::entry::{entry_span, Entry, NodeEntry};
use crate::number::{promoted_float_text, push_promoted_float};
use crate::span::Span;
use crate::text::{byte_len, chars_of, push_str};
use crate::value::{kind_name_of, same_value, Value};

verus! {

// ---------------------------------------------------------------------
// Value types
// ---------------------------------------------------------------------

/// A host-defined type: checks (and may normalise) a value that already
/// has one of the built-in literal types, usually a string or a number.
///
/// An implementation that is verified here can say, by `keeps_promises`,
/// that its `name` and `validate` keep the promises below, stated over
/// `spec_name`, `rejects` and `normalized`, which it then defines. For an
/// implementation that does not (any one written outside Verus), nothing
/// is assumed of what its methods return, and what the library states
/// about checking and validation against it is stated only where every
/// custom type keeps its promises.
pub trait CustomType {
    /// Whether the implementation's methods keep the promises below.
    closed spec fn keeps_promises() -> bool {
        false
    }

    /// The type's name, as its diagnostics write it.
    closed spec fn spec_name(&self) -> Seq<char> {
        seq![]
    }

    /// The message with which the type rejects `value`, if it does.
    closed spec fn rejects(&self, value: Value) -> Option<Seq<char>> {
        None
    }

    /// The value the type hands back for `value` when it accepts it.
    closed spec fn normalized(&self, value: Value) -> Value {
        value
    }

    /// The type's name, used in diagnostics (`expected percentage, ...`).
    fn name(&self) -> (s: &str)
        ensures
            Self::keeps_promises() ==> s@ == self.spec_name(),
    ;

    /// Checks `value`, handing back its normalised form (or the value
    /// unchanged), or a message saying what is wrong with it.
    fn validate(&self, value: &Value) -> (r: Result<Value, String>)
        ensures
            Self::keeps_promises() ==> (r is Err <==> self.rejects(*value) is Some),
            Self::keeps_promises() ==> (r matches Err(m) ==> self.rejects(*value) == Some(m@)),
            Self::keeps_promises() ==> (r matches Ok(v) ==> same_value(self.normalized(*value), v)),
    ;
}

/// The custom type of a schema that declares none: it accepts every value.
#[derive(Debug, Clone, Copy, PartialEq, Eq)]
pub struct NoCustom;

impl CustomType for NoCustom {
    open spec fn keeps_promises() -> bool {
        true
    }

    open spec fn spec_name(&self) -> Seq<char> {
        "any"@
    }

    open spec fn rejects(&self, value: Value) -> Option<Seq<char>> {
        None
    }

    open spec fn normalized(&self, value: Value) -> Value {
        value
    }

    fn name(&self) -> (s: &str) {
        "any"
    }

    fn validate(&self, value: &Value) -> (r: Result<Value, String>) {
        Ok(value.clone())
    }
}

/// The type a key's value must have.
pub enum ValueType<C = NoCustom> {
    String,
    Integer,
    /// A float; an integer is accepted too, promoted to a float.
    Float,
    Boolean,
    Color,
    Duration,
    List(Box<ValueType<C>>),
    /// Accepts any value.
    Any,
    Custom(Rc<C>),
}

impl<C: CustomType> Clone for ValueType<C> {
    fn clone(&self) -> (r: Self)
        ensures
            r == *self,
        decreases self,
    {
        match self {
            ValueType::String => ValueType::String,
            ValueType::Integer => ValueType::Integer,
            ValueType::Float => ValueType::Float,
            ValueType::Boolean => ValueType::Boolean,
            ValueType::Color => ValueType::Color,
            ValueType::Duration => ValueType::Duration,
            ValueType::List(inner) => ValueType::List(Box::new((**inner).clone())),
            ValueType::Any => ValueType::Any,
            ValueType::Custom(c) => ValueType::Custom(Rc::clone(c)),
        }
    }
}

/// A built-in type that is not a list.
pub open spec fn plain_type<C: CustomType>(t: ValueType<C>) -> bool {
    !(t is List) && !(t is Custom)
}

/// The name of a built-in type that is not a list.
pub open spec fn plain_type_name<C: CustomType>(t: ValueType<C>) -> Seq<char> {
    match t {
        ValueType::String => "string"@,
        ValueType::Integer => "integer"@,
        ValueType::Float => "float"@,
        ValueType::Boolean => "boolean"@,
        ValueType::Color => "color"@,
        ValueType::Duration => "duration"@,
        _ => "any"@,
    }
}

/// What validation checks a value against a built-in type accepts: a
/// value of that type, a float also an integer, and `any` everything;
/// every other value is rejected as a mismatch that names both types.
pub proof fn lemma_plain_types_accept_their_own_values<C: CustomType>(t: ValueType<C>, v: Value)
    requires
        plain_type(t),
    ensures
        t is String ==> (check_failure(t, v) is None <==> v is Str),
        t is Integer ==> (check_failure(t, v) is None <==> v is Int),
        t is Float ==> (check_failure(t, v) is None <==> (v is Float || v is Int)),
        t is Boolean ==> (check_failure(t, v) is None <==> v is Bool),
        t is Color ==> (check_failure(t, v) is None <==> v is Color),
        t is Duration ==> (check_failure(t, v) is None <==> v is Duration),
        t is Any ==> check_failure(t, v) is None,
        check_failure(t, v) matches Some(m) ==> m == "expected "@ + plain_type_name(t) + ", found "@
            + kind_name_of(v),
{
}

/// A value's kind is named as the built-in type that accepts it is: an
/// integer as `integer`, a float as `float`, and so on, so that a mismatch
/// message names the two sides alike.
pub proof fn lemma_kind_names_match_type_names(v: Value)
    ensures
        v is Str ==> kind_name_of(v) == plain_type_name(ValueType::<NoCustom>::String),
        v is Int ==> kind_name_of(v) == plain_type_name(ValueType::<NoCustom>::Integer),
        v is Float ==> kind_name_of(v) == plain_type_name(ValueType::<NoCustom>::Float),
        v is Bool ==> kind_name_of(v) == plain_type_name(ValueType::<NoCustom>::Boolean),
        v is Color ==> kind_name_of(v) == plain_type_name(ValueType::<NoCustom>::Color),
        v is Duration ==> kind_name_of(v) == plain_type_name(ValueType::<NoCustom>::Duration),
{
}

/// Every custom type within `t` keeps its promises.
pub open spec fn keeps<C: CustomType>(t: ValueType<C>) -> bool
    decreases t,
{
    match t {
        ValueType::Custom(_) => C::keeps_promises(),
        ValueType::List(inner) => keeps(*inner),
        _ => true,
    }
}

/// Where the custom type keeps its promises, every type does.
pub proof fn lemma_keeps<C: CustomType>(t: ValueType<C>)
    requires
        C::keeps_promises(),
    ensures
        keeps(t),
    decreases t,
{
    if let ValueType::List(inner) = t {
        lemma_keeps(*inner);
    }
}

/// The name of a plain type, as diagnostics write it.
pub open spec fn type_name_text<C: CustomType>(t: ValueType<C>) -> Seq<char>
    decreases t,
{
    match t {
        ValueType::String => "string"@,
        ValueType::Integer => "integer"@,
        ValueType::Float => "float"@,
        ValueType::Boolean => "boolean"@,
        ValueType::Color => "color"@,
        ValueType::Duration => "duration"@,
        ValueType::List(inner) => "list of "@ + type_name_text(*inner),
        ValueType::Any => "any"@,
        ValueType::Custom(c) => (*c).spec_name(),
    }
}

pub open spec fn mismatch_text<C: CustomType>(t: ValueType<C>, v: Value) -> Seq<char> {
    "expected "@ + type_name_text(t) + ", found "@ + kind_name_of(v)
}

/// What checking a value against a plain type reports: `None` when the
/// value is accepted, else the message. A list is checked item by item,
/// and the first item that fails gives the message.
pub open spec fn check_failure<C: CustomType>(t: ValueType<C>, v: Value) -> Option<Seq<char>>
    decreases t, 0nat,
{
    match t {
        ValueType::String => if v is Str {
            None
        } else {
            Some(mismatch_text(t, v))
        },
        ValueType::Integer => if v is Int {
            None
        } else {
            Some(mismatch_text(t, v))
        },
        ValueType::Float => if v is Float || v is Int {
            None
        } else {
            Some(mismatch_text(t, v))
        },
        ValueType::Boolean => if v is Bool {
            None
        } else {
            Some(mismatch_text(t, v))
        },
        ValueType::Color => if v is Color {
            None
        } else {
            Some(mismatch_text(t, v))
        },
        ValueType::Duration => if v is Duration {
            None
        } else {
            Some(mismatch_text(t, v))
        },
        ValueType::List(inner) => match v {
            Value::List(items) => first_failure(*inner, items@),
            _ => Some(mismatch_text(t, v)),
        },
        ValueType::Any => None,
        ValueType::Custom(c) => (*c).rejects(v),
    }
}

/// `w` is what checking `v` against `t` hands back: the value itself for a
/// built-in type, except that `float` promotes an integer to the nearest
/// float, as `{}` prints it; what a custom type normalises it to; and for
/// a list, item by item.
pub open spec fn checks_to<C: CustomType>(t: ValueType<C>, v: Value, w: Value) -> bool
    decreases t, 0nat, 0int,
{
    match t {
        ValueType::List(inner) => match (v, w) {
            (Value::List(xs), Value::List(ys)) => xs@.len() == ys@.len() && all_check_to(
                *inner,
                xs@,
                ys@,
                xs@.len() as int,
            ),
            _ => false,
        },
        ValueType::Float => match v {
            Value::Int(i) => w matches Value::Float(s) && s@ == promoted_float_text(i as int),
            _ => same_value(v, w),
        },
        ValueType::Custom(c) => same_value((*c).normalized(v), w),
        _ => same_value(v, w),
    }
}

/// The first `n` items of `xs` check against `t` to those of `ys`.
pub open spec fn all_check_to<C: CustomType>(t: ValueType<C>, xs: Seq<Value>, ys: Seq<Value>, n: int) -> bool
    decreases t, 1nat, n,
{
    if n <= 0 || n > xs.len() {
        true
    } else {
        all_check_to(t, xs, ys, n - 1) && checks_to(t, xs[n - 1], ys[n - 1])
    }
}

proof fn lemma_all_check_to_intro<C: CustomType>(t: ValueType<C>, xs: Seq<Value>, ys: Seq<Value>, n: int)
    requires
        0 <= n <= xs.len(),
        forall|k: int| 0 <= k < n ==> #[trigger] checks_to(t, xs[k], ys[k]),
    ensures
        all_check_to(t, xs, ys, n),
    decreases n,
{
    if n > 0 {
        lemma_all_check_to_intro(t, xs, ys, n - 1);
        assert(checks_to(t, xs[n - 1], ys[n - 1]));
    }
}

/// The message of the first item of `items` that `t` rejects.
pub open spec fn first_failure<C: CustomType>(t: ValueType<C>, items: Seq<Value>) -> Option<Seq<char>>
    decreases t, items.len() + 1,
{
    if items.len() == 0 {
        None
    } else {
        match check_failure(t, items[0]) {
            Some(m) => Some(m),
            None => first_failure(t, items.drop_first()),
        }
    }
}

impl<C: CustomType> ValueType<C> {
    /// The type's name, as diagnostics write it.
    pub fn name(&self) -> (s: String)
        ensures
            keeps(*self) ==> s@ == type_name_text(*self),
        decreases self,
    {
        match self {
            ValueType::String => "string".to_owned(),
            ValueType::Integer => "integer".to_owned(),
            ValueType::Float => "float".to_owned(),
            ValueType::Boolean => "boolean".to_owned(),
            ValueType::Color => "color".to_owned(),
            ValueType::Duration => "duration".to_owned(),
            ValueType::List(inner) => {
                let mut s = "list of ".to_owned();
                let n = inner.name();
                push_str(&mut s, n.as_str());
                s
            },
            ValueType::Any => "any".to_owned(),
            ValueType::Custom(c) => c.name().to_owned(),
        }
    }

    fn mismatch(&self, value: &Value) -> (m: String)
        ensures
            keeps(*self) ==> m@ == mismatch_text(*self, *value),
    {
        let mut m = "expected ".to_owned();
        let n = self.name();
        push_str(&mut m, n.as_str());
        push_str(&mut m, ", found ");
        push_str(&mut m, value.kind_name());
        m
    }

    /// Checks `value` against this type, handing back the value (checked
    /// item by item for a list, normalised by a custom type) or what is
    /// wrong with it.
    pub fn check(&self, value: &Value) -> (r: Result<Value, String>)
        ensures
            keeps(*self) ==> (r is Ok <==> check_failure(*self, *value) is None),
            keeps(*self) ==> (r matches Ok(v) ==> checks_to(*self, *value, v)),
            keeps(*self) ==> (r matches Err(m) ==> check_failure(*self, *value) == Some(m@)),
            *self is String ==> (r is Ok <==> *value is Str),
            *self is Integer ==> (r is Ok <==> *value is Int),
            *self is Float ==> (r is Ok <==> (*value is Float || *value is Int)),
            *self is Boolean ==> (r is Ok <==> *value is Bool),
            *self is Color ==> (r is Ok <==> *value is Color),
            *self is Duration ==> (r is Ok <==> *value is Duration),
            *self is Any ==> r is Ok,
            plain_type(*self) ==> (r matches Err(m) ==> m@ == "expected "@ + plain_type_name(*self)
                + ", found "@ + kind_name_of(*value)),
        decreases self,
    {
        match self {
            ValueType::String => match value {
                Value::Str(_) => Ok(value.clone()),
                _ => Err(self.mismatch(value)),
            },
            ValueType::Integer => match value {
                Value::Int(_) => Ok(value.clone()),
                _ => Err(self.mismatch(value)),
            },
            ValueType::Float => match value {
                Value::Float(_) => Ok(value.clone()),
                Value::Int(i) => {
                    let mut text = String::new();
                    push_promoted_float(&mut text, *i);
                    Ok(Value::Float(text))
                },
                _ => Err(self.mismatch(value)),
            },
            ValueType::Boolean => match value {
                Value::Bool(_) => Ok(value.clone()),
                _ => Err(self.mismatch(value)),
            },
            ValueType::Color => match value {
                Value::Color(_) => Ok(value.clone()),
                _ => Err(self.mismatch(value)),
            },
            ValueType::Duration => match value {
                Value::Duration(_) => Ok(value.clone()),
                _ => Err(self.mismatch(value)),
            },
            ValueType::List(inner) => match value {
                Value::List(items) => {
                    let mut out: Vec<Value> = Vec::new();
                    let mut i: usize = 0;
                    assert(items@.skip(0) =~= items@);
                    while i < items.len()
                        invariant
                            *self == ValueType::List(*inner),
                            *value == Value::List(*items),
                            i <= items@.len(),
                            out@.len() == i,
                            keeps(**inner) ==> first_failure(**inner, items@) == first_failure(
                                **inner,
                                items@.skip(i as int),
                            ),
                            keeps(**inner) ==> forall|k: int|
                                0 <= k < i ==> checks_to(**inner, #[trigger] items@[k], out@[k]),
                        decreases items@.len() - i,
                    {
                        proof {
                            assert(items@.skip(i as int).drop_first() =~= items@.skip(i + 1));
                            assert(items@.skip(i as int)[0] == items@[i as int]);
                            assert(decreases_to!(*self => **inner));
                        }
                        match inner.check(&items[i]) {
                            Ok(v) => out.push(v),
                            Err(m) => {
                                assert(keeps(**inner) ==> first_failure(**inner, items@.skip(i as int))
                                    == Some(m@));
                                return Err(m);
                            },
                        }
                        i += 1;
                    }
                    proof {
                        assert(items@.skip(i as int).len() == 0);
                        if keeps(**inner) {
                            lemma_all_check_to_intro(**inner, items@, out@, i as int);
                        }
                    }
                    Ok(Value::List(out))
                },
                _ => Err(self.mismatch(value)),
            },
            ValueType::Any => Ok(value.clone()),
            ValueType::Custom(c) => c.validate(value),
        }
    }
}

// ---------------------------------------------------------------------
// Declarations by name
// ---------------------------------------------------------------------

/// The declaration that `name` maps to in a list of named declarations
/// (the first one under that name).
pub open spec fn lookup<V>(s: Seq<(String, V)>, name: Seq<char>) -> Option<V>
    decreases s.len(),
{
    if s.len() == 0 {
        None
    } else if s[0].0@ == name {
        Some(s[0].1)
    } else {
        lookup(s.drop_first(), name)
    }
}

/// The names of a list of named declarations, in order.
pub open spec fn names_of<V>(s: Seq<(String, V)>) -> Seq<Seq<char>> {
    s.map_values(|p: (String, V)| p.0@)
}

/// The index of the declaration that `name` maps to, if any.
pub(crate) fn find_name<V>(list: &Vec<(String, V)>, name: &String) -> (r: Option<usize>)
    ensures
        r is None <==> lookup(list@, name@) is None,
        r matches Some(i) ==> i < list@.len() && list@[i as int].0@ == name@ && lookup(list@, name@)
            == Some(list@[i as int].1),
        r matches Some(i) ==> forall|j: int| 0 <= j < i ==> list@[j].0@ != name@,
{
    let mut i: usize = 0;
    assert(list@.skip(0) =~= list@);
    while i < list.len()
        invariant
            i <= list@.len(),
            lookup(list@, name@) == lookup(list@.skip(i as int), name@),
            forall|j: int| 0 <= j < i ==> list@[j].0@ != name@,
        decreases list@.len() - i,
    {
        assert(list@.skip(i as int)[0] == list@[i as int]);
        if list[i].0 == *name {
            return Some(i);
        }
        assert(list@.skip(i as int).drop_first() =~= list@.skip(i + 1));
        i += 1;
    }
    None
}

/// Looking a name up among one more declaration: an earlier one wins.
pub proof fn lemma_lookup_take_step<V>(s: Seq<(String, V)>, i: int, name: Seq<char>)
    requires
        0 <= i < s.len(),
    ensures
        lookup(s.take(i + 1), name) == match lookup(s.take(i), name) {
            Some(v) => Some(v),
            None => if s[i].0@ == name {
                Some(s[i].1)
            } else {
                None
            },
        },
    decreases i,
{
    reveal_with_fuel(lookup, 2);
    if i > 0 {
        lemma_lookup_take_step(s.drop_first(), i - 1, name);
        assert(s.take(i + 1).drop_first() =~= s.drop_first().take(i));
        assert(s.take(i).drop_first() =~= s.drop_first().take(i - 1));
        assert(s.take(i + 1)[0] == s[0]);
        assert(s.take(i)[0] == s[0]);
        assert(s.drop_first()[i - 1] == s[i]);
    } else {
        assert(s.take(1).drop_first().len() == 0);
        assert(s.take(1)[0] == s[0]);
        assert(s.take(0).len() == 0);
    }
}

proof fn lemma_lookup_update<V>(s: Seq<(String, V)>, i: int, p: (String, V), name: Seq<char>)
    requires
        0 <= i < s.len(),
        s[i].0@ == p.0@,
        forall|j: int| 0 <= j < i ==> s[j].0@ != p.0@,
    ensures
        lookup(s.update(i, p), name) == if name == p.0@ {
            Some(p.1)
        } else {
            lookup(s, name)
        },
    decreases i,
{
    if i > 0 {
        lemma_lookup_update(s.drop_first(), i - 1, p, name);
        assert(s.update(i, p).drop_first() =~= s.drop_first().update(i - 1, p));
        assert(s.update(i, p)[0] == s[0]);
        assert(s[0].0@ != p.0@);
    } else {
        assert(s.update(i, p).drop_first() =~= s.drop_first());
        assert(s.update(i, p)[0] == p);
    }
}

proof fn lemma_lookup_push<V>(s: Seq<(String, V)>, p: (String, V), name: Seq<char>)
    requires
        lookup(s, p.0@) is None,
    ensures
        lookup(s.push(p), name) == if name == p.0@ {
            Some(p.1)
        } else {
            lookup(s, name)
        },
    decreases s.len(),
{
    if s.len() == 0 {
        assert(s.push(p).drop_first() =~= Seq::<(String, V)>::empty());
        assert(s.push(p)[0] == p);
        reveal_with_fuel(lookup, 2);
    } else {
        assert(s[0].0@ != p.0@);
        lemma_lookup_push(s.drop_first(), p, name);
        assert(s.push(p).drop_first() =~= s.drop_first().push(p));
        assert(s.push(p)[0] == s[0]);
    }
}

/// Declares `name` as `v`: replaces the declaration under that name, or
/// adds one after the others.
pub(crate) fn declare<V>(list: &mut Vec<(String, V)>, name: String, v: V)
    ensures
        forall|k: Seq<char>|
            lookup(final(list)@, k) == if k == name@ {
                Some(v)
            } else {
                lookup(old(list)@, k)
            },
{
    match find_name(list, &name) {
        Some(i) => {
            let ghost p = (name, v);
            proof {
                assert forall|k: Seq<char>|
                    lookup(old(list)@.update(i as int, p), k) == if k == name@ {
                        Some(v)
                    } else {
                        lookup(old(list)@, k)
                    } by {
                    lemma_lookup_update(old(list)@, i as int, p, k);
                }
            }
            list.set(i, (name, v));
        },
        None => {
            let ghost p = (name, v);
            proof {
                assert forall|k: Seq<char>|
                    lookup(old(list)@.push(p), k) == if k == name@ {
                        Some(v)
                    } else {
                        lookup(old(list)@, k)
                    } by {
                    lemma_lookup_push(old(list)@, p, k);
                }
            }
            list.push((name, v));
        },
    }
}

// ---------------------------------------------------------------------
// Schemas and their builders
// ---------------------------------------------------------------------

/// What a repeated key inside a node means.
#[derive(Debug, Clone, Copy, PartialEq, Eq, Structural)]
pub enum DuplicateKeyPolicy {
    /// A repeated key is a validation error.
    Error,
    /// A repeated key is allowed; the last occurrence is authoritative.
    LastWins,
    /// A repeated key is allowed; the first occurrence is authoritative.
    FirstWins,
}

pub struct KeySchema<C = NoCustom> {
    pub value_type: ValueType<C>,
    pub required: bool,
}

impl<C: CustomType> Clone for KeySchema<C> {
    fn clone(&self) -> (r: Self)
        ensures
            r == *self,
    {
        KeySchema { value_type: self.value_type.clone(), required: self.required }
    }
}

/// What a node may contain.
pub struct NodeSchema<C = NoCustom> {
    pub(crate) keys: Vec<(String, KeySchema<C>)>,
    pub(crate) children: Vec<(String, NodeSchema<C>)>,
    pub(crate) allow_unknown_keys: bool,
    pub(crate) duplicate_key_policy: DuplicateKeyPolicy,
}

impl<C: CustomType> NodeSchema<C> {
    pub closed spec fn spec_keys(&self) -> Seq<(String, KeySchema<C>)> {
        self.keys@
    }

    pub closed spec fn spec_children(&self) -> Seq<(String, NodeSchema<C>)> {
        self.children@
    }

    pub closed spec fn spec_allow_unknown_keys(&self) -> bool {
        self.allow_unknown_keys
    }

    pub closed spec fn spec_policy(&self) -> DuplicateKeyPolicy {
        self.duplicate_key_policy
    }

    pub fn builder() -> (b: NodeSchemaBuilder<C>)
        ensures
            b.spec_schema().spec_keys().len() == 0,
            b.spec_schema().spec_children().len() == 0,
            !b.spec_schema().spec_allow_unknown_keys(),
            b.spec_schema().spec_policy() == DuplicateKeyPolicy::Error,
    {
        NodeSchemaBuilder::new()
    }
}

pub struct NodeSchemaBuilder<C = NoCustom> {
    inner: NodeSchema<C>,
}

impl<C: CustomType> NodeSchemaBuilder<C> {
    /// The schema built so far.
    pub closed spec fn spec_schema(&self) -> NodeSchema<C> {
        self.inner
    }

    /// A node that declares nothing, refuses unknown keys and reports
    /// repeated keys.
    pub fn new() -> (b: Self)
        ensures
            b.spec_schema().spec_keys().len() == 0,
            b.spec_schema().spec_children().len() == 0,
            !b.spec_schema().spec_allow_unknown_keys(),
            b.spec_schema().spec_policy() == DuplicateKeyPolicy::Error,
    {
        NodeSchemaBuilder {
            inner: NodeSchema {
                keys: Vec::new(),
                children: Vec::new(),
                allow_unknown_keys: false,
                duplicate_key_policy: DuplicateKeyPolicy::Error,
            },
        }
    }

    /// Declares an optional key.
    pub fn key(self, name: &str, value_type: ValueType<C>) -> (b: Self)
        ensures
            forall|k: Seq<char>|
                lookup(b.spec_schema().spec_keys(), k) == if k == name@ {
                    Some(KeySchema { value_type, required: false })
                } else {
                    lookup(self.spec_schema().spec_keys(), k)
                },
            b.spec_schema().spec_children() == self.spec_schema().spec_children(),
            b.spec_schema().spec_allow_unknown_keys() == self.spec_schema().spec_allow_unknown_keys(),
            b.spec_schema().spec_policy() == self.spec_schema().spec_policy(),
    {
        let mut b = self;
        declare(&mut b.inner.keys, name.to_owned(), KeySchema { value_type, required: false });
        b
    }

    /// Declares a required key: missing it is a validation error.
    pub fn required_key(self, name: &str, value_type: ValueType<C>) -> (b: Self)
        ensures
            forall|k: Seq<char>|
                lookup(b.spec_schema().spec_keys(), k) == if k == name@ {
                    Some(KeySchema { value_type, required: true })
                } else {
                    lookup(self.spec_schema().spec_keys(), k)
                },
            b.spec_schema().spec_children() == self.spec_schema().spec_children(),
            b.spec_schema().spec_allow_unknown_keys() == self.spec_schema().spec_allow_unknown_keys(),
            b.spec_schema().spec_policy() == self.spec_schema().spec_policy(),
    {
        let mut b = self;
        declare(&mut b.inner.keys, name.to_owned(), KeySchema { value_type, required: true });
        b
    }

    /// Declares a node that may stand in this node's body.
    pub fn node(self, name: &str, schema: NodeSchema<C>) -> (b: Self)
        ensures
            forall|k: Seq<char>|
                lookup(b.spec_schema().spec_children(), k) == if k == name@ {
                    Some(schema)
                } else {
                    lookup(self.spec_schema().spec_children(), k)
                },
            b.spec_schema().spec_keys() == self.spec_schema().spec_keys(),
            b.spec_schema().spec_allow_unknown_keys() == self.spec_schema().spec_allow_unknown_keys(),
            b.spec_schema().spec_policy() == self.spec_schema().spec_policy(),
    {
        let mut b = self;
        declare(&mut b.inner.children, name.to_owned(), schema);
        b
    }

    pub fn allow_unknown_keys(self, allow: bool) -> (b: Self)
        ensures
            b.spec_schema().spec_allow_unknown_keys() == allow,
            b.spec_schema().spec_keys() == self.spec_schema().spec_keys(),
            b.spec_schema().spec_children() == self.spec_schema().spec_children(),
            b.spec_schema().spec_policy() == self.spec_schema().spec_policy(),
    {
        let mut b = self;
        b.inner.allow_unknown_keys = allow;
        b
    }

    pub fn duplicate_key_policy(self, policy: DuplicateKeyPolicy) -> (b: Self)
        ensures
            b.spec_schema().spec_policy() == policy,
            b.spec_schema().spec_keys() == self.spec_schema().spec_keys(),
            b.spec_schema().spec_children() == self.spec_schema().spec_children(),
            b.spec_schema().spec_allow_unknown_keys() == self.spec_schema().spec_allow_unknown_keys(),
    {
        let mut b = self;
        b.inner.duplicate_key_policy = policy;
        b
    }

    pub fn build(self) -> (s: NodeSchema<C>)
        ensures
            s == self.spec_schema(),
    {
        self.inner
    }
}

/// What a document may contain at its top level.
pub struct Schema<C = NoCustom> {
    pub(crate) nodes: Vec<(String, NodeSchema<C>)>,
    pub(crate) root_keys: Vec<(String, KeySchema<C>)>,
    pub(crate) allow_unknown_nodes: bool,
}

impl<C: CustomType> Schema<C> {
    pub closed spec fn spec_nodes(&self) -> Seq<(String, NodeSchema<C>)> {
        self.nodes@
    }

    pub closed spec fn spec_root_keys(&self) -> Seq<(String, KeySchema<C>)> {
        self.root_keys@
    }

    pub closed spec fn spec_allow_unknown_nodes(&self) -> bool {
        self.allow_unknown_nodes
    }

    pub fn builder() -> (b: SchemaBuilder<C>)
        ensures
            b.spec_schema().spec_nodes().len() == 0,
            b.spec_schema().spec_root_keys().len() == 0,
            !b.spec_schema().spec_allow_unknown_nodes(),
    {
        SchemaBuilder::new()
    }
}

pub struct SchemaBuilder<C = NoCustom> {
    inner: Schema<C>,
}

impl<C: CustomType> SchemaBuilder<C> {
    /// The schema built so far.
    pub closed spec fn spec_schema(&self) -> Schema<C> {
        self.inner
    }

    /// A schema that declares nothing and refuses unknown nodes.
    pub fn new() -> (b: Self)
        ensures
            b.spec_schema().spec_nodes().len() == 0,
            b.spec_schema().spec_root_keys().len() == 0,
            !b.spec_schema().spec_allow_unknown_nodes(),
    {
        SchemaBuilder {
            inner: Schema { nodes: Vec::new(), root_keys: Vec::new(), allow_unknown_nodes: false },
        }
    }

    /// Declares a top-level node.
    pub fn node(self, name: &str, schema: NodeSchema<C>) -> (b: Self)
        ensures
            forall|k: Seq<char>|
                lookup(b.spec_schema().spec_nodes(), k) == if k == name@ {
                    Some(schema)
                } else {
                    lookup(self.spec_schema().spec_nodes(), k)
                },
            b.spec_schema().spec_root_keys() == self.spec_schema().spec_root_keys(),
            b.spec_schema().spec_allow_unknown_nodes() == self.spec_schema().spec_allow_unknown_nodes(),
    {
        let mut b = self;
        declare(&mut b.inner.nodes, name.to_owned(), schema);
        b
    }

    /// Declares an optional top-level leaf key (outside any node).
    pub fn key(self, name: &str, value_type: ValueType<C>) -> (b: Self)
        ensures
            forall|k: Seq<char>|
                lookup(b.spec_schema().spec_root_keys(), k) == if k == name@ {
                    Some(KeySchema { value_type, required: false })
                } else {
                    lookup(self.spec_schema().spec_root_keys(), k)
                },
            b.spec_schema().spec_nodes() == self.spec_schema().spec_nodes(),
            b.spec_schema().spec_allow_unknown_nodes() == self.spec_schema().spec_allow_unknown_nodes(),
    {
        let mut b = self;
        declare(&mut b.inner.root_keys, name.to_owned(), KeySchema { value_type, required: false });
        b
    }

    /// Declares a required top-level leaf key.
    pub fn required_key(self, name: &str, value_type: ValueType<C>) -> (b: Self)
        ensures
            forall|k: Seq<char>|
                lookup(b.spec_schema().spec_root_keys(), k) == if k == name@ {
                    Some(KeySchema { value_type, required: true })
                } else {
                    lookup(self.spec_schema().spec_root_keys(), k)
                },
            b.spec_schema().spec_nodes() == self.spec_schema().spec_nodes(),
            b.spec_schema().spec_allow_unknown_nodes() == self.spec_schema().spec_allow_unknown_nodes(),
    {
        let mut b = self;
        declare(&mut b.inner.root_keys, name.to_owned(), KeySchema { value_type, required: true });
        b
    }

    pub fn allow_unknown_nodes(self, allow: bool) -> (b: Self)
        ensures
            b.spec_schema().spec_allow_unknown_nodes() == allow,
            b.spec_schema().spec_nodes() == self.spec_schema().spec_nodes(),
            b.spec_schema().spec_root_keys() == self.spec_schema().spec_root_keys(),
    {
        let mut b = self;
        b.inner.allow_unknown_nodes = allow;
        b
    }

    pub fn build(self) -> (s: Schema<C>)
        ensures
            s == self.spec_schema(),
    {
        self.inner
    }
}


// ---------------------------------------------------------------------
// Typo suggestions
// ---------------------------------------------------------------------

pub open spec fn min3(a: int, b: int, c: int) -> int {
    if a <= b && a <= c {
        a
    } else if b <= c {
        b
    } else {
        c
    }
}

/// The Levenshtein (edit) distance: the fewest single-character insertions,
/// deletions and substitutions that turn `a` into `b`.
pub open spec fn lev(a: Seq<char>, b: Seq<char>) -> nat
    decreases a.len() + b.len(),
{
    if a.len() == 0 {
        b.len()
    } else if b.len() == 0 {
        a.len()
    } else {
        min3(
            lev(a.drop_last(), b) + 1int,
            lev(a, b.drop_last()) + 1int,
            lev(a.drop_last(), b.drop_last()) + (if a.last() == b.last() {
                0int
            } else {
                1int
            }),
        ) as nat
    }
}

proof fn lemma_lev_bound(a: Seq<char>, b: Seq<char>)
    ensures
        lev(a, b) <= a.len() || lev(a, b) <= b.len(),
        lev(a, b) <= (if a.len() >= b.len() {
            a.len()
        } else {
            b.len()
        }),
    decreases a.len() + b.len(),
{
    if a.len() > 0 && b.len() > 0 {
        lemma_lev_bound(a.drop_last(), b.drop_last());
    }
}

/// The edit distance between `a` and `b`, one row of the table at a time.
fn levenshtein(a: &[char], b: &[char]) -> (d: usize)
    ensures
        d == lev(a@, b@),
{
    let m = b.len();
    let mut row: Vec<usize> = Vec::new();
    row.push(0);
    let mut j: usize = 0;
    while j < m
        invariant
            j <= m,
            m == b@.len(),
            row@.len() == j + 1,
            forall|k: int| 0 <= k <= j ==> row@[k] == lev(a@.take(0), b@.take(k)),
        decreases m - j,
    {
        j += 1;
        row.push(j);
    }
    let mut i: usize = 0;
    while i < a.len()
        invariant
            i <= a@.len(),
            m == b@.len(),
            row@.len() == m + 1,
            forall|k: int| 0 <= k <= m ==> row@[k] == lev(a@.take(i as int), b@.take(k)),
        decreases a@.len() - i,
    {
        let ghost ai = a@.take(i + 1);
        let ghost ap = a@.take(i as int);
        assert(ai.drop_last() =~= ap);
        let mut prev_diag = row[0];
        row.set(0, i + 1);
        let mut j: usize = 0;
        while j < m
            invariant
                i < a@.len(),
                j <= m,
                m == b@.len(),
                row@.len() == m + 1,
                ai == a@.take(i + 1),
                ap == a@.take(i as int),
                ai.drop_last() == ap,
                prev_diag == lev(ap, b@.take(j as int)),
                forall|k: int| 0 <= k <= j ==> row@[k] == lev(ai, b@.take(k)),
                forall|k: int| j < k <= m ==> row@[k] == lev(ap, b@.take(k)),
            decreases m - j,
        {
            let ghost bj = b@.take(j + 1);
            assert(bj.drop_last() =~= b@.take(j as int));
            assert(ai.last() == a@[i as int]);
            assert(bj.last() == b@[j as int]);
            proof {
                lemma_lev_bound(ai, bj);
            }
            let cost: usize = if a[i] == b[j] { 0 } else { 1 };
            let up_left = prev_diag;
            prev_diag = row[j + 1];
            let del = row[j + 1].saturating_add(1);
            let ins = row[j].saturating_add(1);
            let sub = up_left.saturating_add(cost);
            let best = if del <= ins && del <= sub {
                del
            } else if ins <= sub {
                ins
            } else {
                sub
            };
            assert(best == lev(ai, bj));
            row.set(j + 1, best);
            j += 1;
        }
        i += 1;
    }
    assert(a@.take(a@.len() as int) =~= a@);
    assert(b@.take(m as int) =~= b@);
    row[m]
}

/// Whether a candidate is close enough to `name` to be worth suggesting:
/// a distance of one or two edits, and less than the longer of the two
/// names' byte lengths.
pub open spec fn close_enough(name: Seq<char>, c: Seq<char>) -> bool {
    let d = lev(name, c);
    &&& 0 < d <= 2
    &&& (d < byte_len(name) || d < byte_len(c))
}

/// The candidate to suggest for `name`: the first of the closest ones
/// that are close enough, if any.
pub open spec fn suggestion(name: Seq<char>, cands: Seq<Seq<char>>) -> Option<Seq<char>>
    decreases cands.len(),
{
    if cands.len() == 0 {
        None
    } else {
        let rest = suggestion(name, cands.drop_last());
        let c = cands.last();
        if !close_enough(name, c) {
            rest
        } else {
            match rest {
                None => Some(c),
                Some(r) => if lev(name, c) < lev(name, r) {
                    Some(c)
                } else {
                    Some(r)
                },
            }
        }
    }
}

/// Whether `cs` takes at least `k` bytes in UTF-8.
fn byte_len_at_least(cs: &[char], k: usize) -> (b: bool)
    ensures
        b == (byte_len(cs@) >= k),
{
    if k == 0 {
        return true;
    }
    let mut acc: usize = 0;
    let mut i: usize = 0;
    assert(cs@.take(0).len() == 0);
    while i < cs.len()
        invariant
            i <= cs@.len(),
            acc == byte_len(cs@.take(i as int)),
            acc < k,
        decreases cs@.len() - i,
    {
        proof {
            crate::text::lemma_byte_len_take_step(cs@, i as int);
        }
        let w = crate::text::len_utf8(cs[i]) as usize;
        if w >= k - acc {
            proof {
                crate::text::lemma_byte_len_mono(cs@, i + 1, cs@.len() as int);
                assert(cs@.take(cs@.len() as int) =~= cs@);
            }
            return true;
        }
        acc = acc + w;
        i += 1;
    }
    assert(cs@.take(cs@.len() as int) =~= cs@);
    false
}

/// The views of a sequence of strings.
pub open spec fn texts_of(s: Seq<String>) -> Seq<Seq<char>> {
    s.map_values(|c: String| c@)
}

/// The names declared in `list`, in order.
fn declared_names<V>(list: &Vec<(String, V)>) -> (v: Vec<String>)
    ensures
        texts_of(v@) == names_of(list@),
{
    let mut v: Vec<String> = Vec::new();
    let mut i: usize = 0;
    while i < list.len()
        invariant
            i <= list@.len(),
            v@.len() == i,
            texts_of(v@) == names_of(list@).take(i as int),
        decreases list@.len() - i,
    {
        let ghost before = v@;
        v.push(list[i].0.clone());
        assert forall|k: int| 0 <= k < i + 1 implies #[trigger] texts_of(v@)[k] == names_of(list@).take(i + 1)[k] by {
            if k < i {
                assert(v@[k] == before[k]);
                assert(texts_of(before)[k] == names_of(list@).take(i as int)[k]);
            }
        }
        assert(texts_of(v@) =~= names_of(list@).take(i + 1));
        i += 1;
    }
    assert(names_of(list@).take(list@.len() as int) =~= names_of(list@));
    v
}

/// The candidate to suggest in place of the unknown `name`: the closest
/// one worth suggesting, or `None` when nothing is close enough to help.
pub fn suggest(name: &str, candidates: &Vec<String>) -> (r: Option<String>)
    ensures
        r matches Some(x) ==> suggestion(name@, texts_of(candidates@)) == Some(x@),
        r is None ==> suggestion(name@, texts_of(candidates@)) is None,
{
    let a = chars_of(name);
    let mut best: Option<(usize, usize)> = None;
    let mut i: usize = 0;
    while i < candidates.len()
        invariant
            i <= candidates@.len(),
            a@ == name@,
            best matches Some((bi, bd)) ==> bi < i && bd == lev(name@, candidates@[bi as int]@)
                && suggestion(name@, texts_of(candidates@).take(i as int)) == Some(
                candidates@[bi as int]@,
            ),
            best is None ==> suggestion(name@, texts_of(candidates@).take(i as int)) is None,
        decreases candidates@.len() - i,
    {
        let ghost ns = texts_of(candidates@);
        assert(ns.take(i + 1).drop_last() =~= ns.take(i as int));
        assert(ns.take(i + 1).last() == candidates@[i as int]@);
        let c = chars_of(candidates[i].as_str());
        let d = levenshtein(a.as_slice(), c.as_slice());
        let close = d > 0 && d <= 2 && (byte_len_at_least(a.as_slice(), d + 1)
            || byte_len_at_least(c.as_slice(), d + 1));
        if close {
            match best {
                None => {
                    best = Some((i, d));
                },
                Some((_, bd)) => {
                    if d < bd {
                        best = Some((i, d));
                    }
                },
            }
        }
        i += 1;
    }
    assert(texts_of(candidates@).take(candidates@.len() as int) =~= texts_of(candidates@));
    match best {
        Some((bi, _)) => Some(candidates[bi].clone()),
        None => None,
    }
}

// ---------------------------------------------------------------------
// Validation
// ---------------------------------------------------------------------

/// A problem that validation reports.
#[derive(Debug, Clone)]
pub enum SchemaErrorKind {
    UnknownNode { name: String, suggestion: Option<String>, span: Span },
    UnknownKey { name: String, node: String, suggestion: Option<String>, span: Span },
    WrongType { key: String, message: String, span: Span },
    MissingRequiredKey { key: String, node: String, span: Span },
    DuplicateKey { key: String, span: Span, first_span: Span },
    InvalidHeader { node: String, message: String, span: Span },
}

/// [`SchemaErrorKind`] with its texts as character sequences.
pub enum SchemaError {
    UnknownNode { name: Seq<char>, suggestion: Option<Seq<char>>, span: Span },
    UnknownKey { name: Seq<char>, node: Seq<char>, suggestion: Option<Seq<char>>, span: Span },
    WrongType { key: Seq<char>, message: Seq<char>, span: Span },
    MissingRequiredKey { key: Seq<char>, node: Seq<char>, span: Span },
    DuplicateKey { key: Seq<char>, span: Span, first_span: Span },
    InvalidHeader { node: Seq<char>, message: Seq<char>, span: Span },
}

pub open spec fn opt_text(o: Option<String>) -> Option<Seq<char>> {
    match o {
        Some(s) => Some(s@),
        None => None,
    }
}

impl View for SchemaErrorKind {
    type V = SchemaError;

    open spec fn view(&self) -> SchemaError {
        match *self {
            SchemaErrorKind::UnknownNode { name, suggestion, span } => SchemaError::UnknownNode {
                name: name@,
                suggestion: opt_text(suggestion),
                span,
            },
            SchemaErrorKind::UnknownKey { name, node, suggestion, span } => SchemaError::UnknownKey {
                name: name@,
                node: node@,
                suggestion: opt_text(suggestion),
                span,
            },
            SchemaErrorKind::WrongType { key, message, span } => SchemaError::WrongType {
                key: key@,
                message: message@,
                span,
            },
            SchemaErrorKind::MissingRequiredKey { key, node, span } => SchemaError::MissingRequiredKey {
                key: key@,
                node: node@,
                span,
            },
            SchemaErrorKind::DuplicateKey { key, span, first_span } => SchemaError::DuplicateKey {
                key: key@,
                span,
                first_span,
            },
            SchemaErrorKind::InvalidHeader { node, message, span } => SchemaError::InvalidHeader {
                node: node@,
                message: message@,
                span,
            },
        }
    }
}

/// Every problem found by validation, in order.
#[derive(Debug, Default)]
pub struct ValidationResult {
    pub errors: Vec<SchemaErrorKind>,
}

impl ValidationResult {
    pub fn is_valid(&self) -> (b: bool)
        ensures
            b == (self.errors@.len() == 0),
    {
        self.errors.len() == 0
    }
}

pub open spec fn errors_view(es: Seq<SchemaErrorKind>) -> Seq<SchemaError> {
    es.map_values(|e: SchemaErrorKind| e@)
}

/// The key span of the first leaf in `es` with key `k`.
pub open spec fn first_key_span(es: Seq<Entry>, k: Seq<char>) -> Option<Span>
    decreases es.len(),
{
    if es.len() == 0 {
        None
    } else if (es[0] matches Entry::Leaf(l) && l.key@ == k) {
        Some(es[0]->Leaf_0.key_span)
    } else {
        first_key_span(es.drop_first(), k)
    }
}

pub open spec fn has_leaf_key(es: Seq<Entry>, k: Seq<char>) -> bool {
    exists|j: int| 0 <= j < es.len() && (#[trigger] es[j] matches Entry::Leaf(l) && l.key@ == k)
}

/// The document's top level, as a level of declarations.
pub struct Level<C> {
    pub keys: Seq<(String, KeySchema<C>)>,
    pub children: Seq<(String, NodeSchema<C>)>,
    pub allow_unknown_keys: bool,
    pub policy: DuplicateKeyPolicy,
    pub allow_unknown_nodes: bool,
    pub name: Seq<char>,
}

pub open spec fn node_level<C: CustomType>(ns: NodeSchema<C>, name: Seq<char>) -> Level<C> {
    Level {
        keys: ns.spec_keys(),
        children: ns.spec_children(),
        allow_unknown_keys: ns.spec_allow_unknown_keys(),
        policy: ns.spec_policy(),
        allow_unknown_nodes: false,
        name,
    }
}

pub open spec fn root_level<C: CustomType>(s: Schema<C>) -> Level<C> {
    Level {
        keys: s.spec_root_keys(),
        children: s.spec_nodes(),
        allow_unknown_keys: false,
        policy: DuplicateKeyPolicy::Error,
        allow_unknown_nodes: s.spec_allow_unknown_nodes(),
        name: "<document>"@,
    }
}

/// What validation reports about a leaf `key = value` at index `i` of
/// `es`, whose keys are declared by `lv`.
pub open spec fn leaf_errors<C: CustomType>(lv: Level<C>, es: Seq<Entry>, i: int) -> Seq<SchemaError> {
    let l = es[i]->Leaf_0;
    let dup = match first_key_span(es.take(i), l.key@) {
        Some(first) => if lv.policy == DuplicateKeyPolicy::Error {
            seq![SchemaError::DuplicateKey { key: l.key@, span: l.key_span, first_span: first }]
        } else {
            seq![]
        },
        None => seq![],
    };
    let typed = match lookup(lv.keys, l.key@) {
        Some(ks) => match check_failure(ks.value_type, l.value) {
            Some(m) => seq![SchemaError::WrongType { key: l.key@, message: m, span: l.key_span }],
            None => seq![],
        },
        None => if lv.allow_unknown_keys {
            seq![]
        } else {
            seq![
                SchemaError::UnknownKey {
                    name: l.key@,
                    node: lv.name,
                    suggestion: suggestion(l.key@, names_of(lv.keys)),
                    span: l.key_span,
                },
            ]
        },
    };
    dup + typed
}

/// What validation reports about the first `k` entries of `es`, whose
/// keys and nodes are declared by `lv`.
pub open spec fn entries_errors<C: CustomType>(lv: Level<C>, es: Seq<Entry>, k: int) -> Seq<
    SchemaError,
>
    decreases es, k,
{
    if k <= 0 || k > es.len() {
        seq![]
    } else {
        entries_errors(lv, es, k - 1) + match es[k - 1] {
            Entry::Leaf(_) => leaf_errors(lv, es, k - 1),
            Entry::Node(n) => match lookup(lv.children, n.name@) {
                Some(cs) => node_errors(cs, n),
                None => if lv.allow_unknown_nodes {
                    seq![]
                } else {
                    seq![
                        SchemaError::UnknownNode {
                            name: n.name@,
                            suggestion: suggestion(n.name@, names_of(lv.children)),
                            span: n.name_span,
                        },
                    ]
                },
            },
            _ => seq![],
        }
    }
}

/// The required keys among the first `k` declared in `keys` that no leaf
/// of `es` sets.
pub open spec fn missing_errors<C>(
    keys: Seq<(String, KeySchema<C>)>,
    name: Seq<char>,
    es: Seq<Entry>,
    span: Span,
    k: int,
) -> Seq<SchemaError>
    decreases k,
{
    if k <= 0 || k > keys.len() {
        seq![]
    } else {
        missing_errors(keys, name, es, span, k - 1) + if keys[k - 1].1.required && !has_leaf_key(
            es,
            keys[k - 1].0@,
        ) {
            seq![SchemaError::MissingRequiredKey { key: keys[k - 1].0@, node: name, span }]
        } else {
            seq![]
        }
    }
}

/// What validation reports about a node against its declaration.
pub open spec fn node_errors<C: CustomType>(ns: NodeSchema<C>, n: NodeEntry) -> Seq<SchemaError>
    decreases n, 0int,
{
    entries_errors(node_level(ns, n.name@), n.children@, n.children@.len() as int)
        + missing_errors(ns.spec_keys(), n.name@, n.children@, n.span, ns.spec_keys().len() as int)
}

/// What validation reports about a document.
pub open spec fn document_errors<C: CustomType>(s: Schema<C>, es: Seq<Entry>) -> Seq<SchemaError> {
    let span = if es.len() > 0 {
        entry_span(es[0])
    } else {
        Span { start: 0, end: 0 }
    };
    entries_errors(root_level(s), es, es.len() as int) + missing_errors(
        s.spec_root_keys(),
        "<document>"@,
        es,
        span,
        s.spec_root_keys().len() as int,
    )
}

proof fn lemma_lookup_member<V>(s: Seq<(String, V)>, name: Seq<char>)
    requires
        lookup(s, name) is Some,
    ensures
        exists|i: int| 0 <= i < s.len() && #[trigger] s[i].1 == lookup(s, name)->0,
    decreases s.len(),
{
    if s[0].0@ != name {
        lemma_lookup_member(s.drop_first(), name);
        let i = choose|i: int|
            0 <= i < s.drop_first().len() && #[trigger] s.drop_first()[i].1 == lookup(
                s.drop_first(),
                name,
            )->0;
        assert(s[i + 1].1 == lookup(s, name)->0);
    } else {
        assert(s[0].1 == lookup(s, name)->0);
    }
}

/// The key span of the first leaf among `es[..upto]` with key `key`.
fn first_leaf_span(es: &[Entry], upto: usize, key: &String) -> (r: Option<Span>)
    requires
        upto <= es@.len(),
    ensures
        r == first_key_span(es@.take(upto as int), key@),
{
    let ghost pre = es@.take(upto as int);
    let mut i: usize = 0;
    assert(pre.skip(0) =~= pre);
    while i < upto
        invariant
            i <= upto <= es@.len(),
            pre == es@.take(upto as int),
            first_key_span(pre, key@) == first_key_span(pre.skip(i as int), key@),
        decreases upto - i,
    {
        assert(pre.skip(i as int)[0] == es@[i as int]);
        assert(pre.skip(i as int).drop_first() =~= pre.skip(i + 1));
        match &es[i] {
            Entry::Leaf(l) => {
                if l.key == *key {
                    return Some(l.key_span);
                }
            },
            _ => {},
        }
        i += 1;
    }
    assert(pre.skip(i as int).len() == 0);
    None
}

/// Whether some leaf of `es` has key `key`.
fn has_leaf(es: &[Entry], key: &String) -> (b: bool)
    ensures
        b == has_leaf_key(es@, key@),
{
    let mut i: usize = 0;
    while i < es.len()
        invariant
            i <= es@.len(),
            forall|j: int| 0 <= j < i ==> !(#[trigger] es@[j] matches Entry::Leaf(l) && l.key@ == key@),
        decreases es@.len() - i,
    {
        match &es[i] {
            Entry::Leaf(l) => {
                if l.key == *key {
                    assert(es@[i as int] matches Entry::Leaf(l) && l.key@ == key@);
                    return true;
                }
            },
            _ => {},
        }
        i += 1;
    }
    false
}

proof fn lemma_push_view(errs: Seq<SchemaErrorKind>, e: SchemaErrorKind)
    ensures
        errors_view(errs.push(e)) == errors_view(errs).push(e@),
{
    assert(errors_view(errs.push(e)) =~= errors_view(errs).push(e@));
}

/// Reports the problems of the entries `es`, whose keys and nodes are
/// declared by the given level.
#[verifier::spinoff_prover]
#[verifier::rlimit(60)]
fn check_entries<C: CustomType>(
    keys: &Vec<(String, KeySchema<C>)>,
    children: &Vec<(String, NodeSchema<C>)>,
    allow_unknown_keys: bool,
    policy: DuplicateKeyPolicy,
    allow_unknown_nodes: bool,
    name: &String,
    es: &[Entry],
    errors: &mut Vec<SchemaErrorKind>,
)
    ensures
        C::keeps_promises() ==> errors_view(final(errors)@) == errors_view(old(errors)@) + entries_errors(
            Level {
                keys: keys@,
                children: children@,
                allow_unknown_keys,
                policy,
                allow_unknown_nodes,
                name: name@,
            },
            es@,
            es@.len() as int,
        ),
    decreases es@, 1int,
{
    let ghost lv = Level {
        keys: keys@,
        children: children@,
        allow_unknown_keys,
        policy,
        allow_unknown_nodes,
        name: name@,
    };
    let mut i: usize = 0;
    while i < es.len()
        invariant
            i <= es@.len(),
            lv == (Level {
                keys: keys@,
                children: children@,
                allow_unknown_keys,
                policy,
                allow_unknown_nodes,
                name: name@,
            }),
            C::keeps_promises() ==> errors_view(errors@) == errors_view(old(errors)@) + entries_errors(
                lv,
                es@,
                i as int,
            ),
        decreases es@.len() - i,
    {
        let ghost before = errors@;
        match &es[i] {
            Entry::Leaf(l) => {
                match first_leaf_span(es, i, &l.key) {
                    Some(first) => {
                        if policy == DuplicateKeyPolicy::Error {
                            let e = SchemaErrorKind::DuplicateKey {
                                key: l.key.clone(),
                                span: l.key_span,
                                first_span: first,
                            };
                            proof {
                                lemma_push_view(errors@, e);
                            }
                            errors.push(e);
                        }
                    },
                    None => {},
                }
                let ghost mid = errors@;
                match find_name(keys, &l.key) {
                    Some(k) => {
                        proof {
                            if C::keeps_promises() {
                                lemma_keeps(keys@[k as int].1.value_type);
                            }
                        }
                        match keys[k].1.value_type.check(&l.value) {
                            Ok(_) => {},
                            Err(message) => {
                                let e = SchemaErrorKind::WrongType {
                                    key: l.key.clone(),
                                    message,
                                    span: l.key_span,
                                };
                                proof {
                                    lemma_push_view(errors@, e);
                                }
                                errors.push(e);
                            },
                        }
                    },
                    None => {
                        if !allow_unknown_keys {
                            let e = SchemaErrorKind::UnknownKey {
                                name: l.key.clone(),
                                node: name.clone(),
                                suggestion: suggest(l.key.as_str(), &declared_names(keys)),
                                span: l.key_span,
                            };
                            proof {
                                lemma_push_view(errors@, e);
                            }
                            errors.push(e);
                        }
                    },
                }
                proof {
                    if C::keeps_promises() {
                        assert(errors_view(errors@) =~= errors_view(before) + leaf_errors(
                            lv,
                            es@,
                            i as int,
                        ));
                    }
                }
            },
            Entry::Node(n) => {
                match find_name(children, &n.name) {
                    Some(k) => {
                        proof {
                            assert(decreases_to!(es@ => es@[i as int]));
                        }
                        validate_node(n, &children[k].1, errors);
                    },
                    None => {
                        if !allow_unknown_nodes {
                            let e = SchemaErrorKind::UnknownNode {
                                name: n.name.clone(),
                                suggestion: suggest(n.name.as_str(), &declared_names(children)),
                                span: n.name_span,
                            };
                            proof {
                                lemma_push_view(errors@, e);
                            }
                            errors.push(e);
                        }
                    },
                }
            },
            _ => {},
        }
        proof {
            assert(es@.take(i + 1).len() == i + 1);
        }
        i += 1;
    }
}

/// Reports the problems of a node against its declaration.
fn validate_node<C: CustomType>(node: &NodeEntry, schema: &NodeSchema<C>, errors: &mut Vec<SchemaErrorKind>)
    ensures
        C::keeps_promises() ==> errors_view(final(errors)@) == errors_view(old(errors)@) + node_errors(
            *schema,
            *node,
        ),
    decreases *node, 0int,
{
    proof {
        assert(decreases_to!(*node => node.children@));
    }
    check_entries(
        &schema.keys,
        &schema.children,
        schema.allow_unknown_keys,
        schema.duplicate_key_policy,
        false,
        &node.name,
        node.children.as_slice(),
        errors,
    );
    let ghost mid = errors@;
    let mut k: usize = 0;
    while k < schema.keys.len()
        invariant
            k <= schema.keys@.len(),
            C::keeps_promises() ==> errors_view(errors@) == errors_view(mid) + missing_errors(
                schema.keys@,
                node.name@,
                node.children@,
                node.span,
                k as int,
            ),
        decreases schema.keys@.len() - k,
    {
        if schema.keys[k].1.required && !has_leaf(node.children.as_slice(), &schema.keys[k].0) {
            let e = SchemaErrorKind::MissingRequiredKey {
                key: schema.keys[k].0.clone(),
                node: node.name.clone(),
                span: node.span,
            };
            proof {
                lemma_push_view(errors@, e);
            }
            errors.push(e);
        }
        k += 1;
    }
}

/// Validates evaluated entries against a schema, collecting every problem
/// found (not only the first), in order: for each entry in turn, what is
/// wrong with it (for a node, with what it holds), then the required keys
/// that are missing.
pub fn validate<C: CustomType>(schema: &Schema<C>, entries: &[Entry]) -> (r: ValidationResult)
    ensures
        C::keeps_promises() ==> errors_view(r.errors@) == document_errors(*schema, entries@),
{
    let mut errors: Vec<SchemaErrorKind> = Vec::new();
    let document = "<document>".to_owned();
    check_entries(
        &schema.root_keys,
        &schema.nodes,
        false,
        DuplicateKeyPolicy::Error,
        schema.allow_unknown_nodes,
        &document,
        entries,
        &mut errors,
    );
    let doc_span = if entries.len() > 0 {
        entries[0].span()
    } else {
        Span::at(0)
    };
    let ghost mid = errors@;
    let mut k: usize = 0;
    while k < schema.root_keys.len()
        invariant
            k <= schema.root_keys@.len(),
            document@ == "<document>"@,
            C::keeps_promises() ==> errors_view(errors@) == errors_view(mid) + missing_errors(
                schema.root_keys@,
                document@,
                entries@,
                doc_span,
                k as int,
            ),
        decreases schema.root_keys@.len() - k,
    {
        if schema.root_keys[k].1.required && !has_leaf(entries, &schema.root_keys[k].0) {
            let e = SchemaErrorKind::MissingRequiredKey {
                key: schema.root_keys[k].0.clone(),
                node: document.clone(),
                span: doc_span,
            };
            proof {
                lemma_push_view(errors@, e);
            }
            errors.push(e);
        }
        k += 1;
    }
    assert(errors_view(Seq::<SchemaErrorKind>::empty()) =~= Seq::<SchemaError>::empty());
    ValidationResult { errors }
}

impl<C: CustomType> Schema<C> {
    /// Validates evaluated entries against this schema; see [`validate`].
    pub fn validate(&self, entries: &[Entry]) -> (r: ValidationResult)
        ensures
            C::keeps_promises() ==> errors_view(r.errors@) == document_errors(*self, entries@),
    {
        validate(self, entries)
    }
}

/// Under the `LastWins` and `FirstWins` policies a repeated key is no
/// error: what validation reports about a leaf holds no duplicate-key
/// error.
pub proof fn lemma_repeated_keys_allowed_unless_error_policy<C: CustomType>(
    lv: Level<C>,
    es: Seq<Entry>,
    i: int,
)
    requires
        lv.policy != DuplicateKeyPolicy::Error,
    ensures
        forall|j: int|
            0 <= j < leaf_errors(lv, es, i).len() ==> !(#[trigger] leaf_errors(lv, es, i)[j] is DuplicateKey),
{
}

/// Under the `Error` policy, a leaf whose key an earlier leaf already set
/// is reported, pointing at both.
pub proof fn lemma_repeated_key_reported<C: CustomType>(lv: Level<C>, es: Seq<Entry>, i: int, j: int)
    requires
        lv.policy == DuplicateKeyPolicy::Error,
        0 <= j < i < es.len(),
        es[i] is Leaf,
        es[j] is Leaf,
        es[j]->Leaf_0.key@ == es[i]->Leaf_0.key@,
    ensures
        leaf_errors(lv, es, i).len() > 0,
        leaf_errors(lv, es, i)[0] is DuplicateKey,
        leaf_errors(lv, es, i)[0]->DuplicateKey_span == es[i]->Leaf_0.key_span,
{
    lemma_first_key_span_found(es.take(i), j, es[i]->Leaf_0.key@);
}

proof fn lemma_first_key_span_found(es: Seq<Entry>, j: int, k: Seq<char>)
    requires
        0 <= j < es.len(),
        es[j] is Leaf,
        es[j]->Leaf_0.key@ == k,
    ensures
        first_key_span(es, k) is Some,
    decreases j,
{
    if j > 0 && !(es[0] matches Entry::Leaf(l) && l.key@ == k) {
        lemma_first_key_span_found(es.drop_first(), j - 1, k);
    }
}

} // verus!
