//! The values that a stream builds.

use crate::bigint::{big_clone, big_eq, big_from_i128, big_value};
use crate::text::bytes_equal;
use crate::wrappers::{F64Wrapper, HashMapWrapper, HashSetWrapper};
use num_bigint::BigInt;
use vstd::prelude::*;
use vstd::std_specs::cmp::PartialEqSpecImpl;
use vstd::std_specs::convert::FromSpecImpl;

verus! {

/// The id under which a value is kept in the memo.
pub type MemoId = u32;

/// A callable of the pickling runtime that a stream refers to by name.
#[derive(Clone, Copy, Debug, PartialEq, Eq, Structural, Hash)]
pub enum Global {
    /// builtins/__builtin__.set
    MutableSet,
    /// builtins/__builtin__.frozenset
    Frozenset,
    /// builtins/__builtin__.bytearray
    Bytearray,
    /// builtins/__builtin__.list
    List,
    /// builtins/__builtin__.int
    Int,
    /// _codecs.encode
    Encode,
    /// anything else (may be a class object that is discarded later)
    Other,
}

/// A decoded value. `MemoRef` and `Global` occur while a stream is decoded; the
/// post-processor takes them out.
#[derive(Debug)]
pub enum Value {
    /// A reference to the memo entry with the given id
    MemoRef(MemoId),
    /// A global that no opcode has applied yet
    Global(Global),
    /// None
    NoneValue,
    /// A boolean
    Bool(bool),
    /// An integer of any size
    Int(BigInt),
    /// An integer that fits in 64 bits
    I64(i64),
    /// A double
    F64(F64Wrapper),
    /// A byte string
    Bytes(Vec<u8>),
    /// A Unicode string
    String(String),
    /// A list
    List(Vec<Value>),
    /// A tuple
    Tuple(Vec<Value>),
    /// A set
    MutableSet(HashSetWrapper),
    /// A frozen set
    FrozenSet(HashSetWrapper),
    /// A dict
    Dict(HashMapWrapper),
    /// A persistent id, which the decoder does not look into
    BinPersId(Box<Value>),
}

/// What a [`Value`] holds, as mathematical values. A set is the sequence of its
/// members and a dict the sequence of its entries, in the order in which they came.
pub enum ValueView {
    MemoRef(MemoId),
    Global(Global),
    NoneValue,
    Bool(bool),
    Int(int),
    I64(i64),
    F64(u64),
    Bytes(Seq<u8>),
    String(Seq<char>),
    List(Seq<ValueView>),
    Tuple(Seq<ValueView>),
    MutableSet(Seq<ValueView>),
    FrozenSet(Seq<ValueView>),
    Dict(Seq<(ValueView, ValueView)>),
    BinPersId(Box<ValueView>),
}

/// What each value of `items` holds.
pub open spec fn views(items: Seq<Value>) -> Seq<ValueView>
    decreases items,
{
    Seq::new(
        items.len(),
        |i: int| if 0 <= i < items.len() { value_view(items[i]) } else { ValueView::NoneValue },
    )
}

/// What the key and the value of each entry of `items` hold.
pub open spec fn pair_views(items: Seq<(Value, Value)>) -> Seq<(ValueView, ValueView)>
    decreases items,
{
    Seq::new(
        items.len(),
        |i: int|
            if 0 <= i < items.len() {
                (value_view(items[i].0), value_view(items[i].1))
            } else {
                (ValueView::NoneValue, ValueView::NoneValue)
            },
    )
}

/// What a value holds. A big integer is seen as the integer that it holds, a double as
/// its bits, a string as its characters.
pub open spec fn value_view(v: Value) -> ValueView
    decreases v,
{
    match v {
        Value::MemoRef(id) => ValueView::MemoRef(id),
        Value::Global(g) => ValueView::Global(g),
        Value::NoneValue => ValueView::NoneValue,
        Value::Bool(b) => ValueView::Bool(b),
        Value::Int(i) => ValueView::Int(big_value(i)),
        Value::I64(i) => ValueView::I64(i),
        Value::F64(f) => ValueView::F64(f.0),
        Value::Bytes(b) => ValueView::Bytes(b@),
        Value::String(s) => ValueView::String(s@),
        Value::List(items) => ValueView::List(views(items@)),
        Value::Tuple(items) => ValueView::Tuple(views(items@)),
        Value::MutableSet(s) => ValueView::MutableSet(views(s.0@)),
        Value::FrozenSet(s) => ValueView::FrozenSet(views(s.0@)),
        Value::Dict(d) => ValueView::Dict(pair_views(d.0@)),
        Value::BinPersId(inner) => ValueView::BinPersId(Box::new(value_view(*inner))),
    }
}

impl View for Value {
    type V = ValueView;

    open spec fn view(&self) -> ValueView {
        value_view(*self)
    }
}

/// Whether every position of `x` holds the same value as that position of `y`.
pub open spec fn all_equal(x: Seq<ValueView>, y: Seq<ValueView>) -> bool
    decreases x, 1int,
{
    x.len() == y.len() && forall|i: int| 0 <= i < x.len() ==> equal(#[trigger] x[i], y[i])
}

/// Whether some item of `ys` is the same value as `v`.
pub open spec fn member(v: ValueView, ys: Seq<ValueView>) -> bool
    decreases v, 1int,
{
    exists|j: int| 0 <= j < ys.len() && equal(v, #[trigger] ys[j])
}

/// Whether some entry of `ys` has the same key and the same value as the entry `e`.
pub open spec fn entry_member(e: (ValueView, ValueView), ys: Seq<(ValueView, ValueView)>) -> bool
    decreases e, 1int,
{
    exists|j: int| 0 <= j < ys.len() && equal(e.0, (#[trigger] ys[j]).0) && equal(e.1, ys[j].1)
}

/// Whether `x` and `y` have as many items and every item of `x` is a member of `y`.
pub open spec fn same_members(x: Seq<ValueView>, y: Seq<ValueView>) -> bool
    decreases x, 2int,
{
    x.len() == y.len() && forall|i: int| 0 <= i < x.len() ==> member(#[trigger] x[i], y)
}

/// Whether `x` and `y` have as many entries and every entry of `x` is one of `y`.
pub open spec fn same_entries(
    x: Seq<(ValueView, ValueView)>,
    y: Seq<(ValueView, ValueView)>,
) -> bool
    decreases x, 2int,
{
    x.len() == y.len() && forall|i: int| 0 <= i < x.len() ==> entry_member(#[trigger] x[i], y)
}

/// Structural equality of decoded values. Lists and tuples are compared position by
/// position; sets and dicts whatever the order of their items.
pub open spec fn equal(a: ValueView, b: ValueView) -> bool
    decreases a, 0int,
{
    match (a, b) {
        (ValueView::MemoRef(x), ValueView::MemoRef(y)) => x == y,
        (ValueView::Global(x), ValueView::Global(y)) => x == y,
        (ValueView::NoneValue, ValueView::NoneValue) => true,
        (ValueView::Bool(x), ValueView::Bool(y)) => x == y,
        (ValueView::Int(x), ValueView::Int(y)) => x == y,
        (ValueView::I64(x), ValueView::I64(y)) => x == y,
        (ValueView::F64(x), ValueView::F64(y)) => x == y,
        (ValueView::Bytes(x), ValueView::Bytes(y)) => x == y,
        (ValueView::String(x), ValueView::String(y)) => x == y,
        (ValueView::List(x), ValueView::List(y)) => all_equal(x, y),
        (ValueView::Tuple(x), ValueView::Tuple(y)) => all_equal(x, y),
        (ValueView::MutableSet(x), ValueView::MutableSet(y)) => same_members(x, y),
        (ValueView::FrozenSet(x), ValueView::FrozenSet(y)) => same_members(x, y),
        (ValueView::Dict(x), ValueView::Dict(y)) => same_entries(x, y),
        (ValueView::BinPersId(x), ValueView::BinPersId(y)) => equal(*x, *y),
        _ => false,
    }
}

/// Whether the two vectors hold the same values position by position.
pub fn all_same(x: &Vec<Value>, y: &Vec<Value>) -> (r: bool)
    ensures
        r == all_equal(views(x@), views(y@)),
    decreases x, 1int,
{
    if x.len() != y.len() {
        return false;
    }
    let mut i: usize = 0;
    while i < x.len()
        invariant
            i <= x.len(),
            x.len() == y.len(),
            forall|k: int| 0 <= k < i ==> equal(#[trigger] views(x@)[k], views(y@)[k]),
        decreases x.len() - i,
    {
        assert(views(x@)[i as int] == x[i as int]@ && views(y@)[i as int] == y[i as int]@);
        if !x[i].same(&y[i]) {
            return false;
        }
        i += 1;
    }
    true
}

/// Whether `ys` holds a value that is the same as `v`.
pub fn is_member(v: &Value, ys: &Vec<Value>) -> (r: bool)
    ensures
        r == member(v@, views(ys@)),
    decreases v, 1int,
{
    let mut j: usize = 0;
    while j < ys.len()
        invariant
            j <= ys.len(),
            forall|k: int| 0 <= k < j ==> !equal(v@, #[trigger] views(ys@)[k]),
        decreases ys.len() - j,
    {
        assert(views(ys@)[j as int] == ys[j as int]@);
        if v.same(&ys[j]) {
            return true;
        }
        j += 1;
    }
    false
}

/// Whether `ys` holds an entry with the same key and the same value as `e`.
pub fn is_entry_member(e: &(Value, Value), ys: &Vec<(Value, Value)>) -> (r: bool)
    ensures
        r == entry_member((e.0@, e.1@), pair_views(ys@)),
    decreases e, 1int,
{
    let mut j: usize = 0;
    while j < ys.len()
        invariant
            j <= ys.len(),
            forall|k: int|
                0 <= k < j ==> !(equal(e.0@, (#[trigger] pair_views(ys@)[k]).0) && equal(
                    e.1@,
                    pair_views(ys@)[k].1,
                )),
        decreases ys.len() - j,
    {
        assert(pair_views(ys@)[j as int] == (ys[j as int].0@, ys[j as int].1@));
        if e.0.same(&ys[j].0) && e.1.same(&ys[j].1) {
            return true;
        }
        j += 1;
    }
    false
}

/// Whether `x` and `y` have as many items and every item of `x` is a member of `y`.
pub fn subset_of(x: &Vec<Value>, y: &Vec<Value>) -> (r: bool)
    ensures
        r == same_members(views(x@), views(y@)),
    decreases x, 2int,
{
    if x.len() != y.len() {
        return false;
    }
    let mut i: usize = 0;
    while i < x.len()
        invariant
            i <= x.len(),
            forall|k: int| 0 <= k < i ==> member(#[trigger] views(x@)[k], views(y@)),
        decreases x.len() - i,
    {
        assert(views(x@)[i as int] == x[i as int]@);
        if !is_member(&x[i], y) {
            return false;
        }
        i += 1;
    }
    true
}

/// Whether `x` and `y` have as many entries and every entry of `x` is one of `y`.
pub fn entries_subset_of(x: &Vec<(Value, Value)>, y: &Vec<(Value, Value)>) -> (r: bool)
    ensures
        r == same_entries(pair_views(x@), pair_views(y@)),
    decreases x, 2int,
{
    if x.len() != y.len() {
        return false;
    }
    let mut i: usize = 0;
    while i < x.len()
        invariant
            i <= x.len(),
            forall|k: int|
                0 <= k < i ==> entry_member(#[trigger] pair_views(x@)[k], pair_views(y@)),
        decreases x.len() - i,
    {
        assert(pair_views(x@)[i as int] == (x[i as int].0@, x[i as int].1@));
        if !is_entry_member(&x[i], y) {
            return false;
        }
        i += 1;
    }
    true
}

impl Value {
    /// Structural equality: lists and tuples position by position, sets and dicts whatever
    /// the order of their items.
    pub fn same(&self, other: &Value) -> (r: bool)
        ensures
            r == equal(self@, other@),
        decreases self, 0int,
    {
        match self {
            Value::MemoRef(x) => match other {
                Value::MemoRef(y) => *x == *y,
                _ => false,
            },
            Value::Global(x) => match other {
                Value::Global(y) => *x == *y,
                _ => false,
            },
            Value::NoneValue => match other {
                Value::NoneValue => true,
                _ => false,
            },
            Value::Bool(x) => match other {
                Value::Bool(y) => *x == *y,
                _ => false,
            },
            Value::Int(x) => match other {
                Value::Int(y) => big_eq(x, y),
                _ => false,
            },
            Value::I64(x) => match other {
                Value::I64(y) => *x == *y,
                _ => false,
            },
            Value::F64(x) => match other {
                Value::F64(y) => x.0 == y.0,
                _ => false,
            },
            Value::Bytes(x) => match other {
                Value::Bytes(y) => bytes_same(x, y),
                _ => false,
            },
            Value::String(x) => match other {
                Value::String(y) => *x == *y,
                _ => false,
            },
            Value::List(x) => match other {
                Value::List(y) => all_same(x, y),
                _ => false,
            },
            Value::Tuple(x) => match other {
                Value::Tuple(y) => all_same(x, y),
                _ => false,
            },
            Value::MutableSet(x) => match other {
                Value::MutableSet(y) => subset_of(&x.0, &y.0),
                _ => false,
            },
            Value::FrozenSet(x) => match other {
                Value::FrozenSet(y) => subset_of(&x.0, &y.0),
                _ => false,
            },
            Value::Dict(x) => match other {
                Value::Dict(y) => entries_subset_of(&x.0, &y.0),
                _ => false,
            },
            Value::BinPersId(x) => match other {
                Value::BinPersId(y) => x.same(y),
                _ => false,
            },
        }
    }
}

/// Whether the two byte strings are equal.
pub fn bytes_same(x: &Vec<u8>, y: &Vec<u8>) -> (r: bool)
    ensures
        r == (x@ == y@),
{
    bytes_equal(x.as_slice(), y.as_slice())
}

/// Whether each of `items` can be a key of a dict or a member of a set.
pub open spec fn all_hashable(items: Seq<ValueView>) -> bool
    decreases items, 1int,
{
    forall|i: int| 0 <= i < items.len() ==> hashable(#[trigger] items[i])
}

/// Whether a value can be a key of a dict or a member of a set: it is no list, no dict
/// and no mutable set, and holds none in a tuple.
pub open spec fn hashable(v: ValueView) -> bool
    decreases v, 0int,
{
    match v {
        ValueView::List(_) => false,
        ValueView::Dict(_) => false,
        ValueView::MutableSet(_) => false,
        ValueView::Tuple(items) => all_hashable(items),
        ValueView::BinPersId(inner) => hashable(*inner),
        _ => true,
    }
}

/// Whether the value can be a key of a dict or a member of a set.
pub fn is_hashable(v: &Value) -> (r: bool)
    ensures
        r == hashable(v@),
    decreases v, 0int,
{
    match v {
        Value::List(_) => false,
        Value::Dict(_) => false,
        Value::MutableSet(_) => false,
        Value::Tuple(items) => are_hashable(items),
        Value::BinPersId(inner) => is_hashable(inner),
        _ => true,
    }
}

/// Whether each of the values can be a key of a dict or a member of a set.
pub fn are_hashable(items: &Vec<Value>) -> (r: bool)
    ensures
        r == all_hashable(views(items@)),
    decreases items, 1int,
{
    let mut i: usize = 0;
    while i < items.len()
        invariant
            i <= items.len(),
            forall|k: int| 0 <= k < i ==> hashable(#[trigger] views(items@)[k]),
        decreases items.len() - i,
    {
        assert(views(items@)[i as int] == items[i as int]@);
        if !is_hashable(&items[i]) {
            return false;
        }
        i += 1;
    }
    true
}

/// The text that the `Debug` formatting gives for a value.
pub uninterp spec fn debug_text(v: ValueView) -> Seq<char>;

/// `format!` of std with `{:?}`: the text that the `Debug` formatting gives for the
/// value, which depends on nothing but what the value holds.
#[verifier::external_body]
pub(crate) fn debug_string(v: &Value) -> (r: String)
    ensures
        r@ == debug_text(v@),
{
    format!("{:?}", v)
}

/// A copy of `b`.
pub fn clone_bytes(b: &Vec<u8>) -> (r: Vec<u8>)
    ensures
        r@ == b@,
{
    vstd::slice::slice_to_vec(b.as_slice())
}

/// A copy of each value of `items`, in their order.
pub fn clone_items(items: &Vec<Value>) -> (r: Vec<Value>)
    ensures
        views(r@) == views(items@),
    decreases items,
{
    let mut out: Vec<Value> = Vec::new();
    let mut i: usize = 0;
    while i < items.len()
        invariant
            i <= items.len(),
            out@.len() == i,
            forall|k: int| 0 <= k < i ==> value_view(#[trigger] out@[k]) == value_view(items@[k]),
        decreases items.len() - i,
    {
        out.push(items[i].clone());
        i += 1;
    }
    out
}

/// A copy of each entry of `items`, in their order.
pub fn clone_entries(items: &Vec<(Value, Value)>) -> (r: Vec<(Value, Value)>)
    ensures
        pair_views(r@) == pair_views(items@),
    decreases items,
{
    let mut out: Vec<(Value, Value)> = Vec::new();
    let mut i: usize = 0;
    while i < items.len()
        invariant
            i <= items.len(),
            out@.len() == i,
            forall|k: int|
                0 <= k < i ==> value_view((#[trigger] out@[k]).0) == value_view(items@[k].0)
                    && value_view(out@[k].1) == value_view(items@[k].1),
        decreases items.len() - i,
    {
        let key = items[i].0.clone();
        let val = items[i].1.clone();
        out.push((key, val));
        i += 1;
    }
    out
}

impl Clone for Value {
    fn clone(&self) -> (r: Value)
        ensures
            r@ == self@,
        decreases self,
    {
        match self {
            Value::MemoRef(id) => Value::MemoRef(*id),
            Value::Global(g) => Value::Global(*g),
            Value::NoneValue => Value::NoneValue,
            Value::Bool(b) => Value::Bool(*b),
            Value::Int(i) => Value::Int(big_clone(i)),
            Value::I64(i) => Value::I64(*i),
            Value::F64(f) => Value::F64(*f),
            Value::Bytes(b) => Value::Bytes(clone_bytes(b)),
            Value::String(s) => Value::String(s.clone()),
            Value::List(items) => Value::List(clone_items(items)),
            Value::Tuple(items) => Value::Tuple(clone_items(items)),
            Value::MutableSet(s) => Value::MutableSet(HashSetWrapper(clone_items(&s.0))),
            Value::FrozenSet(s) => Value::FrozenSet(HashSetWrapper(clone_items(&s.0))),
            Value::Dict(d) => Value::Dict(HashMapWrapper(clone_entries(&d.0))),
            Value::BinPersId(inner) => {
                let copy = (**inner).clone();
                Value::BinPersId(Box::new(copy))
            },
        }
    }
}

impl PartialEq for Value {
    fn eq(&self, other: &Value) -> (r: bool) {
        self.same(other)
    }
}

impl PartialEqSpecImpl for Value {
    open spec fn obeys_eq_spec() -> bool {
        true
    }

    open spec fn eq_spec(&self, other: &Value) -> bool {
        equal(self@, other@)
    }
}

impl Eq for Value {

}

impl From<i128> for Value {
    /// The integer as a value of any size.
    fn from(i: i128) -> (r: Value)
        ensures
            r@ == ValueView::Int(i as int),
    {
        Value::Int(big_from_i128(i))
    }
}

/// What `from` hands back is stated by its own contract, over the view: a `Value` that
/// holds a big integer cannot be written down as a mathematical value.
impl FromSpecImpl<i128> for Value {
    open spec fn obeys_from_spec() -> bool {
        false
    }

    open spec fn from_spec(i: i128) -> Value {
        arbitrary()
    }
}

/// Every value is the same value as itself.
pub proof fn law_equal_reflexive(v: ValueView)
    ensures
        equal(v, v),
    decreases v,
{
    match v {
        ValueView::List(items) => {
            assert forall|i: int| 0 <= i < items.len() implies equal(
                #[trigger] items[i],
                items[i],
            ) by {
                law_equal_reflexive(items[i]);
            }
            assert(all_equal(items, items));
        },
        ValueView::Tuple(items) => {
            assert forall|i: int| 0 <= i < items.len() implies equal(
                #[trigger] items[i],
                items[i],
            ) by {
                law_equal_reflexive(items[i]);
            }
            assert(all_equal(items, items));
        },
        ValueView::MutableSet(items) => {
            assert forall|i: int| 0 <= i < items.len() implies member(
                #[trigger] items[i],
                items,
            ) by {
                law_equal_reflexive(items[i]);
            }
            assert(same_members(items, items));
        },
        ValueView::FrozenSet(items) => {
            assert forall|i: int| 0 <= i < items.len() implies member(
                #[trigger] items[i],
                items,
            ) by {
                law_equal_reflexive(items[i]);
            }
            assert(same_members(items, items));
        },
        ValueView::Dict(entries) => {
            assert forall|i: int| 0 <= i < entries.len() implies entry_member(
                #[trigger] entries[i],
                entries,
            ) by {
                law_equal_reflexive(entries[i].0);
                law_equal_reflexive(entries[i].1);
            }
            assert(same_entries(entries, entries));
        },
        ValueView::BinPersId(inner) => {
            law_equal_reflexive(*inner);
        },
        _ => {},
    }
}

} // verus!
