//! The post-processor, as a mathematical model: what becomes of the value that a stream
//! has built, once the references to the memo are followed.

use crate::error::{ErrorCodeView, ErrorView};
use crate::machine::{Machine, Memo, Outcome};
use crate::value::{all_hashable, hashable, ValueView};
use crate::wrappers::{
    build_dict, build_set, dict_insert, distinct, distinct_keys, lemma_key_index, set_insert,
};
use vstd::prelude::*;

verus! {

/// Whether `after` has no more entries than `before`. The post-processor never adds an
/// entry to the memo: it takes entries out and puts some of them back. So where the
/// functions below ask this of the memo that a conversion has left, the answer is yes
/// (`law_convert_shrinks`).
pub open spec fn no_larger(after: Memo, before: Memo) -> bool {
    after.dom().len() <= before.dom().len()
}

/// Converts the values of `items` from position `i` on, one after the other, each with
/// the memo that the one before has left. `acc` holds the values converted so far.
pub open spec fn convert_items(
    items: Seq<ValueView>,
    i: int,
    memo: Memo,
    strict: bool,
    acc: Seq<ValueView>,
) -> (Result<Seq<ValueView>, ErrorView>, Memo)
    decreases memo.dom().len(), items, items.len() - i,
{
    if 0 <= i < items.len() {
        match convert(items[i], memo, strict) {
            (Ok(v), rest) => if no_larger(rest, memo) {
                convert_items(items, i + 1, rest, strict, acc.push(v))
            } else {
                (Err(ErrorView::Syntax(ErrorCodeView::Recursive)), rest)
            },
            (Err(e), rest) => (Err(e), rest),
        }
    } else {
        (Ok(acc), memo)
    }
}

/// Converts the entries of `entries` from position `i` on, one after the other: the
/// key, then the value. `acc` holds the entries converted so far.
pub open spec fn convert_entries(
    entries: Seq<(ValueView, ValueView)>,
    i: int,
    memo: Memo,
    strict: bool,
    acc: Seq<(ValueView, ValueView)>,
) -> (Result<Seq<(ValueView, ValueView)>, ErrorView>, Memo)
    decreases memo.dom().len(), entries, entries.len() - i,
{
    if 0 <= i < entries.len() {
        match convert(entries[i].0, memo, strict) {
            (Ok(k), rest) => if no_larger(rest, memo) {
                match convert(entries[i].1, rest, strict) {
                    (Ok(v), rest) => if no_larger(rest, memo) {
                        convert_entries(entries, i + 1, rest, strict, acc.push((k, v)))
                    } else {
                        (Err(ErrorView::Syntax(ErrorCodeView::Recursive)), rest)
                    },
                    (Err(e), rest) => (Err(e), rest),
                }
            } else {
                (Err(ErrorView::Syntax(ErrorCodeView::Recursive)), rest)
            },
            (Err(e), rest) => (Err(e), rest),
        }
    } else {
        (Ok(acc), memo)
    }
}

/// The value that the post-processor makes of `v`, and the memo that it leaves.
///
/// A reference to the memo becomes the converted value of its entry. While that value
/// is converted the entry is out of the memo, so that a value which refers to itself is
/// found out: the reference then meets no entry. Afterwards the entry is put back with
/// one reference less, unless that was its last.
///
/// An integer of any size becomes one of 64 bits where it fits. The members of sets
/// and the keys of dicts are collected anew, since two of them may have become the same
/// value. With `strict` a global that is left is an error.
pub open spec fn convert(v: ValueView, memo: Memo, strict: bool) -> (
    Result<ValueView, ErrorView>,
    Memo,
)
    decreases memo.dom().len(), v, 0int,
{
    match v {
        ValueView::Int(i) => (
            Ok(
                if i64::MIN <= i <= i64::MAX {
                    ValueView::I64(i as i64)
                } else {
                    ValueView::Int(i)
                },
            ),
            memo,
        ),
        ValueView::List(items) => match convert_items(items, 0, memo, strict, Seq::empty()) {
            (Ok(converted), rest) => (Ok(ValueView::List(converted)), rest),
            (Err(e), rest) => (Err(e), rest),
        },
        ValueView::Tuple(items) => match convert_items(items, 0, memo, strict, Seq::empty()) {
            (Ok(converted), rest) => (Ok(ValueView::Tuple(converted)), rest),
            (Err(e), rest) => (Err(e), rest),
        },
        ValueView::MutableSet(items) => match convert_items(
            items,
            0,
            memo,
            strict,
            Seq::empty(),
        ) {
            (Ok(converted), rest) => match build_set(converted, 0, Seq::empty()) {
                Some(set) => (Ok(ValueView::MutableSet(set)), rest),
                None => (Err(ErrorView::Syntax(ErrorCodeView::ValueNotHashable)), rest),
            },
            (Err(e), rest) => (Err(e), rest),
        },
        ValueView::FrozenSet(items) => match convert_items(items, 0, memo, strict, Seq::empty()) {
            (Ok(converted), rest) => match build_set(converted, 0, Seq::empty()) {
                Some(set) => (Ok(ValueView::FrozenSet(set)), rest),
                None => (Err(ErrorView::Syntax(ErrorCodeView::ValueNotHashable)), rest),
            },
            (Err(e), rest) => (Err(e), rest),
        },
        ValueView::Dict(entries) => match convert_entries(
            entries,
            0,
            memo,
            strict,
            Seq::empty(),
        ) {
            (Ok(converted), rest) => match build_dict(converted, 0, Seq::empty()) {
                Some(dict) => (Ok(ValueView::Dict(dict)), rest),
                None => (Err(ErrorView::Syntax(ErrorCodeView::ValueNotHashable)), rest),
            },
            (Err(e), rest) => (Err(e), rest),
        },
        ValueView::BinPersId(inner) => match convert(*inner, memo, strict) {
            (Ok(converted), rest) => (Ok(ValueView::BinPersId(Box::new(converted))), rest),
            (Err(e), rest) => (Err(e), rest),
        },
        ValueView::MemoRef(id) => if memo.dom().finite() && memo.contains_key(id) {
            let (value, count) = memo[id];
            match convert(value, memo.remove(id), strict) {
                (r, rest) => if count - 1 <= 0 {
                    (r, rest)
                } else {
                    (r, rest.insert(id, (value, count - 1)))
                },
            }
        } else {
            (Err(ErrorView::Syntax(ErrorCodeView::Recursive)), memo)
        },
        ValueView::Global(g) => if strict {
            (Err(ErrorView::Syntax(ErrorCodeView::UnresolvedGlobal)), memo)
        } else {
            (Ok(ValueView::Global(g)), memo)
        },
        other => (Ok(other), memo),
    }
}

/// Whether every value of `items` is resolved.
pub open spec fn all_resolved(items: Seq<ValueView>, strict: bool) -> bool
    decreases items, 1int,
{
    forall|i: int| 0 <= i < items.len() ==> resolved(#[trigger] items[i], strict)
}

/// Whether the key and the value of every entry of `entries` are resolved.
pub open spec fn all_entries_resolved(entries: Seq<(ValueView, ValueView)>, strict: bool) -> bool
    decreases entries, 1int,
{
    forall|i: int|
        0 <= i < entries.len() ==> resolved((#[trigger] entries[i]).0, strict) && resolved(
            entries[i].1,
            strict,
        )
}

/// Whether a value is free of what only occurs while a stream is decoded: it holds no
/// reference to the memo and, with `strict`, no global.
pub open spec fn resolved(v: ValueView, strict: bool) -> bool
    decreases v, 0int,
{
    match v {
        ValueView::MemoRef(_) => false,
        ValueView::Global(_) => !strict,
        ValueView::List(items) => all_resolved(items, strict),
        ValueView::Tuple(items) => all_resolved(items, strict),
        ValueView::MutableSet(items) => all_resolved(items, strict),
        ValueView::FrozenSet(items) => all_resolved(items, strict),
        ValueView::Dict(entries) => all_entries_resolved(entries, strict),
        ValueView::BinPersId(inner) => resolved(*inner, strict),
        _ => true,
    }
}

/// Whether every key of `entries` can be a key of a dict.
pub open spec fn hashable_keys(entries: Seq<(ValueView, ValueView)>) -> bool {
    forall|i: int| 0 <= i < entries.len() ==> hashable((#[trigger] entries[i]).0)
}

/// Whether every value of `items` is well-formed.
pub open spec fn all_well_formed(items: Seq<ValueView>) -> bool
    decreases items, 1int,
{
    forall|i: int| 0 <= i < items.len() ==> well_formed(#[trigger] items[i])
}

/// Whether the key and the value of every entry of `entries` are well-formed.
pub open spec fn all_entries_well_formed(entries: Seq<(ValueView, ValueView)>) -> bool
    decreases entries, 1int,
{
    forall|i: int|
        0 <= i < entries.len() ==> well_formed((#[trigger] entries[i]).0) && well_formed(
            entries[i].1,
        )
}

/// Whether a value is what the data model asks of a decoded value, at every depth:
/// the members of a set can be members of a set and no two of them are the same value;
/// the keys of a dict can be keys and no two of them are the same value.
pub open spec fn well_formed(v: ValueView) -> bool
    decreases v, 0int,
{
    match v {
        ValueView::List(items) => all_well_formed(items),
        ValueView::Tuple(items) => all_well_formed(items),
        ValueView::MutableSet(items) => all_well_formed(items) && all_hashable(items)
            && distinct(items),
        ValueView::FrozenSet(items) => all_well_formed(items) && all_hashable(items)
            && distinct(items),
        ValueView::Dict(entries) => all_entries_well_formed(entries) && hashable_keys(entries)
            && distinct_keys(entries),
        ValueView::BinPersId(inner) => well_formed(*inner),
        _ => true,
    }
}

/// A set that is built from well-formed values is well-formed: its members are
/// well-formed, can be members, and no two of them are the same value.
pub(crate) proof fn lemma_build_set_well_formed(items: Seq<ValueView>, i: int, acc: Seq<ValueView>)
    requires
        0 <= i,
        all_well_formed(items),
        all_well_formed(acc),
        all_hashable(acc),
        distinct(acc),
        build_set(items, i, acc) is Some,
    ensures
        all_well_formed(build_set(items, i, acc)->0),
        all_hashable(build_set(items, i, acc)->0),
        distinct(build_set(items, i, acc)->0),
    decreases items.len() - i,
{
    if i < items.len() {
        lemma_build_set_well_formed(items, i + 1, set_insert(acc, items[i]));
    }
}

/// A dict that is built from well-formed entries is well-formed: its entries are
/// well-formed, its keys can be keys, and no two of them are the same value.
pub(crate) proof fn lemma_build_dict_well_formed(
    entries: Seq<(ValueView, ValueView)>,
    i: int,
    acc: Seq<(ValueView, ValueView)>,
)
    requires
        0 <= i,
        all_entries_well_formed(entries),
        all_entries_well_formed(acc),
        hashable_keys(acc),
        distinct_keys(acc),
        build_dict(entries, i, acc) is Some,
    ensures
        all_entries_well_formed(build_dict(entries, i, acc)->0),
        hashable_keys(build_dict(entries, i, acc)->0),
        distinct_keys(build_dict(entries, i, acc)->0),
    decreases entries.len() - i,
{
    if i < entries.len() {
        let next = dict_insert(acc, entries[i].0, entries[i].1);
        lemma_key_index(acc, entries[i].0, 0);
        lemma_build_dict_well_formed(entries, i + 1, next);
    }
}

/// A set that is built from resolved values holds resolved values.
pub(crate) proof fn lemma_build_set_resolved(
    items: Seq<ValueView>,
    i: int,
    acc: Seq<ValueView>,
    strict: bool,
)
    requires
        0 <= i,
        all_resolved(items, strict),
        all_resolved(acc, strict),
        build_set(items, i, acc) is Some,
    ensures
        all_resolved(build_set(items, i, acc)->0, strict),
    decreases items.len() - i,
{
    if i < items.len() {
        lemma_build_set_resolved(items, i + 1, set_insert(acc, items[i]), strict);
    }
}

/// A dict that is built from resolved entries holds resolved entries.
pub(crate) proof fn lemma_build_dict_resolved(
    entries: Seq<(ValueView, ValueView)>,
    i: int,
    acc: Seq<(ValueView, ValueView)>,
    strict: bool,
)
    requires
        0 <= i,
        all_entries_resolved(entries, strict),
        all_entries_resolved(acc, strict),
        build_dict(entries, i, acc) is Some,
    ensures
        all_entries_resolved(build_dict(entries, i, acc)->0, strict),
    decreases entries.len() - i,
{
    if i < entries.len() {
        let next = dict_insert(acc, entries[i].0, entries[i].1);
        lemma_key_index(acc, entries[i].0, 0);
        lemma_build_dict_resolved(entries, i + 1, next, strict);
    }
}

impl Machine {
    /// Decodes a stream: runs the machine and, where the stream has stopped,
    /// post-processes its value.
    pub open spec fn deserialize(self) -> Result<(Machine, Outcome), ErrorView> {
        match self.run() {
            Ok((m, Outcome::Finished(v))) => match convert(v, m.memo, m.strict) {
                (Ok(converted), rest) => Ok(
                    (Machine { memo: rest, ..m }, Outcome::Finished(converted)),
                ),
                (Err(e), _) => Err(e),
            },
            Ok((m, Outcome::NeedsFloat(line))) => Ok((m, Outcome::NeedsFloat(line))),
            Err(e) => Err(e),
        }
    }

    /// Decodes a whole stream: as `deserialize`, and nothing may follow the STOP.
    pub open spec fn decode(self) -> Result<(Machine, Outcome), ErrorView> {
        match self.deserialize() {
            Ok((m, Outcome::Finished(v))) => match m.end() {
                Ok(()) => Ok((m, Outcome::Finished(v))),
                Err(e) => Err(e),
            },
            Ok((m, Outcome::NeedsFloat(line))) => Ok((m, Outcome::NeedsFloat(line))),
            Err(e) => Err(e),
        }
    }
}

} // verus!
