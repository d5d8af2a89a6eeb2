//! References to the memo: while a stream is decoded, every reference that a value
//! holds is to an entry of the memo.

use crate::machine::{Machine, Memo, Outcome};
use crate::opcodes::{
    APPEND, BINGET, BUILD, DICT, EMPTY_DICT, EMPTY_LIST, EMPTY_SET, EMPTY_TUPLE, FLOAT,
    FROZENSET, GET, GLOBAL, INST, LIST, LONG_BINGET, NEWOBJ, NEWOBJ_EX, OBJ, SETITEM,
    STACK_GLOBAL, STOP, TUPLE1, TUPLE2, TUPLE3,
};
use crate::value::{Global, MemoId, ValueView};
use crate::wrappers::{dict_extend, dict_insert, lemma_key_index, set_extend, set_insert};
use vstd::prelude::*;

verus! {

/// Whether every reference to the memo inside the values of `items` is to one of `ids`.
pub open spec fn all_refs_within(items: Seq<ValueView>, ids: Set<MemoId>) -> bool
    decreases items, 1int,
{
    forall|i: int| 0 <= i < items.len() ==> refs_within(#[trigger] items[i], ids)
}

/// Whether every reference to the memo inside the keys and the values of `entries` is
/// to one of `ids`.
pub open spec fn all_entry_refs_within(
    entries: Seq<(ValueView, ValueView)>,
    ids: Set<MemoId>,
) -> bool
    decreases entries, 1int,
{
    forall|i: int|
        0 <= i < entries.len() ==> refs_within((#[trigger] entries[i]).0, ids) && refs_within(
            entries[i].1,
            ids,
        )
}

/// Whether every reference to the memo inside `v` is to one of `ids`.
pub open spec fn refs_within(v: ValueView, ids: Set<MemoId>) -> bool
    decreases v, 0int,
{
    match v {
        ValueView::MemoRef(id) => ids.contains(id),
        ValueView::List(items) => all_refs_within(items, ids),
        ValueView::Tuple(items) => all_refs_within(items, ids),
        ValueView::MutableSet(items) => all_refs_within(items, ids),
        ValueView::FrozenSet(items) => all_refs_within(items, ids),
        ValueView::Dict(entries) => all_entry_refs_within(entries, ids),
        ValueView::BinPersId(inner) => refs_within(*inner, ids),
        _ => true,
    }
}

/// Whether every value that is kept in `memo` refers to entries of `ids` only.
pub open spec fn memo_refs_within(memo: Memo, ids: Set<MemoId>) -> bool {
    forall|id: MemoId| memo.contains_key(id) ==> refs_within((#[trigger] memo[id]).0, ids)
}

/// Whether every value of every stack of `stacks` refers to entries of `ids` only.
pub open spec fn stacks_refs_within(stacks: Seq<Seq<ValueView>>, ids: Set<MemoId>) -> bool {
    forall|i: int| 0 <= i < stacks.len() ==> all_refs_within(#[trigger] stacks[i], ids)
}

impl Machine {
    /// Whether every reference that the machine holds, on its stacks and in its memo, is
    /// to an entry of the memo.
    pub open spec fn linked(self) -> bool {
        &&& all_refs_within(self.stack, self.memo.dom())
        &&& stacks_refs_within(self.metastack, self.memo.dom())
        &&& memo_refs_within(self.memo, self.memo.dom())
    }
}

/// A value that refers to some ids only refers to the ids of a larger set only.
pub(crate) proof fn lemma_refs_grow(v: ValueView, a: Set<MemoId>, b: Set<MemoId>)
    requires
        a.subset_of(b),
        refs_within(v, a),
    ensures
        refs_within(v, b),
    decreases v, 0int,
{
    match v {
        ValueView::List(items) => lemma_all_refs_grow(items, a, b),
        ValueView::Tuple(items) => lemma_all_refs_grow(items, a, b),
        ValueView::MutableSet(items) => lemma_all_refs_grow(items, a, b),
        ValueView::FrozenSet(items) => lemma_all_refs_grow(items, a, b),
        ValueView::Dict(entries) => lemma_all_entry_refs_grow(entries, a, b),
        ValueView::BinPersId(inner) => lemma_refs_grow(*inner, a, b),
        _ => {},
    }
}

/// The same for the values of a sequence.
pub(crate) proof fn lemma_all_refs_grow(items: Seq<ValueView>, a: Set<MemoId>, b: Set<MemoId>)
    requires
        a.subset_of(b),
        all_refs_within(items, a),
    ensures
        all_refs_within(items, b),
    decreases items, 1int,
{
    assert forall|i: int| 0 <= i < items.len() implies refs_within(#[trigger] items[i], b) by {
        lemma_refs_grow(items[i], a, b);
    }
}

/// The same for the entries of a dict.
pub(crate) proof fn lemma_all_entry_refs_grow(
    entries: Seq<(ValueView, ValueView)>,
    a: Set<MemoId>,
    b: Set<MemoId>,
)
    requires
        a.subset_of(b),
        all_entry_refs_within(entries, a),
    ensures
        all_entry_refs_within(entries, b),
    decreases entries, 1int,
{
    assert forall|i: int| 0 <= i < entries.len() implies refs_within(
        (#[trigger] entries[i]).0,
        b,
    ) && refs_within(entries[i].1, b) by {
        lemma_refs_grow(entries[i].0, a, b);
        lemma_refs_grow(entries[i].1, a, b);
    }
}

/// A machine stays linked when its memo gets an entry whose value refers to entries of
/// the new memo only.
pub(crate) proof fn lemma_linked_insert(m: Machine, id: MemoId, v: ValueView, count: int)
    requires
        m.linked(),
        refs_within(v, m.memo.dom().insert(id)),
    ensures
        (Machine { memo: m.memo.insert(id, (v, count)), ..m }).linked(),
{
    let a = m.memo.dom();
    let b = m.memo.dom().insert(id);
    let after = Machine { memo: m.memo.insert(id, (v, count)), ..m };
    lemma_all_refs_grow(m.stack, a, b);
    assert forall|i: int| 0 <= i < m.metastack.len() implies all_refs_within(
        #[trigger] m.metastack[i],
        b,
    ) by {
        lemma_all_refs_grow(m.metastack[i], a, b);
    }
    assert forall|other: MemoId| after.memo.contains_key(other) implies refs_within(
        (#[trigger] after.memo[other]).0,
        b,
    ) by {
        if other != id {
            lemma_refs_grow(m.memo[other].0, a, b);
        }
    }
}

/// A machine stays linked when a value that refers to entries of the memo only is
/// pushed.
pub(crate) proof fn lemma_linked_push(m: Machine, v: ValueView)
    requires
        m.linked(),
        refs_within(v, m.memo.dom()),
    ensures
        m.push(v).linked(),
{
}

/// The value that the top of a linked machine stands for refers to entries of the memo
/// only.
pub(crate) proof fn lemma_top_value_refs(m: Machine)
    requires
        m.linked(),
        m.top_value() is Ok,
    ensures
        refs_within(m.top_value()->Ok_0, m.memo.dom()),
{
}

/// A machine stays linked when the value that its top stands for is replaced by one
/// that refers to entries of the memo only.
pub(crate) proof fn lemma_linked_set_top(m: Machine, v: ValueView)
    requires
        m.linked(),
        m.top_value() is Ok,
        refs_within(v, m.memo.dom()),
    ensures
        m.set_top_value(v).linked(),
{
    if let ValueView::MemoRef(id) = m.stack.last() {
        assert(m.memo.dom().insert(id) =~= m.memo.dom());
    }
}

/// The members of a set after values came are members from before or those values.
pub(crate) proof fn lemma_set_extend_refs(
    s: Seq<ValueView>,
    items: Seq<ValueView>,
    i: int,
    ids: Set<MemoId>,
)
    requires
        0 <= i,
        all_refs_within(s, ids),
        all_refs_within(items, ids),
    ensures
        all_refs_within(set_extend(s, items, i), ids),
    decreases items.len() - i,
{
    if i < items.len() {
        lemma_set_extend_refs(set_insert(s, items[i]), items, i + 1, ids);
    }
}

/// The entries of a dict after an entry came hold keys and values from before or those
/// of the entry.
pub(crate) proof fn lemma_dict_insert_refs(
    d: Seq<(ValueView, ValueView)>,
    k: ValueView,
    v: ValueView,
    ids: Set<MemoId>,
)
    requires
        all_entry_refs_within(d, ids),
        refs_within(k, ids),
        refs_within(v, ids),
    ensures
        all_entry_refs_within(dict_insert(d, k, v), ids),
{
    lemma_key_index(d, k, 0);
}

/// The same for the entries that a sequence of keys and values spells.
pub(crate) proof fn lemma_dict_extend_refs(
    d: Seq<(ValueView, ValueView)>,
    items: Seq<ValueView>,
    i: int,
    ids: Set<MemoId>,
)
    requires
        0 <= i,
        all_entry_refs_within(d, ids),
        all_refs_within(items, ids),
    ensures
        all_entry_refs_within(dict_extend(d, items, i), ids),
    decreases items.len() - i,
{
    if i + 1 < items.len() {
        lemma_dict_insert_refs(d, items[i], items[i + 1], ids);
        lemma_dict_extend_refs(dict_insert(d, items[i], items[i + 1]), items, i + 2, ids);
    }
}

/// What `resolve` makes of a value refers to entries of the memo only, and the machine
/// stays linked with the same entries.
pub(crate) proof fn lemma_resolve(m: Machine, v: ValueView)
    requires
        m.linked(),
        refs_within(v, m.memo.dom()),
    ensures
        m.resolve(v).0.linked(),
        m.resolve(v).0.memo.dom() == m.memo.dom(),
        m.resolve(v).0 == (Machine { memo: m.resolve(v).0.memo, ..m }),
        m.resolve(v).1 is Some ==> refs_within(m.resolve(v).1->0, m.memo.dom()),
{
    if let ValueView::MemoRef(id) = v {
        if m.memo.contains_key(id) {
            assert(m.memo.dom().insert(id) =~= m.memo.dom());
        }
    }
}

/// The same for `pop_resolve`, which takes the value from the stack.
pub(crate) proof fn lemma_pop_resolve(m: Machine)
    requires
        m.linked(),
        m.pop_resolve() is Ok,
    ensures
        m.pop_resolve()->Ok_0.0.linked(),
        m.pop_resolve()->Ok_0.0.memo.dom() == m.memo.dom(),
        refs_within(m.pop_resolve()->Ok_0.1, m.memo.dom()),
{
    lemma_resolve(m.pop()->Ok_0.0, m.stack.last());
}

/// The same for an item of an argument tuple.
pub(crate) proof fn lemma_argument(m: Machine, args: Seq<ValueView>, i: int)
    requires
        m.linked(),
        all_refs_within(args, m.memo.dom()),
    ensures
        m.argument(args, i).0.linked(),
        m.argument(args, i).0.memo.dom() == m.memo.dom(),
        m.argument(args, i).1 is Some ==> refs_within(m.argument(args, i).1->0, m.memo.dom()),
{
    if 0 <= i < args.len() {
        lemma_resolve(m, args[i]);
    }
}

/// A machine stays linked when the top of its stack is moved into the memo.
pub(crate) proof fn lemma_store_memo(m: Machine, id: MemoId)
    requires
        m.linked(),
        m.store_memo(id) is Ok,
    ensures
        m.store_memo(id)->Ok_0.linked(),
{
    let (m1, top) = m.pop()->Ok_0;
    let item = match top {
        ValueView::MemoRef(other) => m1.memo[other].0,
        _ => top,
    };
    let a = m1.memo.dom();
    let b = m1.memo.dom().insert(id);
    lemma_refs_grow(item, a, b);
    lemma_linked_insert(m1, id, item, 1);
}

/// A machine stays linked when a reference to an entry of its memo is pushed.
pub(crate) proof fn lemma_push_memo_ref(m: Machine, id: MemoId)
    requires
        m.linked(),
        m.push_memo_ref(id) is Ok,
    ensures
        m.push_memo_ref(id)->Ok_0.linked(),
{
    assert(m.memo.dom().insert(id) =~= m.memo.dom());
}

/// A machine stays linked when values that refer to entries of its memo only are added
/// to the list on its top.
pub(crate) proof fn lemma_extend_list(m: Machine, items: Seq<ValueView>)
    requires
        m.linked(),
        all_refs_within(items, m.memo.dom()),
        m.extend_list(items) is Ok,
    ensures
        m.extend_list(items)->Ok_0.linked(),
{
    reveal_with_fuel(refs_within, 2);
    lemma_top_value_refs(m);
    let list = m.top_value()->Ok_0->List_0;
    lemma_linked_set_top(m, ValueView::List(list + items));
}

/// The same for the dict on its top.
pub(crate) proof fn lemma_extend_dict(m: Machine, items: Seq<ValueView>)
    requires
        m.linked(),
        all_refs_within(items, m.memo.dom()),
        m.extend_dict(items) is Ok,
    ensures
        m.extend_dict(items)->Ok_0.linked(),
{
    let dict = m.top_value()->Ok_0->Dict_0;
    lemma_dict_extend_refs(dict, items, 0, m.memo.dom());
    lemma_linked_set_top(m, ValueView::Dict(dict_extend(dict, items, 0)));
}

/// The same for the set on its top.
pub(crate) proof fn lemma_extend_set(m: Machine, items: Seq<ValueView>)
    requires
        m.linked(),
        all_refs_within(items, m.memo.dom()),
        m.extend_set(items) is Ok,
    ensures
        m.extend_set(items)->Ok_0.linked(),
{
    let set = m.top_value()->Ok_0->MutableSet_0;
    lemma_set_extend_refs(set, items, 0, m.memo.dom());
    lemma_linked_set_top(m, ValueView::MutableSet(set_extend(set, items, 0)));
}

/// A machine stays linked when a global is applied to arguments that refer to entries
/// of its memo only.
pub(crate) proof fn lemma_reduce_global(m: Machine, global: ValueView, args: Seq<ValueView>)
    requires
        m.linked(),
        all_refs_within(args, m.memo.dom()),
        m.reduce_global(global, args) is Ok,
    ensures
        m.reduce_global(global, args)->Ok_0.linked(),
{
    let after = m.reduce_global(global, args)->Ok_0;
    match global {
        ValueView::Global(Global::MutableSet) | ValueView::Global(Global::Frozenset) => {
            lemma_argument(m, args, 0);
            let items = m.argument(args, 0).1->0->List_0;
            lemma_set_extend_refs(Seq::empty(), items, 0, m.memo.dom());
        },
        ValueView::Global(Global::Bytearray) => {
            lemma_argument(m, args, 0);
            assert(after == m.argument(args, 0).0.push(after.stack.last()));
        },
        ValueView::Global(Global::List) | ValueView::Global(Global::Int) => {
            lemma_argument(m, args, 0);
        },
        ValueView::Global(Global::Encode) => {
            lemma_argument(m, args, 1);
            let m1 = m.argument(args, 1).0;
            lemma_argument(m1, args, 0);
            assert(after == m1.argument(args, 0).0.push(after.stack.last()));
        },
        _ => {},
    }
}

/// A machine stays linked when values are dropped from its stack.
pub(crate) proof fn lemma_drop_values(m: Machine, n: nat)
    requires
        m.linked(),
        m.drop_values(n) is Ok,
    ensures
        m.drop_values(n)->Ok_0.linked(),
        m.drop_values(n)->Ok_0.memo == m.memo,
    decreases n,
{
    if n > 0 {
        lemma_drop_values(m.pop()->Ok_0.0, (n - 1) as nat);
    }
}

/// A machine stays linked over the opcodes that store into the memo and those that
/// load from it.
pub(crate) proof fn lemma_op_memo(m: Machine, op: u8)
    requires
        m.linked(),
        m.op_memo(op) is Ok,
    ensures
        m.op_memo(op)->Ok_0.linked(),
{
    let (m1, id) = m.read_memo_id(op)->Ok_0;
    if op == GET || op == BINGET || op == LONG_BINGET {
        lemma_push_memo_ref(m1, id);
    } else {
        lemma_store_memo(m1, id);
    }
}

/// A machine stays linked over the opcodes that push a value which their payload
/// spells: such a value holds no reference.
pub(crate) proof fn lemma_op_literal(m: Machine, op: u8)
    requires
        m.linked(),
        m.op_literal(op) is Ok,
    ensures
        m.op_literal(op)->Ok_0.linked(),
{
    reveal_with_fuel(refs_within, 2);
    let after = m.op_literal(op)->Ok_0;
    let before = Machine { stack: m.stack, ..after };
    assert(before == (Machine { pos: after.pos, ..m }));
    assert(after == before.push(after.stack.last()));
    assert(after.stack.last() !is MemoRef);
    lemma_linked_push(before, after.stack.last());
}

/// A machine stays linked over the opcodes that build tuples, lists, dicts and sets.
pub(crate) proof fn lemma_op_container(m: Machine, op: u8)
    requires
        m.linked(),
    ensures
        m.op_tuple(op) is Ok ==> m.op_tuple(op)->Ok_0.linked(),
        m.op_list(op) is Ok ==> m.op_list(op)->Ok_0.linked(),
        m.op_dict(op) is Ok ==> m.op_dict(op)->Ok_0.linked(),
        m.op_set(op) is Ok ==> m.op_set(op)->Ok_0.linked(),
{
    reveal_with_fuel(refs_within, 2);
    let ids = m.memo.dom();
    if m.op_tuple(op) is Ok {
        if op == EMPTY_TUPLE {
            lemma_linked_push(m, ValueView::Tuple(Seq::empty()));
        } else if op == TUPLE1 {
            let (m1, item) = m.pop()->Ok_0;
            lemma_linked_push(m1, ValueView::Tuple(seq![item]));
        } else if op == TUPLE2 {
            let (m1, item2) = m.pop()->Ok_0;
            let (m2, item1) = m1.pop()->Ok_0;
            lemma_linked_push(m2, ValueView::Tuple(seq![item1, item2]));
        } else if op == TUPLE3 {
            let (m1, item3) = m.pop()->Ok_0;
            let (m2, item2) = m1.pop()->Ok_0;
            let (m3, item1) = m2.pop()->Ok_0;
            lemma_linked_push(m3, ValueView::Tuple(seq![item1, item2, item3]));
        }
    }
    if m.op_list(op) is Ok {
        if op == EMPTY_LIST {
            lemma_linked_push(m, ValueView::List(Seq::empty()));
        } else if op == APPEND {
            let (m1, value) = m.pop()->Ok_0;
            lemma_extend_list(m1, seq![value]);
        } else if op != LIST {
            let (m1, items) = m.pop_mark()->Ok_0;
            lemma_extend_list(m1, items);
        }
    }
    if m.op_dict(op) is Ok {
        if op == EMPTY_DICT {
            lemma_linked_push(m, ValueView::Dict(Seq::empty()));
        } else if op == DICT {
            lemma_dict_extend_refs(Seq::empty(), m.pop_mark()->Ok_0.1, 0, ids);
        } else if op == SETITEM {
            let (m1, value) = m.pop()->Ok_0;
            let (m2, key) = m1.pop()->Ok_0;
            lemma_extend_dict(m2, seq![key, value]);
        } else {
            let (m1, items) = m.pop_mark()->Ok_0;
            lemma_extend_dict(m1, items);
        }
    }
    if m.op_set(op) is Ok {
        if op == EMPTY_SET {
            lemma_linked_push(m, ValueView::MutableSet(Seq::empty()));
        } else if op == FROZENSET {
            lemma_set_extend_refs(Seq::empty(), m.pop_mark()->Ok_0.1, 0, ids);
        } else {
            let (m1, items) = m.pop_mark()->Ok_0;
            lemma_extend_set(m1, items);
        }
    }
}

/// A machine stays linked over GLOBAL, STACK_GLOBAL and REDUCE.
pub(crate) proof fn lemma_op_global(m: Machine, op: u8)
    requires
        m.linked(),
        m.op_global(op) is Ok,
    ensures
        m.op_global(op)->Ok_0.linked(),
{
    if op == STACK_GLOBAL {
        lemma_pop_resolve(m);
        lemma_pop_resolve(m.pop_resolve()->Ok_0.0);
    } else if op != GLOBAL {
        lemma_pop_resolve(m);
        let (m1, tuple) = m.pop_resolve()->Ok_0;
        lemma_pop_resolve(m1);
        let (m2, global) = m1.pop_resolve()->Ok_0;
        lemma_reduce_global(m2, global, tuple->Tuple_0);
    }
}

/// A machine stays linked over INST, OBJ, NEWOBJ, NEWOBJ_EX, BUILD and BINPERSID.
pub(crate) proof fn lemma_op_object(m: Machine, op: u8)
    requires
        m.linked(),
        m.op_object(op) is Ok,
    ensures
        m.op_object(op)->Ok_0.linked(),
{
    reveal_with_fuel(refs_within, 2);
    let empty = ValueView::Dict(Seq::empty());
    if op == INST {
        let m2 = m.read_line()->Ok_0.0.read_line()->Ok_0.0;
        lemma_linked_push(m2.pop_mark()->Ok_0.0, empty);
    } else if op == OBJ {
        lemma_linked_push(m.pop_mark()->Ok_0.0.pop()->Ok_0.0, empty);
    } else if op == NEWOBJ || op == NEWOBJ_EX {
        let n: nat = if op == NEWOBJ {
            2
        } else {
            3
        };
        lemma_drop_values(m, n);
        lemma_linked_push(m.drop_values(n)->Ok_0, empty);
    }
}

/// Every opcode keeps the machine linked.
pub(crate) proof fn lemma_step(m: Machine, op: u8)
    requires
        m.linked(),
        m.step(op) is Ok,
    ensures
        m.step(op)->Ok_0.linked(),
{
    lemma_op_container(m, op);
    if m.op_memo(op) is Ok {
        lemma_op_memo(m, op);
    }
    if m.op_literal(op) is Ok {
        lemma_op_literal(m, op);
    }
    if m.op_global(op) is Ok {
        lemma_op_global(m, op);
    }
    if m.op_object(op) is Ok {
        lemma_op_object(m, op);
    }
}

/// While a stream is decoded, every reference to the memo is to an entry of the memo:
/// a linked machine is linked when its run ends, and the value that a finished run hands
/// out refers to entries of the memo only.
pub proof fn law_run_linked(m: Machine)
    requires
        m.linked(),
        m.run() is Ok,
    ensures
        m.run()->Ok_0.0.linked(),
        m.run()->Ok_0.1 matches Outcome::Finished(v) ==> refs_within(
            v,
            m.run()->Ok_0.0.memo.dom(),
        ),
    decreases m.input.len() - m.pos,
{
    let (m1, op) = m.read_byte()->Ok_0;
    if op != STOP && op != FLOAT {
        lemma_step(m1, op);
        law_run_linked(m1.step(op)->Ok_0);
    }
}

/// The machine that has read nothing is linked.
pub proof fn law_initial_linked(
    input: Seq<u8>,
    decode_strings: bool,
    fix_imports: bool,
    strict: bool,
)
    ensures
        Machine::initial(input, decode_strings, fix_imports, strict).linked(),
{
}

} // verus!
