//! What holds of every stream.

use crate::convert::{
    all_entries_resolved, all_entries_well_formed, all_resolved, all_well_formed, convert,
    convert_entries, convert_items, hashable_keys, no_larger, resolved, well_formed,
};
use crate::error::{ErrorCodeView, ErrorView};
use crate::machine::{Machine, Memo, Outcome};
use crate::numbers::{be_value, lemma_be_value_bound, lemma_pow256_values};
use crate::opcodes::{
    BINBYTES, BINBYTES8, BINFLOAT, BINGET, BININT, BININT1, BININT2, BINPUT, BINSTRING,
    BINUNICODE, BINUNICODE8, BYTEARRAY8, EXT1, EXT2, EXT4, FLOAT, FRAME, LONG1, LONG4,
    LONG_BINGET, LONG_BINPUT, NEWOBJ, NEWOBJ_EX, PROTO, SHORT_BINBYTES, SHORT_BINSTRING,
    SHORT_BINUNICODE, STOP,
};
use crate::value::{all_hashable, hashable, MemoId, ValueView};
use crate::wrappers::{build_dict, build_set, dict_insert, set_insert};
use vstd::prelude::*;

verus! {

/// The length of the payload of an opcode whose payload has the same length in every
/// stream.
pub open spec fn fixed_payload(op: u8) -> Option<int> {
    if op == PROTO || op == BINPUT || op == BINGET || op == BININT1 || op == EXT1 {
        Some(1)
    } else if op == BININT2 || op == EXT2 {
        Some(2)
    } else if op == LONG_BINPUT || op == LONG_BINGET || op == BININT || op == EXT4 {
        Some(4)
    } else if op == FRAME || op == BINFLOAT {
        Some(8)
    } else {
        None
    }
}

/// The length of the length prefix of an opcode whose payload starts with its length.
pub open spec fn length_prefix(op: u8) -> Option<int> {
    if op == SHORT_BINBYTES || op == SHORT_BINSTRING || op == SHORT_BINUNICODE || op == LONG1 {
        Some(1)
    } else if op == BINBYTES || op == BINSTRING || op == BINUNICODE || op == LONG4 {
        Some(4)
    } else if op == BINBYTES8 || op == BINUNICODE8 || op == BYTEARRAY8 {
        Some(8)
    } else {
        None
    }
}

/// The number of bytes that follow an opcode in every stream: its payload of fixed
/// length, or the length prefix of its counted payload.
pub open spec fn fixed_head(op: u8) -> Option<int> {
    if fixed_payload(op) is Some {
        fixed_payload(op)
    } else {
        length_prefix(op)
    }
}

/// The machine after `n` opcodes that went well, none of them a STOP or a FLOAT.
pub open spec fn after_steps(m: Machine, n: nat) -> Option<Machine>
    decreases n,
{
    if n == 0 {
        Some(m)
    } else {
        match m.read_byte() {
            Ok((read, op)) => if op != STOP && op != FLOAT {
                match read.step(op) {
                    Ok(next) => after_steps(next, (n - 1) as nat),
                    Err(_) => None,
                }
            } else {
                None
            },
            Err(_) => None,
        }
    }
}

/// A run is the run of every state that it comes through.
pub proof fn law_run_after_steps(m: Machine, n: nat)
    requires
        0 <= m.pos <= m.input.len(),
        after_steps(m, n) is Some,
    ensures
        m.run() == after_steps(m, n)->0.run(),
        after_steps(m, n)->0.moved_on(m),
    decreases n,
{
    if n > 0 {
        let (read, op) = m.read_byte()->Ok_0;
        law_step_moves_on(read, op);
        law_run_after_steps(read.step(op)->Ok_0, (n - 1) as nat);
    }
}

/// A machine that stands before an opcode with fewer bytes after it than the opcode
/// always has (its payload of fixed length, or the length prefix of its counted
/// payload) fails with `EOFWhileParsing` at the position after the opcode.
pub proof fn law_truncated_at(m: Machine, op: u8)
    requires
        0 <= m.pos < m.input.len(),
        m.input[m.pos] == op,
        fixed_head(op) is Some,
        m.input.len() - (m.pos + 1) < fixed_head(op)->0,
    ensures
        m.run() == Err::<(Machine, Outcome), ErrorView>(
            ErrorView::Eval(ErrorCodeView::EOFWhileParsing, m.pos + 1),
        ),
        m.decode() == Err::<(Machine, Outcome), ErrorView>(
            ErrorView::Eval(ErrorCodeView::EOFWhileParsing, m.pos + 1),
        ),
{
    let read = m.advance(1);
    assert(read.step(op) == Err::<Machine, ErrorView>(
        ErrorView::Eval(ErrorCodeView::EOFWhileParsing, m.pos + 1),
    ));
}

/// A stream of opcodes that go well, followed by an opcode with fewer bytes after it
/// than the opcode always has, fails with `EOFWhileParsing` at the position after that
/// opcode, whatever the options and whatever came before.
pub proof fn law_truncated_after_prefix(start: Machine, n: nat, op: u8)
    requires
        0 <= start.pos <= start.input.len(),
        after_steps(start, n) is Some,
        after_steps(start, n)->0.pos < start.input.len(),
        start.input[after_steps(start, n)->0.pos] == op,
        fixed_head(op) is Some,
        start.input.len() - (after_steps(start, n)->0.pos + 1) < fixed_head(op)->0,
    ensures
        start.decode() == Err::<(Machine, Outcome), ErrorView>(
            ErrorView::Eval(ErrorCodeView::EOFWhileParsing, after_steps(start, n)->0.pos + 1),
        ),
{
    law_run_after_steps(start, n);
    law_truncated_at(after_steps(start, n)->0, op);
}

/// A stream that is one opcode with a payload of fixed length, followed by fewer bytes
/// than that length, fails with `EOFWhileParsing` at the position after the opcode,
/// whatever the options.
pub proof fn law_truncated_payload(
    op: u8,
    tail: Seq<u8>,
    decode_strings: bool,
    fix_imports: bool,
    strict: bool,
)
    requires
        fixed_payload(op) is Some,
        tail.len() < fixed_payload(op)->0,
    ensures
        Machine::initial(seq![op] + tail, decode_strings, fix_imports, strict).decode() == Err::<
            (Machine, Outcome),
            ErrorView,
        >(ErrorView::Eval(ErrorCodeView::EOFWhileParsing, 1)),
{
    let start = Machine::initial(seq![op] + tail, decode_strings, fix_imports, strict);
    let read = start.advance(1);
    assert(read.step(op) == Err::<Machine, ErrorView>(
        ErrorView::Eval(ErrorCodeView::EOFWhileParsing, 1),
    ));
}

/// The stream of a BINFLOAT opcode, eight bytes and a STOP decodes to the double whose
/// bit pattern the eight bytes spell, most significant byte first; and the stream is
/// read to its end.
pub proof fn law_binfloat_bits(
    payload: Seq<u8>,
    decode_strings: bool,
    fix_imports: bool,
    strict: bool,
)
    requires
        payload.len() == 8,
    ensures
        be_value(payload) <= u64::MAX,
        match Machine::initial(
            seq![BINFLOAT] + payload + seq![STOP],
            decode_strings,
            fix_imports,
            strict,
        ).decode() {
            Ok((_, outcome)) => outcome == Outcome::Finished(
                ValueView::F64(be_value(payload) as u64),
            ),
            Err(_) => false,
        },
{
    lemma_be_value_bound(payload);
    lemma_pow256_values();
    let input = seq![BINFLOAT] + payload + seq![STOP];
    let start = Machine::initial(input, decode_strings, fix_imports, strict);
    let read = start.advance(1);
    assert(input.subrange(1, 9) =~= payload);
    let pushed = read.advance(8).push(ValueView::F64(be_value(payload) as u64));
    let stopped = Machine { stack: Seq::empty(), ..pushed.advance(1) };
    assert(pushed.advance(1).stack.drop_last() =~= Seq::empty());
    assert(pushed.run() == Ok::<(Machine, Outcome), ErrorView>(
        (stopped, Outcome::Finished(ValueView::F64(be_value(payload) as u64))),
    ));
}

/// Where a stream has been decoded to a value, nothing of it is left to read: one
/// more byte cannot be had.
pub proof fn law_nothing_left(start: Machine)
    requires
        start.decode() matches Ok((_, Outcome::Finished(_))),
    ensures
        start.decode()->Ok_0.0.pos >= start.decode()->Ok_0.0.input.len(),
        start.decode()->Ok_0.0.read_byte() is Err,
{
}

/// A list that holds a reference to its own memo entry cannot be post-processed: the
/// reference gives the error `Recursive`.
pub proof fn law_direct_cycle(memo: Memo, id: MemoId, strict: bool)
    requires
        memo.dom().finite(),
        memo.contains_key(id),
        memo[id].0 == ValueView::List(seq![ValueView::MemoRef(id)]),
    ensures
        convert(ValueView::MemoRef(id), memo, strict).0 == Err::<ValueView, ErrorView>(
            ErrorView::Syntax(ErrorCodeView::Recursive),
        ),
{
    let inner = memo.remove(id);
    let items = seq![ValueView::MemoRef(id)];
    assert(convert(ValueView::MemoRef(id), inner, strict).0 == Err::<ValueView, ErrorView>(
        ErrorView::Syntax(ErrorCodeView::Recursive),
    ));
    assert(crate::convert::convert_items(items, 0, inner, strict, Seq::empty()).0 == Err::<
        Seq<ValueView>,
        ErrorView,
    >(ErrorView::Syntax(ErrorCodeView::Recursive)));
    assert(convert(ValueView::List(items), inner, strict).0 == Err::<ValueView, ErrorView>(
        ErrorView::Syntax(ErrorCodeView::Recursive),
    ));
}

/// Dropping values from the stack leaves the position and the input as they are.
pub(crate) proof fn lemma_drop_values_stays(m: Machine, n: nat)
    requires
        0 <= m.pos <= m.input.len(),
        m.drop_values(n) is Ok,
    ensures
        m.drop_values(n)->Ok_0.moved_on(m),
        m.drop_values(n)->Ok_0.pos == m.pos,
    decreases n,
{
    if n > 0 {
        lemma_drop_values_stays(m.pop()->Ok_0.0, (n - 1) as nat);
    }
}

/// PROTO, FRAME, the stack opcodes and the memo opcodes do not move the machine back.
proof fn lemma_simple_ops_move_on(m: Machine, op: u8)
    requires
        0 <= m.pos <= m.input.len(),
    ensures
        m.op_framing(op) is Ok ==> m.op_framing(op)->Ok_0.moved_on(m),
        m.op_stack(op) is Ok ==> m.op_stack(op)->Ok_0.moved_on(m),
        m.op_memo(op) is Ok ==> m.op_memo(op)->Ok_0.moved_on(m),
{
}

/// The opcodes that push a value which their payload spells do not move the machine
/// back.
proof fn lemma_literal_ops_move_on(m: Machine, op: u8)
    requires
        0 <= m.pos <= m.input.len(),
        m.op_literal(op) is Ok,
    ensures
        m.op_literal(op)->Ok_0.moved_on(m),
{
}

/// The opcodes that build tuples, lists, dicts and sets do not move the machine back.
proof fn lemma_container_ops_move_on(m: Machine, op: u8)
    requires
        0 <= m.pos <= m.input.len(),
    ensures
        m.op_tuple(op) is Ok ==> m.op_tuple(op)->Ok_0.moved_on(m),
        m.op_list(op) is Ok ==> m.op_list(op)->Ok_0.moved_on(m),
        m.op_dict(op) is Ok ==> m.op_dict(op)->Ok_0.moved_on(m),
        m.op_set(op) is Ok ==> m.op_set(op)->Ok_0.moved_on(m),
{
}

/// The opcodes of globals and of objects do not move the machine back.
proof fn lemma_global_ops_move_on(m: Machine, op: u8)
    requires
        0 <= m.pos <= m.input.len(),
    ensures
        m.op_global(op) is Ok ==> m.op_global(op)->Ok_0.moved_on(m),
        m.op_object(op) is Ok ==> m.op_object(op)->Ok_0.moved_on(m),
{
    if m.op_object(op) is Ok && (op == NEWOBJ || op == NEWOBJ_EX) {
        let n: nat = if op == NEWOBJ {
            2
        } else {
            3
        };
        lemma_drop_values_stays(m, n);
    }
}

/// No opcode moves the machine back in its input, or changes the input or the options.
pub proof fn law_step_moves_on(m: Machine, op: u8)
    requires
        0 <= m.pos <= m.input.len(),
        m.step(op) is Ok,
    ensures
        m.step(op)->Ok_0.moved_on(m),
{
    lemma_simple_ops_move_on(m, op);
    lemma_container_ops_move_on(m, op);
    lemma_global_ops_move_on(m, op);
    if m.op_literal(op) is Ok {
        lemma_literal_ops_move_on(m, op);
    }
}

/// A run does not move the machine back in its input, or change the input or the
/// options: the machine that a run hands back has moved on.
pub proof fn law_run_moves_on(m: Machine)
    requires
        0 <= m.pos <= m.input.len(),
        m.run() is Ok,
    ensures
        m.run()->Ok_0.0.moved_on(m),
    decreases m.input.len() - m.pos,
{
    let (m1, op) = m.read_byte()->Ok_0;
    if op != STOP && op != FLOAT {
        law_step_moves_on(m1, op);
        law_run_moves_on(m1.step(op)->Ok_0);
    }
}

/// The post-processor adds no entry to the memo: the memo that it leaves has entries
/// of the memo that it was given only. So the question whether the memo is `no_larger`
/// is always answered with yes.
pub proof fn law_convert_shrinks(v: ValueView, memo: Memo, strict: bool)
    requires
        memo.dom().finite(),
    ensures
        convert(v, memo, strict).1.dom().subset_of(memo.dom()),
        no_larger(convert(v, memo, strict).1, memo),
    decreases memo.dom().len(), v, 0int,
{
    match v {
        ValueView::List(items) => lemma_convert_items_shrinks(items, 0, memo, strict, Seq::empty()),
        ValueView::Tuple(items) => lemma_convert_items_shrinks(
            items,
            0,
            memo,
            strict,
            Seq::empty(),
        ),
        ValueView::MutableSet(items) => lemma_convert_items_shrinks(
            items,
            0,
            memo,
            strict,
            Seq::empty(),
        ),
        ValueView::FrozenSet(items) => lemma_convert_items_shrinks(
            items,
            0,
            memo,
            strict,
            Seq::empty(),
        ),
        ValueView::Dict(entries) => lemma_convert_entries_shrinks(
            entries,
            0,
            memo,
            strict,
            Seq::empty(),
        ),
        ValueView::BinPersId(inner) => law_convert_shrinks(*inner, memo, strict),
        ValueView::MemoRef(id) => {
            if memo.contains_key(id) {
                let inner = memo.remove(id);
                law_convert_shrinks(memo[id].0, inner, strict);
                let rest = convert(memo[id].0, inner, strict).1;
                assert(rest.insert(id, (memo[id].0, memo[id].1 - 1)).dom().subset_of(memo.dom()));
            }
        },
        _ => {},
    }
    vstd::set_lib::lemma_len_subset(convert(v, memo, strict).1.dom(), memo.dom());
}

/// The same for the values of a sequence.
pub(crate) proof fn lemma_convert_items_shrinks(
    items: Seq<ValueView>,
    i: int,
    memo: Memo,
    strict: bool,
    acc: Seq<ValueView>,
)
    requires
        memo.dom().finite(),
    ensures
        convert_items(items, i, memo, strict, acc).1.dom().subset_of(memo.dom()),
    decreases memo.dom().len(), items, items.len() - i,
{
    if 0 <= i < items.len() {
        law_convert_shrinks(items[i], memo, strict);
        let (r, rest) = convert(items[i], memo, strict);
        if r is Ok {
            vstd::set_lib::lemma_len_subset(rest.dom(), memo.dom());
            lemma_convert_items_shrinks(items, i + 1, rest, strict, acc.push(r->Ok_0));
        }
    }
}

/// The same for the entries of a dict.
pub(crate) proof fn lemma_convert_entries_shrinks(
    entries: Seq<(ValueView, ValueView)>,
    i: int,
    memo: Memo,
    strict: bool,
    acc: Seq<(ValueView, ValueView)>,
)
    requires
        memo.dom().finite(),
    ensures
        convert_entries(entries, i, memo, strict, acc).1.dom().subset_of(memo.dom()),
    decreases memo.dom().len(), entries, entries.len() - i,
{
    if 0 <= i < entries.len() {
        law_convert_shrinks(entries[i].0, memo, strict);
        let (k, rest) = convert(entries[i].0, memo, strict);
        if k is Ok {
            vstd::set_lib::lemma_len_subset(rest.dom(), memo.dom());
            law_convert_shrinks(entries[i].1, rest, strict);
            let (v, rest2) = convert(entries[i].1, rest, strict);
            if v is Ok {
                vstd::set_lib::lemma_len_subset(rest2.dom(), rest.dom());
                lemma_convert_entries_shrinks(
                    entries,
                    i + 1,
                    rest2,
                    strict,
                    acc.push((k->Ok_0, v->Ok_0)),
                );
            }
        }
    }
}

/// Values that can all be members make a set.
proof fn lemma_build_set_succeeds(items: Seq<ValueView>, i: int, acc: Seq<ValueView>)
    requires
        0 <= i,
        all_hashable(items),
    ensures
        build_set(items, i, acc) is Some,
    decreases items.len() - i,
{
    if i < items.len() {
        assert(hashable(items[i]));
        lemma_build_set_succeeds(items, i + 1, set_insert(acc, items[i]));
    }
}

/// Entries whose keys can all be keys make a dict.
proof fn lemma_build_dict_succeeds(
    entries: Seq<(ValueView, ValueView)>,
    i: int,
    acc: Seq<(ValueView, ValueView)>,
)
    requires
        0 <= i,
        hashable_keys(entries),
    ensures
        build_dict(entries, i, acc) is Some,
    decreases entries.len() - i,
{
    if i < entries.len() {
        assert(hashable(entries[i].0));
        lemma_build_dict_succeeds(
            entries,
            i + 1,
            dict_insert(acc, entries[i].0, entries[i].1),
        );
    }
}

/// What `convert_items` makes of values that hold no reference and are well-formed.
proof fn lemma_convert_items_plain(
    items: Seq<ValueView>,
    i: int,
    memo: Memo,
    strict: bool,
    acc: Seq<ValueView>,
)
    requires
        0 <= i <= items.len(),
        all_resolved(items, strict),
        all_well_formed(items),
    ensures
        convert_items(items, i, memo, strict, acc).0 is Ok,
        convert_items(items, i, memo, strict, acc).1 == memo,
        ({
            let out = convert_items(items, i, memo, strict, acc).0->Ok_0;
            &&& out.len() == acc.len() + items.len() - i
            &&& forall|k: int| 0 <= k < acc.len() ==> #[trigger] out[k] == acc[k]
            &&& forall|k: int|
                i <= k < items.len() ==> hashable(#[trigger] out[acc.len() + k - i])
                    == hashable(items[k])
        }),
    decreases items, items.len() - i,
{
    if i < items.len() {
        law_convert_plain(items[i], memo, strict);
        let v = convert(items[i], memo, strict).0->Ok_0;
        lemma_convert_items_plain(items, i + 1, memo, strict, acc.push(v));
        let out = convert_items(items, i, memo, strict, acc).0->Ok_0;
        assert forall|k: int| 0 <= k < acc.len() implies #[trigger] out[k] == acc[k] by {
            assert(acc.push(v)[k] == acc[k]);
        }
        assert forall|k: int| i <= k < items.len() implies hashable(
            #[trigger] out[acc.len() + k - i],
        ) == hashable(items[k]) by {
            if k == i {
                assert(out[acc.len() as int] == acc.push(v)[acc.len() as int]);
            } else {
                assert(out[acc.push(v).len() + k - (i + 1)] == out[acc.len() + k - i]);
            }
        }
    }
}

/// What `convert_entries` makes of entries that hold no reference and are well-formed.
proof fn lemma_convert_entries_plain(
    entries: Seq<(ValueView, ValueView)>,
    i: int,
    memo: Memo,
    strict: bool,
    acc: Seq<(ValueView, ValueView)>,
)
    requires
        0 <= i <= entries.len(),
        all_entries_resolved(entries, strict),
        all_entries_well_formed(entries),
    ensures
        convert_entries(entries, i, memo, strict, acc).0 is Ok,
        convert_entries(entries, i, memo, strict, acc).1 == memo,
        ({
            let out = convert_entries(entries, i, memo, strict, acc).0->Ok_0;
            &&& out.len() == acc.len() + entries.len() - i
            &&& forall|k: int| 0 <= k < acc.len() ==> #[trigger] out[k] == acc[k]
            &&& forall|k: int|
                i <= k < entries.len() ==> hashable((#[trigger] out[acc.len() + k - i]).0)
                    == hashable(entries[k].0)
        }),
    decreases entries, entries.len() - i,
{
    if i < entries.len() {
        law_convert_plain(entries[i].0, memo, strict);
        law_convert_plain(entries[i].1, memo, strict);
        let k0 = convert(entries[i].0, memo, strict).0->Ok_0;
        let v0 = convert(entries[i].1, memo, strict).0->Ok_0;
        lemma_convert_entries_plain(entries, i + 1, memo, strict, acc.push((k0, v0)));
        let out = convert_entries(entries, i, memo, strict, acc).0->Ok_0;
        assert forall|k: int| 0 <= k < acc.len() implies #[trigger] out[k] == acc[k] by {
            assert(acc.push((k0, v0))[k] == acc[k]);
        }
        assert forall|k: int| i <= k < entries.len() implies hashable(
            (#[trigger] out[acc.len() + k - i]).0,
        ) == hashable(entries[k].0) by {
            if k == i {
                assert(out[acc.len() as int] == acc.push((k0, v0))[acc.len() as int]);
            } else {
                assert(out[acc.push((k0, v0)).len() + k - (i + 1)] == out[acc.len() + k - i]);
            }
        }
    }
}

/// The post-processor succeeds on every value that holds no reference to the memo (and
/// no global, where the options are strict) and is well-formed, whatever the memo; it
/// leaves the memo as it is; and what it makes can be a key exactly when the value can.
pub proof fn law_convert_plain(v: ValueView, memo: Memo, strict: bool)
    requires
        resolved(v, strict),
        well_formed(v),
    ensures
        convert(v, memo, strict).0 is Ok,
        convert(v, memo, strict).1 == memo,
        hashable(convert(v, memo, strict).0->Ok_0) == hashable(v),
    decreases v, 0int,
{
    match v {
        ValueView::List(items) => {
            lemma_convert_items_plain(items, 0, memo, strict, Seq::empty());
        },
        ValueView::Tuple(items) => {
            lemma_convert_items_plain(items, 0, memo, strict, Seq::empty());
            let out = convert_items(items, 0, memo, strict, Seq::empty()).0->Ok_0;
            assert forall|k: int| 0 <= k < items.len() implies hashable(#[trigger] out[k])
                == hashable(items[k]) by {
                assert(out[0 + k - 0] == out[k]);
            }
            assert(all_hashable(out) == all_hashable(items)) by {
                if all_hashable(items) {
                    assert forall|k: int| 0 <= k < out.len() implies hashable(
                        #[trigger] out[k],
                    ) by {
                        assert(hashable(items[k]));
                    }
                }
                if all_hashable(out) {
                    assert forall|k: int| 0 <= k < items.len() implies hashable(
                        #[trigger] items[k],
                    ) by {
                        assert(hashable(out[k]));
                    }
                }
            }
        },
        ValueView::MutableSet(items) => {
            lemma_convert_items_plain(items, 0, memo, strict, Seq::empty());
            let out = convert_items(items, 0, memo, strict, Seq::empty()).0->Ok_0;
            assert forall|k: int| 0 <= k < out.len() implies hashable(#[trigger] out[k]) by {
                assert(out[0 + k - 0] == out[k]);
                assert(hashable(items[k]));
            }
            lemma_build_set_succeeds(out, 0, Seq::empty());
        },
        ValueView::FrozenSet(items) => {
            lemma_convert_items_plain(items, 0, memo, strict, Seq::empty());
            let out = convert_items(items, 0, memo, strict, Seq::empty()).0->Ok_0;
            assert forall|k: int| 0 <= k < out.len() implies hashable(#[trigger] out[k]) by {
                assert(out[0 + k - 0] == out[k]);
                assert(hashable(items[k]));
            }
            lemma_build_set_succeeds(out, 0, Seq::empty());
        },
        ValueView::Dict(entries) => {
            lemma_convert_entries_plain(entries, 0, memo, strict, Seq::empty());
            let out = convert_entries(entries, 0, memo, strict, Seq::empty()).0->Ok_0;
            assert forall|k: int| 0 <= k < out.len() implies hashable((#[trigger] out[k]).0) by {
                assert(out[0 + k - 0] == out[k]);
                assert(hashable(entries[k].0));
            }
            lemma_build_dict_succeeds(out, 0, Seq::empty());
        },
        ValueView::BinPersId(inner) => {
            law_convert_plain(*inner, memo, strict);
        },
        _ => {},
    }
}

/// What the post-processor makes of values that hold no reference does not depend on
/// the memo.
proof fn lemma_convert_items_whatever_memo(
    items: Seq<ValueView>,
    i: int,
    first: Memo,
    second: Memo,
    strict: bool,
    acc: Seq<ValueView>,
)
    requires
        0 <= i <= items.len(),
        all_resolved(items, strict),
        all_well_formed(items),
    ensures
        convert_items(items, i, first, strict, acc).0 == convert_items(
            items,
            i,
            second,
            strict,
            acc,
        ).0,
    decreases items, items.len() - i,
{
    if i < items.len() {
        law_convert_plain(items[i], first, strict);
        law_convert_plain(items[i], second, strict);
        law_convert_whatever_memo(items[i], first, second, strict);
        let v = convert(items[i], first, strict).0->Ok_0;
        lemma_convert_items_whatever_memo(items, i + 1, first, second, strict, acc.push(v));
    }
}

/// The same for the entries of a dict.
proof fn lemma_convert_entries_whatever_memo(
    entries: Seq<(ValueView, ValueView)>,
    i: int,
    first: Memo,
    second: Memo,
    strict: bool,
    acc: Seq<(ValueView, ValueView)>,
)
    requires
        0 <= i <= entries.len(),
        all_entries_resolved(entries, strict),
        all_entries_well_formed(entries),
    ensures
        convert_entries(entries, i, first, strict, acc).0 == convert_entries(
            entries,
            i,
            second,
            strict,
            acc,
        ).0,
    decreases entries, entries.len() - i,
{
    if i < entries.len() {
        law_convert_plain(entries[i].0, first, strict);
        law_convert_plain(entries[i].0, second, strict);
        law_convert_plain(entries[i].1, first, strict);
        law_convert_plain(entries[i].1, second, strict);
        law_convert_whatever_memo(entries[i].0, first, second, strict);
        law_convert_whatever_memo(entries[i].1, first, second, strict);
        let k = convert(entries[i].0, first, strict).0->Ok_0;
        let v = convert(entries[i].1, first, strict).0->Ok_0;
        lemma_convert_entries_whatever_memo(
            entries,
            i + 1,
            first,
            second,
            strict,
            acc.push((k, v)),
        );
    }
}

/// What the post-processor makes of a value that holds no reference to the memo does
/// not depend on the memo.
pub proof fn law_convert_whatever_memo(v: ValueView, first: Memo, second: Memo, strict: bool)
    requires
        resolved(v, strict),
        well_formed(v),
    ensures
        convert(v, first, strict).0 == convert(v, second, strict).0,
    decreases v, 0int,
{
    match v {
        ValueView::List(items) => {
            lemma_convert_items_whatever_memo(items, 0, first, second, strict, Seq::empty());
        },
        ValueView::Tuple(items) => {
            lemma_convert_items_whatever_memo(items, 0, first, second, strict, Seq::empty());
        },
        ValueView::MutableSet(items) => {
            lemma_convert_items_whatever_memo(items, 0, first, second, strict, Seq::empty());
        },
        ValueView::FrozenSet(items) => {
            lemma_convert_items_whatever_memo(items, 0, first, second, strict, Seq::empty());
        },
        ValueView::Dict(entries) => {
            lemma_convert_entries_whatever_memo(
                entries,
                0,
                first,
                second,
                strict,
                Seq::empty(),
            );
        },
        ValueView::BinPersId(inner) => {
            law_convert_whatever_memo(*inner, first, second, strict);
        },
        _ => {},
    }
}

/// A value that is shared through the memo comes out once for each reference: a tuple
/// of two references to one entry, which counts both, becomes the tuple of the
/// converted value of the entry, twice; and the entry has left the memo.
pub proof fn law_convert_shared(memo: Memo, id: MemoId, strict: bool)
    requires
        memo.dom().finite(),
        memo.contains_key(id),
        memo[id].1 == 2,
        resolved(memo[id].0, strict),
        well_formed(memo[id].0),
    ensures
        ({
            let shared = ValueView::Tuple(seq![ValueView::MemoRef(id), ValueView::MemoRef(id)]);
            let once = convert(memo[id].0, memo.remove(id), strict).0;
            &&& once is Ok
            &&& convert(shared, memo, strict).0 == Ok::<ValueView, ErrorView>(
                ValueView::Tuple(seq![once->Ok_0, once->Ok_0]),
            )
            &&& convert(shared, memo, strict).1 == memo.remove(id)
        }),
{
    let value = memo[id].0;
    let items = seq![ValueView::MemoRef(id), ValueView::MemoRef(id)];
    let counted = memo.insert(id, (value, 1));
    law_convert_reference(memo, id, strict);
    law_convert_reference(counted, id, strict);
    assert(counted.remove(id) =~= memo.remove(id));
    let once = convert(value, memo.remove(id), strict).0->Ok_0;
    vstd::set_lib::lemma_len_subset(counted.dom(), memo.dom());
    assert(counted.dom() =~= memo.dom());
    vstd::set_lib::lemma_len_subset(memo.remove(id).dom(), counted.dom());
    assert(convert_items(items, 2, memo.remove(id), strict, seq![once, once]) == (
        Ok::<Seq<ValueView>, ErrorView>(seq![once, once]),
        memo.remove(id),
    ));
    assert(Seq::<ValueView>::empty().push(once).push(once) =~= seq![once, once]);
    assert(convert_items(items, 1, counted, strict, Seq::empty().push(once)) == (
        Ok::<Seq<ValueView>, ErrorView>(seq![once, once]),
        memo.remove(id),
    ));
    assert(convert_items(items, 0, memo, strict, Seq::empty()) == (
        Ok::<Seq<ValueView>, ErrorView>(seq![once, once]),
        memo.remove(id),
    ));
}

/// A reference to a memo entry whose value holds no reference itself becomes the
/// converted value of that entry. The entry leaves the memo with its last reference,
/// and counts one reference less otherwise.
pub proof fn law_convert_reference(memo: Memo, id: MemoId, strict: bool)
    requires
        memo.dom().finite(),
        memo.contains_key(id),
        resolved(memo[id].0, strict),
        well_formed(memo[id].0),
    ensures
        convert(ValueView::MemoRef(id), memo, strict).0 == convert(
            memo[id].0,
            memo.remove(id),
            strict,
        ).0,
        convert(ValueView::MemoRef(id), memo, strict).0 is Ok,
        convert(ValueView::MemoRef(id), memo, strict).1 == (if memo[id].1 - 1 <= 0 {
            memo.remove(id)
        } else {
            memo.insert(id, (memo[id].0, memo[id].1 - 1))
        }),
{
    law_convert_plain(memo[id].0, memo.remove(id), strict);
    assert(memo.remove(id).insert(id, (memo[id].0, memo[id].1 - 1)) =~= memo.insert(
        id,
        (memo[id].0, memo[id].1 - 1),
    ));
}

} // verus!
