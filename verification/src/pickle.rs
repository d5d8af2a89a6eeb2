//! The decoder: the stack machine run on the bytes of a stream.

use crate::bigint::{
    big_clone, big_parse_bytes, big_to_i64, decode_binary_long, parse_decimal,
};
use crate::convert::{
    all_entries_resolved, all_entries_well_formed, all_resolved, all_well_formed, convert,
    convert_entries, convert_items, lemma_build_dict_resolved, lemma_build_dict_well_formed,
    lemma_build_set_resolved, lemma_build_set_well_formed, no_larger, resolved, well_formed,
};
use crate::error::{Error, ErrorCode, ErrorCodeView, ErrorView};
use crate::links::{law_run_linked, lemma_linked_push};
use crate::machine::{classify, line_end, release, Machine, Memo, Outcome};
use crate::numbers::{read_i32_le, read_u16_le, read_u32_le, read_u64_be, read_u64_le};
use crate::opcodes::{
    ADDITEMS, APPEND, APPENDS, BINBYTES, BINBYTES8, BINFLOAT, BINGET, BININT, BININT1, BININT2,
    BINPERSID, BINPUT, BINSTRING, BINUNICODE, BINUNICODE8, BUILD, BYTEARRAY8, DICT, DUP,
    EMPTY_DICT, EMPTY_LIST, EMPTY_SET, EMPTY_TUPLE, EXT1, EXT2, EXT4, FLOAT, FRAME, FROZENSET, GET,
    GLOBAL, INST, INT, LIST, LONG, LONG1, LONG4, LONG_BINGET, LONG_BINPUT, MARK, MEMOIZE, NEWFALSE,
    NEWOBJ, NEWOBJ_EX, NEWTRUE, NONE, OBJ, PERSID, POP, POP_MARK, PROTO, PUT, REDUCE, SETITEM,
    SETITEMS, SHORT_BINBYTES, SHORT_BINSTRING, SHORT_BINUNICODE, STACK_GLOBAL, STOP, STRING, TUPLE,
    TUPLE1, TUPLE2, TUPLE3, UNICODE,
};
use crate::text::{
    bytes_equal, decode_escapes, decode_unicode_escapes, parse_i64, parse_u32, string_from_utf8,
    to_latin1,
};
use crate::value::{
    all_hashable, debug_string, pair_views, value_view, views, Global, MemoId, Value, ValueView,
};
use crate::wrappers::{build_set, F64Wrapper, HashMapWrapper, HashSetWrapper};
use std::collections::HashMap;
use vstd::prelude::*;
use vstd::slice::{slice_subrange, slice_to_vec};

verus! {

broadcast use vstd::std_specs::hash::group_hash_axioms;

/// How a stream is to be decoded.
pub struct UnpicklerOptions {
    /// Below protocol 3, accept the module names of the 2.x lineage for globals.
    pub fix_imports: bool,
    /// The codec of the strings of protocols 0 and 1. `bytes` keeps them as bytes, as
    /// `decode_strings` does when it is off; every other name stands for UTF-8.
    pub encoding: String,
    /// Fail where a global is left in the decoded value.
    pub strict: bool,
    /// Decode the strings of protocols 0 and 1 to text.
    pub decode_strings: bool,
}

impl Default for UnpicklerOptions {
    fn default() -> (r: Self)
        ensures
            r.fix_imports,
            r.encoding@ == "ASCII"@,
            r.strict,
            r.decode_strings,
    {
        UnpicklerOptions {
            fix_imports: true,
            encoding: "ASCII".to_owned(),
            strict: true,
            decode_strings: true,
        }
    }
}

impl UnpicklerOptions {
    /// Whether the strings of protocols 0 and 1 become text.
    pub open spec fn text_strings(self) -> bool {
        self.decode_strings && self.encoding@ != "bytes"@
    }
}

/// What a run of the decoder hands back.
#[derive(Debug)]
pub enum Progress {
    /// The stream reached its STOP; this is its value.
    Finished(Value),
    /// The stream holds a float written as text. The line is handed out; the decoder
    /// goes on after `resume_with_float`.
    NeedsFloat(Vec<u8>),
}

impl View for Progress {
    type V = Outcome;

    open spec fn view(&self) -> Outcome {
        match self {
            Progress::Finished(v) => Outcome::Finished(v@),
            Progress::NeedsFloat(line) => Outcome::NeedsFloat(line@),
        }
    }
}

/// What decoding a stream comes to.
pub enum Decoding {
    /// The stream was decoded to its end; this is its value.
    Finished(Value),
    /// The stream holds a float written as text, on the line that is handed out with
    /// the decoder. `resume` goes on once the line is parsed.
    NeedsFloat(Unpickler, Vec<u8>),
}

/// Whether `r` is what decoding comes to from the state `start`: the value of the
/// stream, which holds no reference to the memo (and no global, where the options are
/// strict) and is well-formed; or the decoder that waits for a float, with the line;
/// or the error.
pub open spec fn decoding_is(r: Result<Decoding, Error>, start: Machine) -> bool {
    match r {
        Ok(Decoding::Finished(value)) => {
            &&& start.decode() matches Ok((_, Outcome::Finished(v)))
            &&& v == value@
            &&& resolved(v, start.strict)
            &&& well_formed(v)
        },
        Ok(Decoding::NeedsFloat(unpickler, line)) => {
            &&& start.decode() == Ok::<(Machine, Outcome), ErrorView>(
                (unpickler@, Outcome::NeedsFloat(line@)),
            )
            &&& unpickler@.follows(start)
        },
        Err(e) => start.decode() == Err::<(Machine, Outcome), ErrorView>(e@),
    }
}

/// The views of the operand stacks that were set aside.
pub open spec fn stack_views(stacks: Seq<Vec<Value>>) -> Seq<Seq<ValueView>> {
    Seq::new(stacks.len(), |i: int| views(stacks[i]@))
}

/// The view of the memo.
pub open spec fn memo_view(memo: Map<MemoId, (Value, i128)>) -> Memo {
    Map::new(|id: MemoId| memo.contains_key(id), |id: MemoId| (memo[id].0@, memo[id].1 as int))
}

/// Whether a call has done what the model says: handed back the machine that the model
/// gives, or failed with its error.
pub open spec fn done(
    r: Result<(), Error>,
    after: Machine,
    expected: Result<Machine, ErrorView>,
) -> bool {
    match r {
        Ok(()) => expected == Ok::<Machine, ErrorView>(after),
        Err(e) => expected == Err::<Machine, ErrorView>(e@),
    }
}

/// The same for a call that hands back a value.
pub open spec fn gave_value(
    r: Result<Value, Error>,
    after: Machine,
    expected: Result<(Machine, ValueView), ErrorView>,
) -> bool {
    match r {
        Ok(v) => expected == Ok::<(Machine, ValueView), ErrorView>((after, v@)),
        Err(e) => expected == Err::<(Machine, ValueView), ErrorView>(e@),
    }
}

/// The same for a call that hands back the values between a mark and the top.
pub open spec fn gave_values(
    r: Result<Vec<Value>, Error>,
    after: Machine,
    expected: Result<(Machine, Seq<ValueView>), ErrorView>,
) -> bool {
    match r {
        Ok(v) => expected == Ok::<(Machine, Seq<ValueView>), ErrorView>((after, views(v@))),
        Err(e) => expected == Err::<(Machine, Seq<ValueView>), ErrorView>(e@),
    }
}

/// The same for a call that hands back bytes.
pub open spec fn gave_bytes(
    r: Result<Vec<u8>, Error>,
    after: Machine,
    expected: Result<(Machine, Seq<u8>), ErrorView>,
) -> bool {
    match r {
        Ok(v) => expected == Ok::<(Machine, Seq<u8>), ErrorView>((after, v@)),
        Err(e) => expected == Err::<(Machine, Seq<u8>), ErrorView>(e@),
    }
}

/// The same for a call that hands back one byte.
pub open spec fn gave_byte(
    r: Result<u8, Error>,
    after: Machine,
    expected: Result<(Machine, u8), ErrorView>,
) -> bool {
    match r {
        Ok(v) => expected == Ok::<(Machine, u8), ErrorView>((after, v)),
        Err(e) => expected == Err::<(Machine, u8), ErrorView>(e@),
    }
}

/// The same for a call that decodes a payload and leaves the machine as it is.
pub open spec fn decoded(r: Result<Value, Error>, expected: Result<ValueView, ErrorView>) -> bool {
    match r {
        Ok(v) => expected == Ok::<ValueView, ErrorView>(v@),
        Err(e) => expected == Err::<ValueView, ErrorView>(e@),
    }
}

impl Machine {
    /// What holds between two opcodes and inside one: the position lies in the input,
    /// and every count of the memo can still be counted up and down.
    pub open spec fn sound(self) -> bool {
        &&& 0 <= self.pos <= self.input.len()
        &&& self.input.len() <= usize::MAX
        &&& self.memo.dom().finite()
        &&& self.counts_between(i128::MIN + 1, i128::MAX - 1)
    }

    /// What holds when an opcode has just been read: the counts of the memo are those
    /// from before that byte.
    pub open spec fn ready(self) -> bool {
        &&& 1 <= self.pos <= self.input.len()
        &&& self.input.len() <= usize::MAX
        &&& self.memo.dom().finite()
        &&& self.counts_within(self.pos - 1)
    }

    /// Whether the memo has the entries of `before`, each with a count that is lower by
    /// no more than `by`.
    pub open spec fn lowered(self, before: Machine, by: int) -> bool {
        &&& self.memo.dom() == before.memo.dom()
        &&& forall|id: MemoId|
            before.memo.contains_key(id) ==> (#[trigger] before.memo[id]).1 - by
                <= self.memo[id].1 <= before.memo[id].1
    }

    /// Whether this machine is a state that `before` has come to: it is well-formed,
    /// reads the same input under the same options, and is not behind.
    pub open spec fn follows(self, before: Machine) -> bool {
        self.wf() && self.moved_on(before)
    }

    /// The machine without the value that its top stands for: without the top itself,
    /// or without the memo entry that the top refers to.
    pub open spec fn without_top(self) -> Machine {
        match self.stack.last() {
            ValueView::MemoRef(id) => Machine { memo: self.memo.remove(id), ..self },
            _ => Machine { stack: self.stack.drop_last(), ..self },
        }
    }

    /// Where the value stands that the top stands for: in the memo, under an id and
    /// with a count, or on the stack.
    pub open spec fn top_slot(self) -> Option<(MemoId, int)> {
        match self.stack.last() {
            ValueView::MemoRef(id) => Some((id, self.memo[id].1)),
            _ => None,
        }
    }

    /// The machine with `v` put where `slot` says.
    pub open spec fn with_top(self, v: ValueView, slot: Option<(MemoId, int)>) -> Machine {
        match slot {
            Some((id, count)) => Machine { memo: self.memo.insert(id, (v, count)), ..self },
            None => self.push(v),
        }
    }

    /// What holds of the machine while a value is post-processed: it stays well-formed,
    /// nothing but its memo changes, and the memo gets no new entry.
    pub open spec fn converted_from(self, before: Machine) -> bool {
        &&& self == (Machine { memo: self.memo, ..before })
        &&& self.memo.dom().subset_of(before.memo.dom())
        &&& self.wf()
    }
}

/// Counts that have been lowered stay above a bound that is lower as well.
pub(crate) proof fn lemma_lowered(before: Machine, after: Machine, by: int, low: int, high: int)
    requires
        before.counts_between(low, high),
        after.lowered(before, by),
        by >= 0,
    ensures
        after.counts_between(low - by, high),
{
    assert forall|id: MemoId| after.memo.contains_key(id) implies low - by
        <= (#[trigger] after.memo[id]).1 <= high by {
        assert(low <= before.memo[id].1 <= high);
    }
}

/// Taking out the value that the top stands for and putting another in its place is
/// setting the top value.
pub(crate) proof fn lemma_set_top(m: Machine, v: ValueView)
    requires
        m.top_value() is Ok,
    ensures
        m.without_top().with_top(v, m.top_slot()) == m.set_top_value(v),
{
    match m.stack.last() {
        ValueView::MemoRef(id) => {
            assert(m.memo.remove(id).insert(id, (v, m.memo[id].1)) =~= m.memo.insert(
                id,
                (v, m.memo[id].1),
            ));
        },
        _ => {
            assert(m.stack.drop_last().push(v) =~= m.stack.update(m.stack.len() - 1, v));
        },
    }
}

/// The views of two vectors put together are the views of each, put together.
pub(crate) proof fn lemma_views_add(a: Seq<Value>, b: Seq<Value>)
    ensures
        views(a + b) == views(a) + views(b),
{
}

/// The decoder: a stream, the options, and the state of the stack machine. Its view is
/// the [`Machine`] that it has come to.
pub struct Unpickler {
    /// The whole stream.
    input: Vec<u8>,
    /// Whether the strings of protocols 0 and 1 are decoded to text.
    decode_strings: bool,
    /// Whether the module names of the 2.x lineage are accepted below protocol 3.
    fix_imports: bool,
    /// Whether a global that is left in the result is an error.
    strict: bool,
    /// The protocol that the stream announced.
    proto: u8,
    /// The operand stacks that were set aside, one for each mark that is open.
    metastack: Vec<Vec<Value>>,
    /// The operand stack.
    stack: Vec<Value>,
    /// The memo: under each id a value and the number of references to it. A count
    /// goes up or down by one with each reference, so 128 bits hold every count that the
    /// bytes of a stream can lead to.
    memo: HashMap<MemoId, (Value, i128)>,
    /// How many bytes of the stream were read.
    pos: usize,
}

impl View for Unpickler {
    type V = Machine;

    closed spec fn view(&self) -> Machine {
        Machine {
            input: self.input@,
            decode_strings: self.decode_strings,
            fix_imports: self.fix_imports,
            strict: self.strict,
            proto: self.proto,
            pos: self.pos as int,
            stack: views(self.stack@),
            metastack: stack_views(self.metastack@),
            memo: memo_view(self.memo@),
        }
    }
}

impl Unpickler {
    /// A decoder at the start of `input`.
    pub fn new(input: Vec<u8>, options: UnpicklerOptions) -> (r: Self)
        ensures
            r@ == Machine::initial(
                input@,
                options.text_strings(),
                options.fix_imports,
                options.strict,
            ),
            r@.wf(),
            r@.linked(),
    {
        let keep_bytes = options.encoding == "bytes".to_owned();
        let r = Unpickler {
            input,
            decode_strings: options.decode_strings && !keep_bytes,
            fix_imports: options.fix_imports,
            strict: options.strict,
            proto: 0,
            metastack: Vec::new(),
            stack: Vec::new(),
            memo: HashMap::new(),
            pos: 0,
        };
        proof {
            assert(r@.stack =~= Seq::empty());
            assert(r@.metastack =~= Seq::empty());
            assert(r@.memo =~= Map::empty());
            assert(r@.input.len() == r.input.len());
        }
        r
    }

    /// The error of the given reason at the position of the decoder.
    fn error(&self, reason: ErrorCode) -> (e: Error)
        ensures
            e@ == self@.error(reason@),
    {
        Error::Eval(reason, self.pos)
    }

    /// The error of an opcode that found the wrong variant.
    fn stack_error(&self, what: &'static str, value: &Value) -> (e: Error)
        ensures
            e@ == self@.stack_error(what@, value@),
    {
        let it = debug_string(value);
        Error::Eval(ErrorCode::InvalidStackTop(what, it), self.pos)
    }

    /// Reads one byte.
    fn read_byte(&mut self) -> (r: Result<u8, Error>)
        requires
            old(self)@.sound(),
        ensures
            gave_byte(r, final(self)@, old(self)@.read_byte()),
            r is Err ==> final(self)@ == old(self)@,
    {
        if self.pos < self.input.len() {
            let b = self.input[self.pos];
            self.pos += 1;
            Ok(b)
        } else {
            Err(self.error(ErrorCode::EOFWhileParsing))
        }
    }

    /// Reads `n` bytes.
    fn read_bytes(&mut self, n: u64) -> (r: Result<Vec<u8>, Error>)
        requires
            old(self)@.sound(),
        ensures
            gave_bytes(r, final(self)@, old(self)@.read_bytes(n as int)),
            r is Err ==> final(self)@ == old(self)@,
    {
        let left = self.input.len() - self.pos;
        if n <= left as u64 {
            let count = n as usize;
            let bytes = slice_to_vec(
                slice_subrange(self.input.as_slice(), self.pos, self.pos + count),
            );
            self.pos += count;
            Ok(bytes)
        } else {
            Err(self.error(ErrorCode::EOFWhileParsing))
        }
    }

    /// Reads a line, without its newline and without a carriage return before it.
    fn read_line(&mut self) -> (r: Result<Vec<u8>, Error>)
        requires
            old(self)@.sound(),
        ensures
            gave_bytes(r, final(self)@, old(self)@.read_line()),
            r is Err ==> final(self)@ == old(self)@,
    {
        let start = self.pos;
        let mut end = start;
        while end < self.input.len() && self.input[end] != 0x0a
            invariant
                start <= end <= self.input@.len(),
                line_end(self.input@, end as int) == line_end(self.input@, start as int),
                self.pos == start,
                self@ == old(self)@,
            decreases self.input@.len() - end,
        {
            end += 1;
        }
        if end == self.input.len() {
            return Err(self.error(ErrorCode::EOFWhileParsing));
        }
        let mut stop = end;
        if stop > start && self.input[stop - 1] == 0x0d {
            stop -= 1;
        }
        let line = slice_to_vec(slice_subrange(self.input.as_slice(), start, stop));
        self.pos = end + 1;
        proof {
            let whole = old(self)@.input.subrange(start as int, end as int);
            if whole.len() > 0 && whole.last() == 0x0d {
                assert(line@ =~= whole.drop_last());
            }
        }
        Ok(line)
    }

    /// Pushes a value on the operand stack.
    fn push(&mut self, v: Value)
        ensures
            final(self)@ == old(self)@.push(v@),
    {
        self.stack.push(v);
        assert(self@.stack =~= old(self)@.stack.push(v@));
    }

    /// Takes the top of the operand stack.
    fn pop(&mut self) -> (r: Result<Value, Error>)
        ensures
            gave_value(r, final(self)@, old(self)@.pop()),
            r is Err ==> final(self)@ == old(self)@,
    {
        match self.stack.pop() {
            Some(v) => {
                assert(self@.stack =~= old(self)@.stack.drop_last());
                Ok(v)
            },
            None => Err(self.error(ErrorCode::StackUnderflow)),
        }
    }

    /// Sets the operand stack aside and starts an empty one.
    fn mark(&mut self)
        ensures
            final(self)@ == old(self)@.mark(),
    {
        let mut stack: Vec<Value> = Vec::new();
        std::mem::swap(&mut stack, &mut self.stack);
        self.metastack.push(stack);
        proof {
            assert(self@.stack =~= Seq::empty());
            assert(self@.metastack =~= old(self)@.metastack.push(old(self)@.stack));
        }
    }

    /// Hands out the operand stack and goes back to the one that was set aside last.
    fn pop_mark(&mut self) -> (r: Result<Vec<Value>, Error>)
        ensures
            gave_values(r, final(self)@, old(self)@.pop_mark()),
            r is Err ==> final(self)@ == old(self)@,
    {
        match self.metastack.pop() {
            Some(below) => {
                let mut items = below;
                std::mem::swap(&mut items, &mut self.stack);
                proof {
                    assert(self@.metastack =~= old(self)@.metastack.drop_last());
                }
                Ok(items)
            },
            None => Err(self.error(ErrorCode::StackUnderflow)),
        }
    }

    /// What a value stands for: a reference to the memo stands for a copy of the value
    /// kept there, and is given up with this.
    fn resolve(&mut self, v: Value) -> (r: Option<Value>)
        requires
            old(self)@.sound(),
        ensures
            match r {
                Some(x) => old(self)@.resolve(v@) == (final(self)@, Some(x@)),
                None => old(self)@.resolve(v@) == (final(self)@, None::<ValueView>),
            },
            final(self)@.lowered(old(self)@, 1),
    {
        match v {
            Value::MemoRef(id) => {
                match self.memo.remove(&id) {
                    Some((value, count)) => {
                        assert(old(self)@.memo.contains_key(id) && old(self)@.memo[id].1
                            == count);
                        let copy = value.clone();
                        self.memo.insert(id, (value, count - 1));
                        assert(self@.memo =~= release(old(self)@.memo, id));
                        Some(copy)
                    },
                    None => {
                        assert(self@.memo =~= old(self)@.memo);
                        None
                    },
                }
            },
            other => Some(other),
        }
    }

    /// Takes the top of the operand stack and resolves it.
    fn pop_resolve(&mut self) -> (r: Result<Value, Error>)
        requires
            old(self)@.sound(),
        ensures
            gave_value(r, final(self)@, old(self)@.pop_resolve()),
            final(self)@.lowered(old(self)@, 1),
    {
        match self.stack.pop() {
            Some(top) => {
                assert(self@.stack =~= old(self)@.stack.drop_last());
                match self.resolve(top) {
                    Some(v) => Ok(v),
                    None => Err(self.error(ErrorCode::StackUnderflow)),
                }
            },
            None => Err(self.error(ErrorCode::StackUnderflow)),
        }
    }

    /// The item `i` of an argument tuple, resolved.
    fn argument(&mut self, args: &mut Vec<Value>, i: usize) -> (r: Option<Value>)
        requires
            old(self)@.sound(),
        ensures
            match r {
                Some(x) => old(self)@.argument(views(old(args)@), i as int) == (
                    final(self)@,
                    Some(x@),
                ),
                None => old(self)@.argument(views(old(args)@), i as int) == (
                    final(self)@,
                    None::<ValueView>,
                ),
            },
            final(args)@.len() == old(args)@.len(),
            forall|k: int|
                0 <= k < old(args)@.len() && k != i ==> (#[trigger] final(args)@[k]) == old(
                    args,
                )@[k],
            final(self)@.lowered(old(self)@, 1),
    {
        if i < args.len() {
            let mut v = Value::NoneValue;
            std::mem::swap(&mut v, &mut args[i]);
            self.resolve(v)
        } else {
            None
        }
    }

    /// A copy of the value that the top of the operand stack stands for.
    fn top_clone(&self) -> (r: Result<Value, Error>)
        ensures
            decoded(r, self@.top_value()),
    {
        let n = self.stack.len();
        if n == 0 {
            return Err(self.error(ErrorCode::StackUnderflow));
        }
        match &self.stack[n - 1] {
            Value::MemoRef(id) => match self.memo.get(id) {
                Some(entry) => Ok(entry.0.clone()),
                None => Err(Error::Syntax(ErrorCode::MissingMemo(*id))),
            },
            other => Ok(other.clone()),
        }
    }

    /// Takes out the value that the top of the operand stack stands for, and says where
    /// it stood.
    fn take_top(&mut self) -> (r: Result<(Value, Option<(MemoId, i128)>), Error>)
        ensures
            match r {
                Ok((v, slot)) => {
                    &&& old(self)@.top_value() == Ok::<ValueView, ErrorView>(v@)
                    &&& final(self)@ == old(self)@.without_top()
                    &&& match slot {
                        Some((id, count)) => old(self)@.top_slot() == Some((id, count as int)),
                        None => old(self)@.top_slot() is None,
                    }
                },
                Err(e) => old(self)@.top_value() == Err::<ValueView, ErrorView>(e@),
            },
    {
        let n = self.stack.len();
        if n == 0 {
            return Err(self.error(ErrorCode::StackUnderflow));
        }
        let target: Option<MemoId> = match &self.stack[n - 1] {
            Value::MemoRef(id) => Some(*id),
            _ => None,
        };
        match target {
            Some(id) => match self.memo.remove(&id) {
                Some((value, count)) => {
                    assert(self@.memo =~= old(self)@.memo.remove(id));
                    Ok((value, Some((id, count))))
                },
                None => Err(Error::Syntax(ErrorCode::MissingMemo(id))),
            },
            None => {
                match self.stack.pop() {
                    Some(v) => {
                        assert(self@.stack =~= old(self)@.stack.drop_last());
                        Ok((v, None))
                    },
                    None => Err(self.error(ErrorCode::StackUnderflow)),
                }
            },
        }
    }

    /// Puts a value where `slot` says.
    fn put_top(&mut self, v: Value, slot: Option<(MemoId, i128)>)
        ensures
            final(self)@ == old(self)@.with_top(
                v@,
                match slot {
                    Some((id, count)) => Some((id, count as int)),
                    None => None,
                },
            ),
    {
        match slot {
            Some((id, count)) => {
                self.memo.insert(id, (v, count));
                assert(self@.memo =~= old(self)@.memo.insert(id, (v@, count as int)));
            },
            None => {
                self.push(v);
            },
        }
    }

    /// Moves the top of the operand stack into the memo and leaves a reference.
    fn store_memo(&mut self, memo_id: MemoId) -> (r: Result<(), Error>)
        ensures
            done(r, final(self)@, old(self)@.store_memo(memo_id)),
            r is Err ==> final(self)@.memo == old(self)@.memo,
    {
        let item = match self.pop() {
            Ok(item) => item,
            Err(e) => {
                return Err(e);
            },
        };
        let item = match item {
            Value::MemoRef(id) => match self.memo.get(&id) {
                Some(entry) => entry.0.clone(),
                None => {
                    return Err(self.error(ErrorCode::MissingMemo(id)));
                },
            },
            other => other,
        };
        let ghost before = self@;
        self.memo.insert(memo_id, (item, 1));
        assert(self@.memo =~= before.memo.insert(memo_id, (item@, 1)));
        self.push(Value::MemoRef(memo_id));
        Ok(())
    }

    /// Pushes a reference to a memo entry, which counts one reference more.
    fn push_memo_ref(&mut self, memo_id: MemoId) -> (r: Result<(), Error>)
        requires
            old(self)@.sound(),
        ensures
            done(r, final(self)@, old(self)@.push_memo_ref(memo_id)),
            r is Err ==> final(self)@ == old(self)@,
    {
        match self.memo.remove(&memo_id) {
            Some((value, count)) => {
                self.memo.insert(memo_id, (value, count + 1));
                assert(self@.memo =~= old(self)@.memo.insert(
                    memo_id,
                    (old(self)@.memo[memo_id].0, old(self)@.memo[memo_id].1 + 1),
                ));
                self.push(Value::MemoRef(memo_id));
                Ok(())
            },
            None => {
                assert(self@.memo =~= old(self)@.memo);
                Err(self.error(ErrorCode::MissingMemo(memo_id)))
            },
        }
    }

    /// The id that MEMOIZE gives out.
    fn next_memo_id(&self) -> (id: MemoId)
        ensures
            id == self@.next_memo_id(),
    {
        let n: u64 = self.memo.len() as u64;
        assert(self@.memo.dom() =~= self.memo@.dom());
        (n % 0x1_0000_0000) as MemoId
    }

    /// Reads a length of one byte and as many bytes.
    fn read_u8_prefixed_bytes(&mut self) -> (r: Result<Vec<u8>, Error>)
        requires
            old(self)@.sound(),
        ensures
            gave_bytes(r, final(self)@, old(self)@.read_u8_prefixed()),
    {
        let lenbyte = match self.read_byte() {
            Ok(b) => b,
            Err(e) => {
                return Err(e);
            },
        };
        self.read_bytes(lenbyte as u64)
    }

    /// Reads a length of four bytes and as many bytes.
    fn read_u32_prefixed_bytes(&mut self) -> (r: Result<Vec<u8>, Error>)
        requires
            old(self)@.sound(),
        ensures
            gave_bytes(r, final(self)@, old(self)@.read_u32_prefixed()),
    {
        let lenbytes = match self.read_bytes(4) {
            Ok(b) => b,
            Err(e) => {
                return Err(e);
            },
        };
        assert(lenbytes@.subrange(0, 4) =~= lenbytes@);
        self.read_bytes(read_u32_le(lenbytes.as_slice()) as u64)
    }

    /// Reads a signed length of four bytes and as many bytes.
    fn read_i32_prefixed_bytes(&mut self) -> (r: Result<Vec<u8>, Error>)
        requires
            old(self)@.sound(),
        ensures
            gave_bytes(r, final(self)@, old(self)@.read_i32_prefixed()),
    {
        let lenbytes = match self.read_bytes(4) {
            Ok(b) => b,
            Err(e) => {
                return Err(e);
            },
        };
        assert(lenbytes@.subrange(0, 4) =~= lenbytes@);
        let len = read_i32_le(lenbytes.as_slice());
        if len < 0 {
            Err(self.error(ErrorCode::NegativeLength))
        } else {
            self.read_bytes(len as u64)
        }
    }

    /// Reads a length of eight bytes and as many bytes.
    fn read_u64_prefixed_bytes(&mut self) -> (r: Result<Vec<u8>, Error>)
        requires
            old(self)@.sound(),
        ensures
            gave_bytes(r, final(self)@, old(self)@.read_u64_prefixed()),
    {
        let lenbytes = match self.read_bytes(8) {
            Ok(b) => b,
            Err(e) => {
                return Err(e);
            },
        };
        assert(lenbytes@.subrange(0, 8) =~= lenbytes@);
        self.read_bytes(read_u64_le(lenbytes.as_slice()))
    }

    /// Decodes a string as UTF-8 text.
    fn decode_unicode(&self, string: Vec<u8>) -> (r: Result<Value, Error>)
        ensures
            decoded(r, self@.decode_unicode(string@)),
    {
        match string_from_utf8(string) {
            Some(v) => Ok(Value::String(v)),
            None => Err(self.error(ErrorCode::StringNotUTF8)),
        }
    }

    /// Decodes a string of protocols 0 and 1, as text or as bytes.
    fn decode_string(&self, string: Vec<u8>) -> (r: Result<Value, Error>)
        ensures
            decoded(r, self@.decode_string(string@)),
    {
        if self.decode_strings {
            self.decode_unicode(string)
        } else {
            Ok(Value::Bytes(string))
        }
    }

    /// Decodes the line of a STRING opcode.
    fn decode_escaped_string(&self, line: Vec<u8>) -> (r: Result<Value, Error>)
        ensures
            decoded(r, self@.decode_escaped_string(line@)),
    {
        let n = line.len();
        if n >= 2 && line[0] == line[n - 1] && (line[0] == 0x22 || line[0] == 0x27) {
            let inner = slice_subrange(line.as_slice(), 1, n - 1);
            match decode_escapes(inner) {
                Some(bytes) => self.decode_string(bytes),
                None => Err(self.error(ErrorCode::InvalidLiteral(slice_to_vec(inner)))),
            }
        } else {
            Err(self.error(ErrorCode::InvalidLiteral(line)))
        }
    }

    /// Decodes the line of a UNICODE opcode.
    fn decode_escaped_unicode(&self, line: Vec<u8>) -> (r: Result<Value, Error>)
        ensures
            decoded(r, self@.decode_escaped_unicode(line@)),
    {
        match decode_unicode_escapes(line.as_slice()) {
            Some(text) => Ok(Value::String(text)),
            None => Err(self.error(ErrorCode::InvalidLiteral(line))),
        }
    }

    /// Decodes the line of an INT opcode.
    fn decode_text_int(&self, line: Vec<u8>) -> (r: Result<Value, Error>)
        ensures
            decoded(r, self@.decode_text_int(line@)),
    {
        if line.len() == 2 && line[0] == 0x30 && line[1] == 0x30 {
            Ok(Value::Bool(false))
        } else if line.len() == 2 && line[0] == 0x30 && line[1] == 0x31 {
            Ok(Value::Bool(true))
        } else {
            match parse_i64(line.as_slice()) {
                Some(i) => Ok(Value::I64(i)),
                None => match parse_decimal(line.as_slice()) {
                    Some(i) => Ok(Value::Int(i)),
                    None => Err(self.error(ErrorCode::InvalidLiteral(line))),
                },
            }
        }
    }

    /// Decodes the line of a LONG opcode.
    fn decode_text_long(&self, line: Vec<u8>) -> (r: Result<Value, Error>)
        ensures
            decoded(r, self@.decode_text_long(line@)),
    {
        let mut line = line;
        let n = line.len();
        if n > 0 && line[n - 1] == 0x4c {
            line.pop();
        }
        match big_parse_bytes(line.as_slice(), 10) {
            Some(i) => Ok(Value::Int(i)),
            None => Err(self.error(ErrorCode::InvalidLiteral(line))),
        }
    }

    /// Decodes the line of a PUT or GET opcode.
    fn decode_memo_id(&self, line: Vec<u8>) -> (r: Result<MemoId, Error>)
        ensures
            match r {
                Ok(id) => self@.decode_memo_id(line@) == Ok::<MemoId, ErrorView>(id),
                Err(e) => self@.decode_memo_id(line@) == Err::<MemoId, ErrorView>(e@),
            },
    {
        match parse_u32(line.as_slice()) {
            Some(id) => Ok(id),
            None => Err(self.error(ErrorCode::InvalidLiteral(line))),
        }
    }

    /// The global that a module name and a name stand for.
    fn decode_global(&self, modname: &[u8], globname: &[u8]) -> (g: Global)
        ensures
            g == classify(modname@, globname@, self@.legacy_names()),
    {
        let legacy = self.fix_imports && self.proto < 3;
        let builtins = bytes_equal(modname, "builtins".as_bytes()) || (legacy && bytes_equal(
            modname,
            "__builtin__".as_bytes(),
        ));
        if bytes_equal(modname, "_codecs".as_bytes()) && bytes_equal(
            globname,
            "encode".as_bytes(),
        ) {
            Global::Encode
        } else if builtins && bytes_equal(globname, "set".as_bytes()) {
            Global::MutableSet
        } else if builtins && bytes_equal(globname, "frozenset".as_bytes()) {
            Global::Frozenset
        } else if builtins && bytes_equal(globname, "list".as_bytes()) {
            Global::List
        } else if builtins && bytes_equal(globname, "bytearray".as_bytes()) {
            Global::Bytearray
        } else if builtins && bytes_equal(globname, "int".as_bytes()) {
            Global::Int
        } else {
            Global::Other
        }
    }

    /// Adds `items` at the end of the list that the top of the stack stands for.
    fn modify_list(&mut self, items: Vec<Value>) -> (r: Result<(), Error>)
        ensures
            done(r, final(self)@, old(self)@.extend_list(views(items@))),
    {
        let mut items = items;
        let (top, slot) = match self.take_top() {
            Ok(found) => found,
            Err(e) => {
                return Err(e);
            },
        };
        match top {
            Value::List(list) => {
                let mut list = list;
                proof {
                    lemma_views_add(list@, items@);
                    lemma_set_top(old(self)@, ValueView::List(views(list@) + views(items@)));
                }
                list.append(&mut items);
                self.put_top(Value::List(list), slot);
                Ok(())
            },
            other => Err(self.stack_error("list", &other)),
        }
    }

    /// Adds the entries that `items` spell to the dict that the top of the stack stands
    /// for.
    fn modify_dict(&mut self, items: Vec<Value>) -> (r: Result<(), Error>)
        ensures
            done(r, final(self)@, old(self)@.extend_dict(views(items@))),
    {
        let (top, slot) = match self.take_top() {
            Ok(found) => found,
            Err(e) => {
                return Err(e);
            },
        };
        match top {
            Value::Dict(dict) => {
                let mut dict = dict;
                dict.extend(items);
                proof {
                    lemma_set_top(old(self)@, ValueView::Dict(dict@));
                }
                self.put_top(Value::Dict(dict), slot);
                Ok(())
            },
            other => Err(self.stack_error("dict", &other)),
        }
    }

    /// Adds the values of `items` to the set that the top of the stack stands for.
    fn modify_set(&mut self, items: Vec<Value>) -> (r: Result<(), Error>)
        ensures
            done(r, final(self)@, old(self)@.extend_set(views(items@))),
    {
        let (top, slot) = match self.take_top() {
            Ok(found) => found,
            Err(e) => {
                return Err(e);
            },
        };
        match top {
            Value::MutableSet(set) => {
                let mut set = set;
                set.extend(items);
                proof {
                    lemma_set_top(old(self)@, ValueView::MutableSet(set@));
                }
                self.put_top(Value::MutableSet(set), slot);
                Ok(())
            },
            other => Err(self.stack_error("set", &other)),
        }
    }

    /// Applies a global to its argument tuple, as REDUCE does.
    fn reduce_global(&mut self, global: Value, argtuple: Vec<Value>) -> (r: Result<(), Error>)
        requires
            old(self)@.sound(),
            old(self)@.counts_between(i128::MIN + 3, i128::MAX - 1),
        ensures
            done(r, final(self)@, old(self)@.reduce_global(global@, views(argtuple@))),
            r is Err ==> final(self)@.stack == old(self)@.stack && final(self)@.metastack == old(
                self,
            )@.metastack,
            final(self)@.lowered(old(self)@, 2),
    {
        let mut argtuple = argtuple;
        match global {
            Value::Global(Global::MutableSet) => match self.argument(&mut argtuple, 0) {
                Some(Value::List(items)) => {
                    self.push(Value::MutableSet(HashSetWrapper::from_items(items)));
                    Ok(())
                },
                _ => Err(self.error(ErrorCode::InvalidValue("set() arg".to_owned()))),
            },
            Value::Global(Global::Frozenset) => match self.argument(&mut argtuple, 0) {
                Some(Value::List(items)) => {
                    self.push(Value::FrozenSet(HashSetWrapper::from_items(items)));
                    Ok(())
                },
                _ => Err(self.error(ErrorCode::InvalidValue("frozenset() arg".to_owned()))),
            },
            Value::Global(Global::Bytearray) => match self.argument(&mut argtuple, 0) {
                Some(Value::Bytes(bytes)) => {
                    self.push(Value::Bytes(bytes));
                    Ok(())
                },
                Some(Value::String(string)) => {
                    self.push(Value::Bytes(to_latin1(&string)));
                    Ok(())
                },
                _ => Err(self.error(ErrorCode::InvalidValue("bytearray() arg".to_owned()))),
            },
            Value::Global(Global::List) => match self.argument(&mut argtuple, 0) {
                Some(Value::List(items)) => {
                    self.push(Value::List(items));
                    Ok(())
                },
                _ => Err(self.error(ErrorCode::InvalidValue("list() arg".to_owned()))),
            },
            Value::Global(Global::Int) => match self.argument(&mut argtuple, 0) {
                Some(Value::Int(integer)) => {
                    self.push(Value::Int(integer));
                    Ok(())
                },
                _ => Err(self.error(ErrorCode::InvalidValue("int() arg".to_owned()))),
            },
            Value::Global(Global::Encode) => {
                match self.argument(&mut argtuple, 1) {
                    Some(Value::String(_)) => {},
                    _ => {
                        return Err(
                            self.error(ErrorCode::InvalidValue("encode() arg".to_owned())),
                        );
                    },
                }
                match self.argument(&mut argtuple, 0) {
                    Some(Value::String(s)) => {
                        self.push(Value::Bytes(to_latin1(&s)));
                        Ok(())
                    },
                    _ => Err(self.error(ErrorCode::InvalidValue("encode() arg".to_owned()))),
                }
            },
            Value::Global(Global::Other) => {
                self.push(Value::Global(Global::Other));
                Ok(())
            },
            _ => Err(self.error(ErrorCode::InvalidValue("global reference".to_owned()))),
        }
    }

    /// PROTO and FRAME.
    fn op_framing(&mut self, op: u8) -> (r: Result<(), Error>)
        requires
            old(self)@.ready(),
            op == PROTO || op == FRAME,
        ensures
            done(r, final(self)@, old(self)@.op_framing(op)),
            r is Ok ==> final(self)@.follows(old(self)@),
    {
        if op == PROTO {
            let version = match self.read_byte() {
                Ok(b) => b,
                Err(e) => {
                    return Err(e);
                },
            };
            self.proto = version;
            Ok(())
        } else {
            match self.read_bytes(8) {
                Ok(_) => Ok(()),
                Err(e) => Err(e),
            }
        }
    }

    /// MARK, POP, POP_MARK and DUP.
    fn op_stack(&mut self, op: u8) -> (r: Result<(), Error>)
        requires
            old(self)@.ready(),
            op == MARK || op == POP || op == POP_MARK || op == DUP,
        ensures
            done(r, final(self)@, old(self)@.op_stack(op)),
            r is Ok ==> final(self)@.follows(old(self)@),
    {
        if op == MARK {
            self.mark();
            Ok(())
        } else if op == POP {
            if self.stack.len() == 0 {
                match self.pop_mark() {
                    Ok(_) => Ok(()),
                    Err(e) => Err(e),
                }
            } else {
                match self.pop() {
                    Ok(_) => Ok(()),
                    Err(e) => Err(e),
                }
            }
        } else if op == POP_MARK {
            match self.pop_mark() {
                Ok(_) => Ok(()),
                Err(e) => Err(e),
            }
        } else {
            match self.top_clone() {
                Ok(top) => {
                    self.push(top);
                    Ok(())
                },
                Err(e) => Err(e),
            }
        }
    }

    /// Reads the memo id of a memo opcode.
    fn read_memo_id(&mut self, op: u8) -> (r: Result<MemoId, Error>)
        requires
            old(self)@.ready(),
        ensures
            match r {
                Ok(id) => old(self)@.read_memo_id(op) == Ok::<(Machine, MemoId), ErrorView>(
                    (final(self)@, id),
                ),
                Err(e) => old(self)@.read_memo_id(op) == Err::<(Machine, MemoId), ErrorView>(e@),
            },
    {
        if op == PUT || op == GET {
            let line = match self.read_line() {
                Ok(line) => line,
                Err(e) => {
                    return Err(e);
                },
            };
            self.decode_memo_id(line)
        } else if op == BINPUT || op == BINGET {
            match self.read_byte() {
                Ok(b) => Ok(b as MemoId),
                Err(e) => Err(e),
            }
        } else if op == LONG_BINPUT || op == LONG_BINGET {
            match self.read_bytes(4) {
                Ok(bytes) => {
                    assert(bytes@.subrange(0, 4) =~= bytes@);
                    Ok(read_u32_le(bytes.as_slice()))
                },
                Err(e) => Err(e),
            }
        } else {
            Ok(self.next_memo_id())
        }
    }

    /// The opcodes that store into the memo and those that load from it.
    fn op_memo(&mut self, op: u8) -> (r: Result<(), Error>)
        requires
            old(self)@.ready(),
            op == PUT || op == BINPUT || op == LONG_BINPUT || op == MEMOIZE || op == GET || op
                == BINGET || op == LONG_BINGET,
        ensures
            done(r, final(self)@, old(self)@.op_memo(op)),
            r is Ok ==> final(self)@.follows(old(self)@),
    {
        let memo_id = match self.read_memo_id(op) {
            Ok(id) => id,
            Err(e) => {
                return Err(e);
            },
        };
        if op == GET || op == BINGET || op == LONG_BINGET {
            self.push_memo_ref(memo_id)
        } else {
            self.store_memo(memo_id)
        }
    }

    /// Pushes the value that a payload decodes to, or fails with its error.
    fn push_decoded(&mut self, value: Result<Value, Error>) -> (r: Result<(), Error>)
        ensures
            match value {
                Ok(v) => done(
                    r,
                    final(self)@,
                    old(self)@.push_decoded(Ok::<ValueView, ErrorView>(v@)),
                ),
                Err(e) => done(
                    r,
                    final(self)@,
                    old(self)@.push_decoded(Err::<ValueView, ErrorView>(e@)),
                ),
            },
    {
        match value {
            Ok(v) => {
                self.push(v);
                Ok(())
            },
            Err(e) => Err(e),
        }
    }

    /// The opcodes whose payload is a line.
    fn op_line(&mut self, op: u8) -> (r: Result<(), Error>)
        requires
            old(self)@.ready(),
            op == INT || op == LONG || op == STRING || op == UNICODE || op == PERSID,
        ensures
            done(r, final(self)@, old(self)@.op_literal(op)),
            r is Ok ==> final(self)@.follows(old(self)@),
    {
        let line = match self.read_line() {
            Ok(line) => line,
            Err(e) => {
                return Err(e);
            },
        };
        let value = if op == INT {
            self.decode_text_int(line)
        } else if op == LONG {
            self.decode_text_long(line)
        } else if op == STRING {
            self.decode_escaped_string(line)
        } else if op == UNICODE {
            self.decode_escaped_unicode(line)
        } else {
            let id = Value::BinPersId(Box::new(Value::Bytes(line)));
            assert(id@ == ValueView::BinPersId(Box::new(ValueView::Bytes(line@)))) by {
                reveal_with_fuel(value_view, 2);
            }
            Ok(id)
        };
        self.push_decoded(value)
    }

    /// The opcodes whose payload has a fixed length.
    fn op_fixed(&mut self, op: u8) -> (r: Result<(), Error>)
        requires
            old(self)@.ready(),
            op == BINFLOAT || op == BININT || op == BININT1 || op == BININT2,
        ensures
            done(r, final(self)@, old(self)@.op_literal(op)),
            r is Ok ==> final(self)@.follows(old(self)@),
    {
        if op == BINFLOAT {
            match self.read_bytes(8) {
                Ok(bytes) => {
                    assert(bytes@.subrange(0, 8) =~= bytes@);
                    self.push(Value::F64(F64Wrapper(read_u64_be(bytes.as_slice()))));
                    Ok(())
                },
                Err(e) => Err(e),
            }
        } else if op == BININT {
            match self.read_bytes(4) {
                Ok(bytes) => {
                    assert(bytes@.subrange(0, 4) =~= bytes@);
                    self.push(Value::I64(read_i32_le(bytes.as_slice()) as i64));
                    Ok(())
                },
                Err(e) => Err(e),
            }
        } else if op == BININT1 {
            match self.read_byte() {
                Ok(b) => {
                    self.push(Value::I64(b as i64));
                    Ok(())
                },
                Err(e) => Err(e),
            }
        } else {
            match self.read_bytes(2) {
                Ok(bytes) => {
                    assert(bytes@.subrange(0, 2) =~= bytes@);
                    self.push(Value::I64(read_u16_le(bytes.as_slice()) as i64));
                    Ok(())
                },
                Err(e) => Err(e),
            }
        }
    }

    /// The opcodes whose payload starts with its length.
    fn op_counted(&mut self, op: u8) -> (r: Result<(), Error>)
        requires
            old(self)@.ready(),
            op == LONG1 || op == LONG4 || op == SHORT_BINBYTES || op == BINBYTES || op
                == BINBYTES8 || op == SHORT_BINSTRING || op == BINSTRING || op
                == SHORT_BINUNICODE || op == BINUNICODE || op == BINUNICODE8 || op
                == BYTEARRAY8,
        ensures
            done(r, final(self)@, old(self)@.op_literal(op)),
            r is Ok ==> final(self)@.follows(old(self)@),
    {
        let read = if op == LONG1 || op == SHORT_BINBYTES || op == SHORT_BINSTRING || op
            == SHORT_BINUNICODE {
            self.read_u8_prefixed_bytes()
        } else if op == LONG4 || op == BINSTRING {
            self.read_i32_prefixed_bytes()
        } else if op == BINBYTES || op == BINUNICODE {
            self.read_u32_prefixed_bytes()
        } else {
            self.read_u64_prefixed_bytes()
        };
        let bytes = match read {
            Ok(bytes) => bytes,
            Err(e) => {
                return Err(e);
            },
        };
        let value = if op == LONG1 || op == LONG4 {
            Ok(Value::Int(decode_binary_long(bytes.as_slice())))
        } else if op == SHORT_BINSTRING || op == BINSTRING {
            self.decode_string(bytes)
        } else if op == SHORT_BINUNICODE || op == BINUNICODE || op == BINUNICODE8 {
            self.decode_unicode(bytes)
        } else {
            Ok(Value::Bytes(bytes))
        };
        self.push_decoded(value)
    }

    /// The opcodes that push a value which their payload spells.
    fn op_literal(&mut self, op: u8) -> (r: Result<(), Error>)
        requires
            old(self)@.ready(),
            op == NONE || op == NEWFALSE || op == NEWTRUE || op == INT || op == LONG || op
                == STRING || op == UNICODE || op == PERSID || op == BINFLOAT || op == BININT
                || op == BININT1 || op == BININT2 || op == LONG1 || op == LONG4 || op
                == SHORT_BINBYTES || op == BINBYTES || op == BINBYTES8 || op == SHORT_BINSTRING
                || op == BINSTRING || op == SHORT_BINUNICODE || op == BINUNICODE || op
                == BINUNICODE8 || op == BYTEARRAY8,
        ensures
            done(r, final(self)@, old(self)@.op_literal(op)),
            r is Ok ==> final(self)@.follows(old(self)@),
    {
        if op == NONE {
            self.push(Value::NoneValue);
            Ok(())
        } else if op == NEWFALSE {
            self.push(Value::Bool(false));
            Ok(())
        } else if op == NEWTRUE {
            self.push(Value::Bool(true));
            Ok(())
        } else if op == INT || op == LONG || op == STRING || op == UNICODE || op == PERSID {
            self.op_line(op)
        } else if op == BINFLOAT || op == BININT || op == BININT1 || op == BININT2 {
            self.op_fixed(op)
        } else {
            self.op_counted(op)
        }
    }

    /// EMPTY_TUPLE, TUPLE1, TUPLE2, TUPLE3 and TUPLE.
    fn op_tuple(&mut self, op: u8) -> (r: Result<(), Error>)
        requires
            old(self)@.ready(),
            op == EMPTY_TUPLE || op == TUPLE1 || op == TUPLE2 || op == TUPLE3 || op == TUPLE,
        ensures
            done(r, final(self)@, old(self)@.op_tuple(op)),
            r is Ok ==> final(self)@.follows(old(self)@),
    {
        if op == EMPTY_TUPLE {
            let items: Vec<Value> = Vec::new();
            assert(views(items@) =~= Seq::empty());
            self.push(Value::Tuple(items));
            Ok(())
        } else if op == TUPLE1 {
            let item = match self.pop() {
                Ok(v) => v,
                Err(e) => {
                    return Err(e);
                },
            };
            let mut items: Vec<Value> = Vec::new();
            items.push(item);
            assert(views(items@) =~= seq![item@]);
            self.push(Value::Tuple(items));
            Ok(())
        } else if op == TUPLE2 {
            let item2 = match self.pop() {
                Ok(v) => v,
                Err(e) => {
                    return Err(e);
                },
            };
            let item1 = match self.pop() {
                Ok(v) => v,
                Err(e) => {
                    return Err(e);
                },
            };
            let mut items: Vec<Value> = Vec::new();
            items.push(item1);
            items.push(item2);
            assert(views(items@) =~= seq![item1@, item2@]);
            self.push(Value::Tuple(items));
            Ok(())
        } else if op == TUPLE3 {
            let item3 = match self.pop() {
                Ok(v) => v,
                Err(e) => {
                    return Err(e);
                },
            };
            let item2 = match self.pop() {
                Ok(v) => v,
                Err(e) => {
                    return Err(e);
                },
            };
            let item1 = match self.pop() {
                Ok(v) => v,
                Err(e) => {
                    return Err(e);
                },
            };
            let mut items: Vec<Value> = Vec::new();
            items.push(item1);
            items.push(item2);
            items.push(item3);
            assert(views(items@) =~= seq![item1@, item2@, item3@]);
            self.push(Value::Tuple(items));
            Ok(())
        } else {
            match self.pop_mark() {
                Ok(items) => {
                    self.push(Value::Tuple(items));
                    Ok(())
                },
                Err(e) => Err(e),
            }
        }
    }

    /// EMPTY_LIST, LIST, APPEND and APPENDS.
    fn op_list(&mut self, op: u8) -> (r: Result<(), Error>)
        requires
            old(self)@.ready(),
            op == EMPTY_LIST || op == LIST || op == APPEND || op == APPENDS,
        ensures
            done(r, final(self)@, old(self)@.op_list(op)),
            r is Ok ==> final(self)@.follows(old(self)@),
    {
        if op == EMPTY_LIST {
            let items: Vec<Value> = Vec::new();
            assert(views(items@) =~= Seq::empty());
            self.push(Value::List(items));
            Ok(())
        } else if op == LIST {
            match self.pop_mark() {
                Ok(items) => {
                    self.push(Value::List(items));
                    Ok(())
                },
                Err(e) => Err(e),
            }
        } else if op == APPEND {
            let value = match self.pop() {
                Ok(v) => v,
                Err(e) => {
                    return Err(e);
                },
            };
            let mut items: Vec<Value> = Vec::new();
            items.push(value);
            assert(views(items@) =~= seq![value@]);
            self.modify_list(items)
        } else {
            match self.pop_mark() {
                Ok(items) => self.modify_list(items),
                Err(e) => Err(e),
            }
        }
    }

    /// EMPTY_DICT, DICT, SETITEM and SETITEMS.
    fn op_dict(&mut self, op: u8) -> (r: Result<(), Error>)
        requires
            old(self)@.ready(),
            op == EMPTY_DICT || op == DICT || op == SETITEM || op == SETITEMS,
        ensures
            done(r, final(self)@, old(self)@.op_dict(op)),
            r is Ok ==> final(self)@.follows(old(self)@),
    {
        if op == EMPTY_DICT {
            self.push(Value::Dict(HashMapWrapper::new()));
            Ok(())
        } else if op == DICT {
            match self.pop_mark() {
                Ok(items) => {
                    self.push(Value::Dict(HashMapWrapper::from_items(items)));
                    Ok(())
                },
                Err(e) => Err(e),
            }
        } else if op == SETITEM {
            let value = match self.pop() {
                Ok(v) => v,
                Err(e) => {
                    return Err(e);
                },
            };
            let key = match self.pop() {
                Ok(v) => v,
                Err(e) => {
                    return Err(e);
                },
            };
            let mut items: Vec<Value> = Vec::new();
            items.push(key);
            items.push(value);
            assert(views(items@) =~= seq![key@, value@]);
            self.modify_dict(items)
        } else {
            match self.pop_mark() {
                Ok(items) => self.modify_dict(items),
                Err(e) => Err(e),
            }
        }
    }

    /// EMPTY_SET, FROZENSET and ADDITEMS.
    fn op_set(&mut self, op: u8) -> (r: Result<(), Error>)
        requires
            old(self)@.ready(),
            op == EMPTY_SET || op == FROZENSET || op == ADDITEMS,
        ensures
            done(r, final(self)@, old(self)@.op_set(op)),
            r is Ok ==> final(self)@.follows(old(self)@),
    {
        if op == EMPTY_SET {
            self.push(Value::MutableSet(HashSetWrapper::new()));
            Ok(())
        } else if op == FROZENSET {
            match self.pop_mark() {
                Ok(items) => {
                    self.push(Value::FrozenSet(HashSetWrapper::from_items(items)));
                    Ok(())
                },
                Err(e) => Err(e),
            }
        } else {
            match self.pop_mark() {
                Ok(items) => self.modify_set(items),
                Err(e) => Err(e),
            }
        }
    }

    /// Takes a name from the stack for STACK_GLOBAL.
    fn pop_name(&mut self) -> (r: Result<Vec<u8>, Error>)
        requires
            old(self)@.sound(),
        ensures
            gave_bytes(r, final(self)@, old(self)@.pop_name()),
    {
        match self.pop_resolve() {
            Ok(Value::String(string)) => Ok(slice_to_vec(string.as_str().as_bytes())),
            Ok(other) => Err(self.stack_error("string", &other)),
            Err(e) => Err(e),
        }
    }

    /// GLOBAL: the module name and the name stand on two lines.
    fn global_by_name(&mut self) -> (r: Result<(), Error>)
        requires
            old(self)@.ready(),
        ensures
            done(r, final(self)@, old(self)@.global_by_name()),
            r is Ok ==> final(self)@.follows(old(self)@),
    {
        let modname = match self.read_line() {
            Ok(line) => line,
            Err(e) => {
                return Err(e);
            },
        };
        let globname = match self.read_line() {
            Ok(line) => line,
            Err(e) => {
                return Err(e);
            },
        };
        let global = self.decode_global(modname.as_slice(), globname.as_slice());
        self.push(Value::Global(global));
        Ok(())
    }

    /// STACK_GLOBAL: the name and, below it, the module name stand on the stack.
    fn global_from_stack(&mut self) -> (r: Result<(), Error>)
        requires
            old(self)@.ready(),
        ensures
            done(r, final(self)@, old(self)@.global_from_stack()),
            r is Ok ==> final(self)@.follows(old(self)@),
    {
        let globname = match self.pop_name() {
            Ok(name) => name,
            Err(e) => {
                return Err(e);
            },
        };
        let modname = match self.pop_name() {
            Ok(name) => name,
            Err(e) => {
                return Err(e);
            },
        };
        let global = self.decode_global(modname.as_slice(), globname.as_slice());
        self.push(Value::Global(global));
        Ok(())
    }

    /// REDUCE: the argument tuple and, below it, the global stand on the stack.
    fn reduce(&mut self) -> (r: Result<(), Error>)
        requires
            old(self)@.ready(),
        ensures
            done(r, final(self)@, old(self)@.reduce()),
            r is Ok ==> final(self)@.follows(old(self)@),
    {
        let ghost low = -4 * (old(self)@.pos - 1);
        let ghost high = old(self)@.pos - 1;
        assert(old(self)@.counts_between(low, high));
        let argtuple = match self.pop_resolve() {
            Ok(Value::Tuple(args)) => args,
            Ok(other) => {
                return Err(self.stack_error("tuple", &other));
            },
            Err(e) => {
                return Err(e);
            },
        };
        let ghost first = self@;
        proof {
            lemma_lowered(old(self)@, first, 1, low, high);
        }
        let global = match self.pop_resolve() {
            Ok(v) => v,
            Err(e) => {
                return Err(e);
            },
        };
        let ghost second = self@;
        proof {
            lemma_lowered(first, second, 1, low - 1, high);
        }
        let r = self.reduce_global(global, argtuple);
        proof {
            lemma_lowered(second, self@, 2, low - 2, high);
        }
        r
    }

    /// GLOBAL, STACK_GLOBAL and REDUCE.
    fn op_global(&mut self, op: u8) -> (r: Result<(), Error>)
        requires
            old(self)@.ready(),
            op == GLOBAL || op == STACK_GLOBAL || op == REDUCE,
        ensures
            done(r, final(self)@, old(self)@.op_global(op)),
            r is Ok ==> final(self)@.follows(old(self)@),
    {
        if op == GLOBAL {
            self.global_by_name()
        } else if op == STACK_GLOBAL {
            self.global_from_stack()
        } else {
            self.reduce()
        }
    }

    /// Drops `n` values from the operand stack.
    fn drop_values(&mut self, n: u8) -> (r: Result<(), Error>)
        ensures
            done(r, final(self)@, old(self)@.drop_values(n as nat)),
            r is Ok ==> final(self)@ == (Machine { stack: final(self)@.stack, ..old(self)@ }),
    {
        let mut left = n;
        while left > 0
            invariant
                self@.drop_values(left as nat) == old(self)@.drop_values(n as nat),
                self@ == (Machine { stack: self@.stack, ..old(self)@ }),
            decreases left,
        {
            match self.pop() {
                Ok(_) => {},
                Err(e) => {
                    return Err(e);
                },
            }
            left -= 1;
        }
        Ok(())
    }

    /// INST, OBJ, NEWOBJ, NEWOBJ_EX, BUILD and BINPERSID.
    fn op_object(&mut self, op: u8) -> (r: Result<(), Error>)
        requires
            old(self)@.ready(),
            op == INST || op == OBJ || op == NEWOBJ || op == NEWOBJ_EX || op == BUILD || op
                == BINPERSID,
        ensures
            done(r, final(self)@, old(self)@.op_object(op)),
            r is Ok ==> final(self)@.follows(old(self)@),
    {
        if op == INST {
            // the module name and the class name
            match self.read_line() {
                Ok(_) => {},
                Err(e) => {
                    return Err(e);
                },
            }
            match self.read_line() {
                Ok(_) => {},
                Err(e) => {
                    return Err(e);
                },
            }
            // the arguments to init
            match self.pop_mark() {
                Ok(_) => {},
                Err(e) => {
                    return Err(e);
                },
            }
            // an empty dict in the place of the class instance
            self.push(Value::Dict(HashMapWrapper::new()));
            Ok(())
        } else if op == OBJ {
            // the arguments to init
            match self.pop_mark() {
                Ok(_) => {},
                Err(e) => {
                    return Err(e);
                },
            }
            // the class object
            match self.pop() {
                Ok(_) => {},
                Err(e) => {
                    return Err(e);
                },
            }
            self.push(Value::Dict(HashMapWrapper::new()));
            Ok(())
        } else if op == NEWOBJ || op == NEWOBJ_EX {
            // the class object, the arguments and, for NEWOBJ_EX, the keyword arguments
            let n: u8 = if op == NEWOBJ {
                2
            } else {
                3
            };
            match self.drop_values(n) {
                Ok(()) => {},
                Err(e) => {
                    return Err(e);
                },
            }
            self.push(Value::Dict(HashMapWrapper::new()));
            Ok(())
        } else if op == BUILD {
            // The top is the instance dict or the argument of __setstate__, which can be
            // any value. Either way it takes the place of the stand-in.
            let state = match self.pop() {
                Ok(v) => v,
                Err(e) => {
                    return Err(e);
                },
            };
            match self.pop() {
                Ok(_) => {},
                Err(e) => {
                    return Err(e);
                },
            }
            self.push(state);
            Ok(())
        } else {
            let id = match self.pop() {
                Ok(v) => v,
                Err(e) => {
                    return Err(e);
                },
            };
            self.push(Value::BinPersId(Box::new(id)));
            Ok(())
        }
    }

    /// The opcodes of the extension registry and every byte that is no opcode.
    fn op_unsupported(&mut self, op: u8) -> (r: Result<(), Error>)
        requires
            old(self)@.ready(),
        ensures
            done(r, final(self)@, old(self)@.op_unsupported(op)),
            r is Err,
    {
        let n: u64 = if op == EXT1 {
            1
        } else if op == EXT2 {
            2
        } else if op == EXT4 {
            4
        } else {
            0
        };
        match self.read_bytes(n) {
            Ok(_) => Err(self.error(ErrorCode::Unsupported(op as char))),
            Err(e) => Err(e),
        }
    }

    /// Does what the opcode `op` asks for.
    fn step(&mut self, op: u8) -> (r: Result<(), Error>)
        requires
            old(self)@.ready(),
        ensures
            done(r, final(self)@, old(self)@.step(op)),
            r is Ok ==> final(self)@.follows(old(self)@),
    {
        if op == PROTO || op == FRAME {
            self.op_framing(op)
        } else if op == MARK || op == POP || op == POP_MARK || op == DUP {
            self.op_stack(op)
        } else if op == PUT || op == BINPUT || op == LONG_BINPUT || op == MEMOIZE || op == GET
            || op == BINGET || op == LONG_BINGET {
            self.op_memo(op)
        } else if op == NONE || op == NEWFALSE || op == NEWTRUE || op == INT || op == LONG || op
            == STRING || op == UNICODE || op == PERSID || op == BINFLOAT || op == BININT || op
            == BININT1 || op == BININT2 || op == LONG1 || op == LONG4 || op == SHORT_BINBYTES
            || op == BINBYTES || op == BINBYTES8 || op == SHORT_BINSTRING || op == BINSTRING
            || op == SHORT_BINUNICODE || op == BINUNICODE || op == BINUNICODE8 || op
            == BYTEARRAY8 {
            self.op_literal(op)
        } else if op == EMPTY_TUPLE || op == TUPLE1 || op == TUPLE2 || op == TUPLE3 || op
            == TUPLE {
            self.op_tuple(op)
        } else if op == EMPTY_LIST || op == LIST || op == APPEND || op == APPENDS {
            self.op_list(op)
        } else if op == EMPTY_DICT || op == DICT || op == SETITEM || op == SETITEMS {
            self.op_dict(op)
        } else if op == EMPTY_SET || op == FROZENSET || op == ADDITEMS {
            self.op_set(op)
        } else if op == GLOBAL || op == STACK_GLOBAL || op == REDUCE {
            self.op_global(op)
        } else if op == INST || op == OBJ || op == NEWOBJ || op == NEWOBJ_EX || op == BUILD || op
            == BINPERSID {
            self.op_object(op)
        } else {
            self.op_unsupported(op)
        }
    }

    /// Runs the machine until the stream stops or asks for a float. The value of a
    /// stream that has stopped is handed back as the stream built it, references to the
    /// memo included.
    pub fn parse_value(&mut self) -> (r: Result<Progress, Error>)
        requires
            old(self)@.wf(),
        ensures
            match r {
                Ok(p) => old(self)@.run() == Ok::<(Machine, Outcome), ErrorView>(
                    (final(self)@, p@),
                ) && final(self)@.follows(old(self)@),
                Err(e) => old(self)@.run() == Err::<(Machine, Outcome), ErrorView>(e@),
            },
            old(self)@.linked() && r is Ok ==> final(self)@.linked(),
    {
        proof {
            if old(self)@.linked() && old(self)@.run() is Ok {
                law_run_linked(old(self)@);
            }
        }
        loop
            invariant
                self@.follows(old(self)@),
                self@.run() == old(self)@.run(),
                old(self)@.linked() && old(self)@.run() is Ok ==> old(self)@.run()->Ok_0.0.linked(),
            decreases self@.input.len() - self@.pos,
        {
            let op = match self.read_byte() {
                Ok(b) => b,
                Err(e) => {
                    return Err(e);
                },
            };
            if op == STOP {
                return match self.pop() {
                    Ok(v) => Ok(Progress::Finished(v)),
                    Err(e) => Err(e),
                };
            } else if op == FLOAT {
                return match self.read_line() {
                    Ok(line) => Ok(Progress::NeedsFloat(line)),
                    Err(e) => Err(e),
                };
            } else {
                match self.step(op) {
                    Ok(()) => {},
                    Err(e) => {
                        return Err(e);
                    },
                }
            }
        }
    }

    /// Gives the machine the float that it has asked for: the bits of the double that
    /// the line spells, or nothing where the line spells none.
    pub fn resume_with_float(&mut self, line: Vec<u8>, bits: Option<u64>) -> (r: Result<
        (),
        Error,
    >)
        requires
            old(self)@.wf(),
        ensures
            done(r, final(self)@, old(self)@.resume(line@, bits)),
            r is Ok ==> final(self)@.follows(old(self)@),
            old(self)@.linked() && r is Ok ==> final(self)@.linked(),
    {
        match bits {
            Some(b) => {
                proof {
                    if old(self)@.linked() {
                        lemma_linked_push(old(self)@, ValueView::F64(b));
                    }
                }
                self.push(Value::F64(F64Wrapper(b)));
                Ok(())
            },
            None => Err(self.error(ErrorCode::InvalidLiteral(line))),
        }
    }

    /// Checks that the stream has been read to its end.
    pub fn end(&mut self) -> (r: Result<(), Error>)
        requires
            old(self)@.wf(),
        ensures
            final(self)@ == old(self)@,
            match r {
                Ok(()) => old(self)@.end() == Ok::<(), ErrorView>(()),
                Err(e) => old(self)@.end() == Err::<(), ErrorView>(e@),
            },
    {
        if self.pos < self.input.len() {
            Err(self.error(ErrorCode::TrailingBytes))
        } else {
            Ok(())
        }
    }

    /// Converts the values of `items` in their order, each with the memo that the one
    /// before has left.
    fn convert_items(&mut self, items: &Vec<Value>) -> (r: Result<Vec<Value>, Error>)
        requires
            old(self)@.wf(),
        ensures
            final(self)@.converted_from(old(self)@),
            match r {
                Ok(v) => convert_items(
                    views(items@),
                    0,
                    old(self)@.memo,
                    old(self)@.strict,
                    Seq::empty(),
                ) == (Ok::<Seq<ValueView>, ErrorView>(views(v@)), final(self)@.memo)
                    && all_resolved(views(v@), old(self)@.strict) && all_well_formed(views(v@)),
                Err(e) => convert_items(
                    views(items@),
                    0,
                    old(self)@.memo,
                    old(self)@.strict,
                    Seq::empty(),
                ).0 == Err::<Seq<ValueView>, ErrorView>(e@),
            },
        decreases old(self)@.memo.dom().len(), items, 1int,
    {
        let mut out: Vec<Value> = Vec::new();
        let mut i: usize = 0;
        assert(views(out@) =~= Seq::empty());
        while i < items.len()
            invariant
                i <= items.len(),
                self@.converted_from(old(self)@),
                no_larger(self@.memo, old(self)@.memo),
                all_resolved(views(out@), old(self)@.strict),
                all_well_formed(views(out@)),
                convert_items(views(items@), i as int, self@.memo, old(self)@.strict, views(out@))
                    == convert_items(
                    views(items@),
                    0,
                    old(self)@.memo,
                    old(self)@.strict,
                    Seq::empty(),
                ),
            decreases items.len() - i,
        {
            let ghost before = self@;
            let ghost done_so_far = views(out@);
            match self.convert_value(&items[i]) {
                Ok(v) => {
                    proof {
                        vstd::set_lib::lemma_len_subset(self@.memo.dom(), before.memo.dom());
                    }
                    out.push(v);
                    proof {
                        assert(views(out@) =~= done_so_far.push(v@));
                    }
                },
                Err(e) => {
                    return Err(e);
                },
            }
            i += 1;
        }
        Ok(out)
    }

    /// Converts the entries of `entries` in their order: the key, then the value.
    fn convert_entries(&mut self, entries: &Vec<(Value, Value)>) -> (r: Result<
        Vec<(Value, Value)>,
        Error,
    >)
        requires
            old(self)@.wf(),
        ensures
            final(self)@.converted_from(old(self)@),
            match r {
                Ok(v) => convert_entries(
                    pair_views(entries@),
                    0,
                    old(self)@.memo,
                    old(self)@.strict,
                    Seq::empty(),
                ) == (
                    Ok::<Seq<(ValueView, ValueView)>, ErrorView>(pair_views(v@)),
                    final(self)@.memo,
                )
                    && all_entries_resolved(pair_views(v@), old(self)@.strict)
                    && all_entries_well_formed(pair_views(v@)),
                Err(e) => convert_entries(
                    pair_views(entries@),
                    0,
                    old(self)@.memo,
                    old(self)@.strict,
                    Seq::empty(),
                ).0 == Err::<Seq<(ValueView, ValueView)>, ErrorView>(e@),
            },
        decreases old(self)@.memo.dom().len(), entries, 1int,
    {
        let mut out: Vec<(Value, Value)> = Vec::new();
        let mut i: usize = 0;
        assert(pair_views(out@) =~= Seq::empty());
        while i < entries.len()
            invariant
                i <= entries.len(),
                self@.converted_from(old(self)@),
                no_larger(self@.memo, old(self)@.memo),
                all_entries_resolved(pair_views(out@), old(self)@.strict),
                all_entries_well_formed(pair_views(out@)),
                convert_entries(
                    pair_views(entries@),
                    i as int,
                    self@.memo,
                    old(self)@.strict,
                    pair_views(out@),
                ) == convert_entries(
                    pair_views(entries@),
                    0,
                    old(self)@.memo,
                    old(self)@.strict,
                    Seq::empty(),
                ),
            decreases entries.len() - i,
        {
            let ghost before = self@;
            let ghost done_so_far = pair_views(out@);
            let key = match self.convert_value(&entries[i].0) {
                Ok(v) => v,
                Err(e) => {
                    return Err(e);
                },
            };
            let ghost between = self@;
            proof {
                vstd::set_lib::lemma_len_subset(between.memo.dom(), before.memo.dom());
            }
            let val = match self.convert_value(&entries[i].1) {
                Ok(v) => v,
                Err(e) => {
                    return Err(e);
                },
            };
            proof {
                vstd::set_lib::lemma_len_subset(self@.memo.dom(), between.memo.dom());
            }
            out.push((key, val));
            proof {
                assert(pair_views(out@) =~= done_so_far.push((key@, val@)));
            }
            i += 1;
        }
        Ok(out)
    }

    /// Converts the members of a set and collects them anew: two of them may have
    /// become the same value, and each has to be a value that can be a member.
    fn convert_set(&mut self, set: &HashSetWrapper) -> (r: Result<HashSetWrapper, Error>)
        requires
            old(self)@.wf(),
        ensures
            final(self)@.converted_from(old(self)@),
            ({
                let (members, rest) = convert_items(
                    set@,
                    0,
                    old(self)@.memo,
                    old(self)@.strict,
                    Seq::empty(),
                );
                match r {
                    Ok(new) => {
                        &&& members is Ok
                        &&& rest == final(self)@.memo
                        &&& build_set(members->Ok_0, 0, Seq::empty()) == Some(new@)
                        &&& all_resolved(new@, old(self)@.strict)
                        &&& all_well_formed(new@)
                        &&& all_hashable(new@)
                        &&& new.wf()
                    },
                    Err(e) => match members {
                        Ok(converted) => build_set(converted, 0, Seq::empty()) is None && e@
                            == ErrorView::Syntax(ErrorCodeView::ValueNotHashable),
                        Err(found) => e@ == found,
                    },
                }
            }),
        decreases old(self)@.memo.dom().len(), set, 2int,
    {
        match self.convert_items(&set.0) {
            Ok(new) => {
                let ghost members = views(new@);
                match HashSetWrapper::from_hashable(new) {
                    Some(set) => {
                        proof {
                            lemma_build_set_resolved(
                                members,
                                0,
                                Seq::empty(),
                                old(self)@.strict,
                            );
                            lemma_build_set_well_formed(members, 0, Seq::empty());
                        }
                        Ok(set)
                    },
                    None => Err(Error::Syntax(ErrorCode::ValueNotHashable)),
                }
            },
            Err(e) => Err(e),
        }
    }

    /// Post-processes a value: follows the references to the memo, turns the integers
    /// that fit into 64-bit ones, and collects sets and dicts anew. A value that refers
    /// to itself gives the error `Recursive`.
    pub fn convert_value(&mut self, value: &Value) -> (r: Result<Value, Error>)
        requires
            old(self)@.wf(),
        ensures
            final(self)@.converted_from(old(self)@),
            match r {
                Ok(v) => convert(value@, old(self)@.memo, old(self)@.strict) == (
                    Ok::<ValueView, ErrorView>(v@),
                    final(self)@.memo,
                ) && resolved(v@, old(self)@.strict) && well_formed(v@),
                Err(e) => convert(value@, old(self)@.memo, old(self)@.strict).0 == Err::<
                    ValueView,
                    ErrorView,
                >(e@),
            },
        decreases old(self)@.memo.dom().len(), value, 0int,
    {
        match value {
            Value::Int(v) => {
                match big_to_i64(v) {
                    Some(i) => Ok(Value::I64(i)),
                    None => Ok(Value::Int(big_clone(v))),
                }
            },
            Value::List(v) => {
                match self.convert_items(v) {
                    Ok(new) => Ok(Value::List(new)),
                    Err(e) => Err(e),
                }
            },
            Value::Tuple(v) => {
                match self.convert_items(v) {
                    Ok(new) => Ok(Value::Tuple(new)),
                    Err(e) => Err(e),
                }
            },
            Value::MutableSet(v) => {
                match self.convert_set(v) {
                    Ok(set) => Ok(Value::MutableSet(set)),
                    Err(e) => Err(e),
                }
            },
            Value::FrozenSet(v) => {
                match self.convert_set(v) {
                    Ok(set) => Ok(Value::FrozenSet(set)),
                    Err(e) => Err(e),
                }
            },
            Value::Dict(v) => {
                match self.convert_entries(&v.0) {
                    Ok(new) => {
                        let ghost entries = pair_views(new@);
                        match HashMapWrapper::from_hashable(new) {
                            Some(dict) => {
                                proof {
                                    lemma_build_dict_resolved(
                                        entries,
                                        0,
                                        Seq::empty(),
                                        old(self)@.strict,
                                    );
                                    lemma_build_dict_well_formed(entries, 0, Seq::empty());
                                }
                                Ok(Value::Dict(dict))
                            },
                            None => Err(Error::Syntax(ErrorCode::ValueNotHashable)),
                        }
                    },
                    Err(e) => Err(e),
                }
            },
            Value::BinPersId(inner) => {
                match self.convert_value(inner) {
                    Ok(new) => Ok(Value::BinPersId(Box::new(new))),
                    Err(e) => Err(e),
                }
            },
            Value::MemoRef(memo_id) => {
                // The entry is out of the memo while its value is converted, so that a
                // value which refers to itself meets no entry.
                match self.memo.remove(memo_id) {
                    Some((inner, count)) => {
                        assert(self@.memo =~= old(self)@.memo.remove(*memo_id));
                        let r = self.convert_value(&inner);
                        let ghost rest = self@.memo;
                        if count - 1 > 0 {
                            self.memo.insert(*memo_id, (inner, count - 1));
                            assert(self@.memo =~= rest.insert(
                                *memo_id,
                                (inner@, (count - 1) as int),
                            ));
                        }
                        r
                    },
                    None => {
                        assert(self@.memo =~= old(self)@.memo);
                        Err(Error::Syntax(ErrorCode::Recursive))
                    },
                }
            },
            Value::Global(g) => {
                if self.strict {
                    Err(Error::Syntax(ErrorCode::UnresolvedGlobal))
                } else {
                    Ok(Value::Global(*g))
                }
            },
            other => Ok(other.clone()),
        }
    }

    /// Decodes the stream: runs the machine and, where the stream has stopped,
    /// post-processes its value. The value that is handed back holds no reference to
    /// the memo, and no global where the options are strict.
    pub fn deserialize_value(&mut self) -> (r: Result<Progress, Error>)
        requires
            old(self)@.wf(),
        ensures
            match r {
                Ok(p) => old(self)@.deserialize() == Ok::<(Machine, Outcome), ErrorView>(
                    (final(self)@, p@),
                ) && final(self)@.follows(old(self)@) && (p matches Progress::Finished(v)
                    ==> resolved(v@, old(self)@.strict) && well_formed(v@)),
                Err(e) => old(self)@.deserialize() == Err::<(Machine, Outcome), ErrorView>(e@),
            },
    {
        match self.parse_value() {
            Ok(Progress::Finished(internal_value)) => {
                match self.convert_value(&internal_value) {
                    Ok(value) => Ok(Progress::Finished(value)),
                    Err(e) => Err(e),
                }
            },
            Ok(Progress::NeedsFloat(line)) => Ok(Progress::NeedsFloat(line)),
            Err(e) => Err(e),
        }
    }

    /// Decodes a value from the bytes of a stream, up to its end or up to the first float
    /// that it writes as text. Nothing may follow the STOP of the stream.
    pub fn value_from_reader(input: Vec<u8>, options: UnpicklerOptions) -> (r: Result<
        Decoding,
        Error,
    >)
        ensures
            decoding_is(
                r,
                Machine::initial(
                    input@,
                    options.text_strings(),
                    options.fix_imports,
                    options.strict,
                ),
            ),
    {
        let mut unpickler = Unpickler::new(input, options);
        unpickler.decode()
    }

    /// Goes on with a stream that has asked for a float: `bits` is the bit pattern of the
    /// double that `line` spells, or nothing where the line spells none.
    pub fn resume(self, line: Vec<u8>, bits: Option<u64>) -> (r: Result<Decoding, Error>)
        requires
            self@.wf(),
        ensures
            match self@.resume(line@, bits) {
                Ok(m) => decoding_is(r, m),
                Err(e) => r matches Err(found) && found@ == e,
            },
    {
        let mut unpickler = self;
        match unpickler.resume_with_float(line, bits) {
            Ok(()) => unpickler.decode(),
            Err(e) => Err(e),
        }
    }

    /// Decodes the rest of the stream and checks that it has been read to its end.
    pub fn decode(self) -> (r: Result<Decoding, Error>)
        requires
            self@.wf(),
        ensures
            decoding_is(r, self@),
    {
        let mut unpickler = self;
        match unpickler.deserialize_value() {
            Ok(Progress::Finished(value)) => match unpickler.end() {
                Ok(()) => Ok(Decoding::Finished(value)),
                Err(e) => Err(e),
            },
            Ok(Progress::NeedsFloat(line)) => Ok(Decoding::NeedsFloat(unpickler, line)),
            Err(e) => Err(e),
        }
    }
}

} // verus!
