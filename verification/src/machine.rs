//! The stack machine that a stream drives, as a mathematical model: its state, what
//! each opcode does to it, and what the post-processor makes of the value that is left.

use crate::error::{ErrorCodeView, ErrorView};
use crate::numbers::{be_value, le_value, signed_le_value};
use crate::opcodes::{
    ADDITEMS, APPEND, APPENDS, BINBYTES, BINBYTES8, BINFLOAT, BINGET, BININT, BININT1, BININT2,
    BINPERSID, BINPUT, BINSTRING, BINUNICODE, BINUNICODE8, BUILD, BYTEARRAY8, DICT, DUP,
    EMPTY_DICT, EMPTY_LIST, EMPTY_SET, EMPTY_TUPLE, EXT1, EXT2, EXT4, FLOAT, FRAME, FROZENSET, GET,
    GLOBAL, INST, INT, LIST, LONG, LONG1, LONG4, LONG_BINGET, LONG_BINPUT, MARK, MEMOIZE, NEWFALSE,
    NEWOBJ, NEWOBJ_EX, NEWTRUE, NONE, OBJ, PERSID, POP, POP_MARK, PROTO, PUT, REDUCE, SETITEM,
    SETITEMS, SHORT_BINBYTES, SHORT_BINSTRING, SHORT_BINUNICODE, STACK_GLOBAL, STOP, STRING, TUPLE,
    TUPLE1, TUPLE2, TUPLE3, UNICODE,
};
use crate::bigint::long_literal;
use crate::text::{
    is_quoted, latin1, signed_decimal, u32_literal, unescape, unescape_unicode, unquoted,
};
use crate::value::{debug_text, Global, MemoId, ValueView};
use crate::wrappers::{dict_extend, set_extend};
use vstd::prelude::*;
use vstd::utf8::{decode_utf8, encode_utf8, valid_utf8};

verus! {

/// The memo: under each id a value and the number of references to it that are around.
pub type Memo = Map<MemoId, (ValueView, int)>;

/// The state of the machine.
pub struct Machine {
    /// The whole stream.
    pub input: Seq<u8>,
    /// Whether the strings of protocols 0 and 1 are decoded to text.
    pub decode_strings: bool,
    /// Whether the module names of the 2.x lineage are accepted below protocol 3.
    pub fix_imports: bool,
    /// Whether a global that is left in the result is an error.
    pub strict: bool,
    /// The protocol that the stream announced.
    pub proto: u8,
    /// How many bytes of the stream were read.
    pub pos: int,
    /// The operand stack.
    pub stack: Seq<ValueView>,
    /// The operand stacks that were set aside, one for each mark that is open.
    pub metastack: Seq<Seq<ValueView>>,
    /// The memo.
    pub memo: Memo,
}

/// How a run of the machine ends, where it does not fail.
pub enum Outcome {
    /// The stream reached its STOP; this is the value that it built.
    Finished(ValueView),
    /// The stream holds a float written as text, whose line is handed out. The machine
    /// goes on when it is given the float.
    NeedsFloat(Seq<u8>),
}

/// Whether `bytes` are the UTF-8 bytes of `word`.
pub open spec fn spells(bytes: Seq<u8>, word: Seq<char>) -> bool {
    bytes == encode_utf8(word)
}

/// The global that a module name and a name stand for. With `legacy` the module name of
/// the 2.x lineage counts as well.
pub open spec fn classify(module: Seq<u8>, name: Seq<u8>, legacy: bool) -> Global {
    let builtins = spells(module, "builtins"@) || (legacy && spells(module, "__builtin__"@));
    if spells(module, "_codecs"@) && spells(name, "encode"@) {
        Global::Encode
    } else if builtins && spells(name, "set"@) {
        Global::MutableSet
    } else if builtins && spells(name, "frozenset"@) {
        Global::Frozenset
    } else if builtins && spells(name, "list"@) {
        Global::List
    } else if builtins && spells(name, "bytearray"@) {
        Global::Bytearray
    } else if builtins && spells(name, "int"@) {
        Global::Int
    } else {
        Global::Other
    }
}

/// Where the line ends that starts at `from`: the position of the next newline, or the
/// length of the input where there is none.
pub open spec fn line_end(input: Seq<u8>, from: int) -> int
    decreases input.len() - from,
{
    if 0 <= from < input.len() {
        if input[from] == 0x0a {
            from
        } else {
            line_end(input, from + 1)
        }
    } else {
        input.len() as int
    }
}

/// The line without a carriage return at its end.
pub open spec fn without_cr(line: Seq<u8>) -> Seq<u8> {
    if line.len() > 0 && line.last() == 0x0d {
        line.drop_last()
    } else {
        line
    }
}

/// The line without an `L` at its end.
pub open spec fn without_suffix(line: Seq<u8>) -> Seq<u8> {
    if line.len() > 0 && line.last() == 0x4c {
        line.drop_last()
    } else {
        line
    }
}

/// The memo with one reference less to the entry of `id`.
pub open spec fn release(memo: Memo, id: MemoId) -> Memo {
    memo.insert(id, (memo[id].0, memo[id].1 - 1))
}

impl Machine {
    /// The machine before it has read anything.
    pub open spec fn initial(
        input: Seq<u8>,
        decode_strings: bool,
        fix_imports: bool,
        strict: bool,
    ) -> Machine {
        Machine {
            input,
            decode_strings,
            fix_imports,
            strict,
            proto: 0,
            pos: 0,
            stack: Seq::empty(),
            metastack: Seq::empty(),
            memo: Map::empty(),
        }
    }

    /// Whether every count of the memo lies between `low` and `high`.
    pub open spec fn counts_between(self, low: int, high: int) -> bool {
        forall|id: MemoId|
            self.memo.contains_key(id) ==> low <= (#[trigger] self.memo[id]).1 <= high
    }

    /// Whether every count of the memo lies between `-4 * budget` and `budget`.
    pub open spec fn counts_within(self, budget: int) -> bool {
        self.counts_between(-4 * budget, budget)
    }

    /// What holds of every state that the machine reaches: the position lies in the
    /// input, and no count of the memo has outgrown the number of bytes read.
    pub open spec fn wf(self) -> bool {
        &&& 0 <= self.pos <= self.input.len()
        &&& self.input.len() <= usize::MAX
        &&& self.memo.dom().finite()
        &&& self.counts_within(self.pos)
    }

    /// Whether this machine reads the input of `before` under the same options, and is
    /// not behind it.
    pub open spec fn moved_on(self, before: Machine) -> bool {
        &&& self.input == before.input
        &&& self.decode_strings == before.decode_strings
        &&& self.fix_imports == before.fix_imports
        &&& self.strict == before.strict
        &&& before.pos <= self.pos <= self.input.len()
    }

    /// The error of the given reason at the position of the machine.
    pub open spec fn error(self, code: ErrorCodeView) -> ErrorView {
        ErrorView::Eval(code, self.pos)
    }

    /// The error of an opcode that found the wrong variant.
    pub open spec fn stack_error(self, what: Seq<char>, found: ValueView) -> ErrorView {
        ErrorView::Eval(ErrorCodeView::InvalidStackTop(what, debug_text(found)), self.pos)
    }

    /// The machine `n` bytes further on.
    pub open spec fn advance(self, n: int) -> Machine {
        Machine { pos: self.pos + n, ..self }
    }

    /// Reads one byte.
    pub open spec fn read_byte(self) -> Result<(Machine, u8), ErrorView> {
        if 0 <= self.pos < self.input.len() {
            Ok((self.advance(1), self.input[self.pos]))
        } else {
            Err(self.error(ErrorCodeView::EOFWhileParsing))
        }
    }

    /// Reads `n` bytes.
    pub open spec fn read_bytes(self, n: int) -> Result<(Machine, Seq<u8>), ErrorView> {
        if 0 <= n && 0 <= self.pos && self.pos + n <= self.input.len() {
            Ok((self.advance(n), self.input.subrange(self.pos, self.pos + n)))
        } else {
            Err(self.error(ErrorCodeView::EOFWhileParsing))
        }
    }

    /// Reads a line: the bytes up to the next newline, without the newline and without
    /// a carriage return before it. It is an error if the input ends before a newline.
    pub open spec fn read_line(self) -> Result<(Machine, Seq<u8>), ErrorView> {
        let end = line_end(self.input, self.pos);
        if 0 <= self.pos <= end < self.input.len() {
            Ok((self.advance(end + 1 - self.pos), without_cr(self.input.subrange(self.pos, end))))
        } else {
            Err(self.error(ErrorCodeView::EOFWhileParsing))
        }
    }

    /// Reads a length of one byte and as many bytes.
    pub open spec fn read_u8_prefixed(self) -> Result<(Machine, Seq<u8>), ErrorView> {
        match self.read_byte() {
            Ok((m, n)) => m.read_bytes(n as int),
            Err(e) => Err(e),
        }
    }

    /// Reads a length of four bytes, least significant first, and as many bytes.
    pub open spec fn read_u32_prefixed(self) -> Result<(Machine, Seq<u8>), ErrorView> {
        match self.read_bytes(4) {
            Ok((m, n)) => m.read_bytes(le_value(n) as int),
            Err(e) => Err(e),
        }
    }

    /// Reads a signed length of four bytes, least significant first, and as many bytes.
    /// A negative length is an error.
    pub open spec fn read_i32_prefixed(self) -> Result<(Machine, Seq<u8>), ErrorView> {
        match self.read_bytes(4) {
            Ok((m, n)) => if signed_le_value(n) < 0 {
                Err(m.error(ErrorCodeView::NegativeLength))
            } else {
                m.read_bytes(signed_le_value(n))
            },
            Err(e) => Err(e),
        }
    }

    /// Reads a length of eight bytes, least significant first, and as many bytes.
    pub open spec fn read_u64_prefixed(self) -> Result<(Machine, Seq<u8>), ErrorView> {
        match self.read_bytes(8) {
            Ok((m, n)) => m.read_bytes(le_value(n) as int),
            Err(e) => Err(e),
        }
    }

    /// Pushes a value on the operand stack.
    pub open spec fn push(self, v: ValueView) -> Machine {
        Machine { stack: self.stack.push(v), ..self }
    }

    /// Takes the top of the operand stack.
    pub open spec fn pop(self) -> Result<(Machine, ValueView), ErrorView> {
        if self.stack.len() > 0 {
            Ok((Machine { stack: self.stack.drop_last(), ..self }, self.stack.last()))
        } else {
            Err(self.error(ErrorCodeView::StackUnderflow))
        }
    }

    /// Sets the operand stack aside and starts an empty one.
    pub open spec fn mark(self) -> Machine {
        Machine { stack: Seq::empty(), metastack: self.metastack.push(self.stack), ..self }
    }

    /// Hands out the operand stack and goes back to the one that was set aside last.
    pub open spec fn pop_mark(self) -> Result<(Machine, Seq<ValueView>), ErrorView> {
        if self.metastack.len() > 0 {
            Ok(
                (
                    Machine {
                        stack: self.metastack.last(),
                        metastack: self.metastack.drop_last(),
                        ..self
                    },
                    self.stack,
                ),
            )
        } else {
            Err(self.error(ErrorCodeView::StackUnderflow))
        }
    }

    /// What a value stands for while the stream is decoded: a reference to the memo
    /// stands for the value kept there, and is given up with this. A reference to
    /// nothing stands for nothing.
    pub open spec fn resolve(self, v: ValueView) -> (Machine, Option<ValueView>) {
        match v {
            ValueView::MemoRef(id) => if self.memo.contains_key(id) {
                (Machine { memo: release(self.memo, id), ..self }, Some(self.memo[id].0))
            } else {
                (self, None)
            },
            other => (self, Some(other)),
        }
    }

    /// Takes the top of the operand stack and resolves it.
    pub open spec fn pop_resolve(self) -> Result<(Machine, ValueView), ErrorView> {
        if self.stack.len() > 0 {
            let (m, r) = Machine { stack: self.stack.drop_last(), ..self }.resolve(
                self.stack.last(),
            );
            match r {
                Some(v) => Ok((m, v)),
                None => Err(m.error(ErrorCodeView::StackUnderflow)),
            }
        } else {
            Err(self.error(ErrorCodeView::StackUnderflow))
        }
    }

    /// The item `i` of an argument tuple, resolved. Nothing where the tuple is shorter.
    pub open spec fn argument(self, args: Seq<ValueView>, i: int) -> (Machine, Option<ValueView>) {
        if 0 <= i < args.len() {
            self.resolve(args[i])
        } else {
            (self, None)
        }
    }

    /// The value that the top of the operand stack stands for: where the top is a
    /// reference to the memo, the value that is kept there.
    pub open spec fn top_value(self) -> Result<ValueView, ErrorView> {
        if self.stack.len() == 0 {
            Err(self.error(ErrorCodeView::StackUnderflow))
        } else {
            match self.stack.last() {
                ValueView::MemoRef(id) => if self.memo.contains_key(id) {
                    Ok(self.memo[id].0)
                } else {
                    Err(ErrorView::Syntax(ErrorCodeView::MissingMemo(id)))
                },
                other => Ok(other),
            }
        }
    }

    /// Puts `v` in the place of the value that the top of the operand stack stands for.
    pub open spec fn set_top_value(self, v: ValueView) -> Machine {
        match self.stack.last() {
            ValueView::MemoRef(id) => Machine {
                memo: self.memo.insert(id, (v, self.memo[id].1)),
                ..self
            },
            _ => Machine { stack: self.stack.update(self.stack.len() - 1, v), ..self },
        }
    }

    /// Moves the top of the operand stack into the memo under `id` and leaves a
    /// reference in its place. Where the top is a reference itself, a copy of what it
    /// refers to goes into the memo.
    pub open spec fn store_memo(self, id: MemoId) -> Result<Machine, ErrorView> {
        match self.pop() {
            Ok((m, ValueView::MemoRef(other))) => if m.memo.contains_key(other) {
                Ok(
                    Machine { memo: m.memo.insert(id, (m.memo[other].0, 1)), ..m }.push(
                        ValueView::MemoRef(id),
                    ),
                )
            } else {
                Err(m.error(ErrorCodeView::MissingMemo(other)))
            },
            Ok((m, item)) => Ok(
                Machine { memo: m.memo.insert(id, (item, 1)), ..m }.push(ValueView::MemoRef(id)),
            ),
            Err(e) => Err(e),
        }
    }

    /// Pushes a reference to the memo entry of `id`, which counts one reference more.
    pub open spec fn push_memo_ref(self, id: MemoId) -> Result<Machine, ErrorView> {
        if self.memo.contains_key(id) {
            Ok(
                Machine {
                    memo: self.memo.insert(id, (self.memo[id].0, self.memo[id].1 + 1)),
                    ..self
                }.push(ValueView::MemoRef(id)),
            )
        } else {
            Err(self.error(ErrorCodeView::MissingMemo(id)))
        }
    }

    /// The id that MEMOIZE gives out: the number of entries of the memo.
    pub open spec fn next_memo_id(self) -> MemoId {
        (self.memo.dom().len() % 0x1_0000_0000) as MemoId
    }

    /// Decodes a string of the binary protocols as UTF-8 text.
    pub open spec fn decode_unicode(self, bytes: Seq<u8>) -> Result<ValueView, ErrorView> {
        if valid_utf8(bytes) {
            Ok(ValueView::String(decode_utf8(bytes)))
        } else {
            Err(self.error(ErrorCodeView::StringNotUTF8))
        }
    }

    /// Decodes a string of protocols 0 and 1: as text or as bytes, as the options say.
    pub open spec fn decode_string(self, bytes: Seq<u8>) -> Result<ValueView, ErrorView> {
        if self.decode_strings {
            self.decode_unicode(bytes)
        } else {
            Ok(ValueView::Bytes(bytes))
        }
    }

    /// Decodes the line of a STRING opcode: quotes, then escapes, then the text.
    pub open spec fn decode_escaped_string(self, line: Seq<u8>) -> Result<ValueView, ErrorView> {
        if is_quoted(line) {
            match unescape(unquoted(line), 0, Seq::empty()) {
                Some(bytes) => self.decode_string(bytes),
                None => Err(self.error(ErrorCodeView::InvalidLiteral(unquoted(line)))),
            }
        } else {
            Err(self.error(ErrorCodeView::InvalidLiteral(line)))
        }
    }

    /// Decodes the line of a UNICODE opcode.
    pub open spec fn decode_escaped_unicode(self, line: Seq<u8>) -> Result<ValueView, ErrorView> {
        match unescape_unicode(line, 0, Seq::empty()) {
            Some(text) => Ok(ValueView::String(text)),
            None => Err(self.error(ErrorCodeView::InvalidLiteral(line))),
        }
    }

    /// Decodes the line of an INT opcode: `00` and `01` are the two booleans. Every
    /// other line has to be a sign and decimal digits; the integer is one of 64 bits
    /// where it fits, and one of any size where it does not.
    pub open spec fn decode_text_int(self, line: Seq<u8>) -> Result<ValueView, ErrorView> {
        if line.len() == 2 && line[0] == 0x30 && line[1] == 0x30 {
            Ok(ValueView::Bool(false))
        } else if line.len() == 2 && line[0] == 0x30 && line[1] == 0x31 {
            Ok(ValueView::Bool(true))
        } else {
            match signed_decimal(line) {
                Some(i) => if i64::MIN <= i <= i64::MAX {
                    Ok(ValueView::I64(i as i64))
                } else {
                    Ok(ValueView::Int(i))
                },
                None => Err(self.error(ErrorCodeView::InvalidLiteral(line))),
            }
        }
    }

    /// Decodes the line of a LONG opcode, which may end in `L`.
    pub open spec fn decode_text_long(self, line: Seq<u8>) -> Result<ValueView, ErrorView> {
        match long_literal(without_suffix(line)) {
            Some(i) => Ok(ValueView::Int(i)),
            None => Err(self.error(ErrorCodeView::InvalidLiteral(without_suffix(line)))),
        }
    }

    /// Decodes the line of a PUT or GET opcode.
    pub open spec fn decode_memo_id(self, line: Seq<u8>) -> Result<MemoId, ErrorView> {
        match u32_literal(line) {
            Some(id) => Ok(id),
            None => Err(self.error(ErrorCodeView::InvalidLiteral(line))),
        }
    }

    /// Whether the module names of the 2.x lineage count.
    pub open spec fn legacy_names(self) -> bool {
        self.fix_imports && self.proto < 3
    }

    /// Changes the list that the top of the stack stands for: `items` are added at its
    /// end.
    pub open spec fn extend_list(self, items: Seq<ValueView>) -> Result<Machine, ErrorView> {
        match self.top_value() {
            Ok(ValueView::List(list)) => Ok(self.set_top_value(ValueView::List(list + items))),
            Ok(other) => Err(self.stack_error("list"@, other)),
            Err(e) => Err(e),
        }
    }

    /// Changes the dict that the top of the stack stands for: the entries come that
    /// `items` spell.
    pub open spec fn extend_dict(self, items: Seq<ValueView>) -> Result<Machine, ErrorView> {
        match self.top_value() {
            Ok(ValueView::Dict(dict)) => Ok(
                self.set_top_value(ValueView::Dict(dict_extend(dict, items, 0))),
            ),
            Ok(other) => Err(self.stack_error("dict"@, other)),
            Err(e) => Err(e),
        }
    }

    /// Changes the set that the top of the stack stands for: the values of `items`
    /// come.
    pub open spec fn extend_set(self, items: Seq<ValueView>) -> Result<Machine, ErrorView> {
        match self.top_value() {
            Ok(ValueView::MutableSet(set)) => Ok(
                self.set_top_value(ValueView::MutableSet(set_extend(set, items, 0))),
            ),
            Ok(other) => Err(self.stack_error("set"@, other)),
            Err(e) => Err(e),
        }
    }

    /// Applies a global to its argument tuple, as REDUCE does. What is no global, or a
    /// global with an argument that it cannot take, is an invalid value.
    pub open spec fn reduce_global(self, global: ValueView, args: Seq<ValueView>) -> Result<
        Machine,
        ErrorView,
    > {
        match global {
            ValueView::Global(Global::MutableSet) => match self.argument(args, 0) {
                (m, Some(ValueView::List(items))) => Ok(
                    m.push(ValueView::MutableSet(set_extend(Seq::empty(), items, 0))),
                ),
                (m, _) => Err(m.error(ErrorCodeView::InvalidValue("set() arg"@))),
            },
            ValueView::Global(Global::Frozenset) => match self.argument(args, 0) {
                (m, Some(ValueView::List(items))) => Ok(
                    m.push(ValueView::FrozenSet(set_extend(Seq::empty(), items, 0))),
                ),
                (m, _) => Err(m.error(ErrorCodeView::InvalidValue("frozenset() arg"@))),
            },
            ValueView::Global(Global::Bytearray) => match self.argument(args, 0) {
                (m, Some(ValueView::Bytes(bytes))) => Ok(m.push(ValueView::Bytes(bytes))),
                (m, Some(ValueView::String(text))) => Ok(m.push(ValueView::Bytes(latin1(text)))),
                (m, _) => Err(m.error(ErrorCodeView::InvalidValue("bytearray() arg"@))),
            },
            ValueView::Global(Global::List) => match self.argument(args, 0) {
                (m, Some(ValueView::List(items))) => Ok(m.push(ValueView::List(items))),
                (m, _) => Err(m.error(ErrorCodeView::InvalidValue("list() arg"@))),
            },
            ValueView::Global(Global::Int) => match self.argument(args, 0) {
                (m, Some(ValueView::Int(i))) => Ok(m.push(ValueView::Int(i))),
                (m, _) => Err(m.error(ErrorCodeView::InvalidValue("int() arg"@))),
            },
            ValueView::Global(Global::Encode) => match self.argument(args, 1) {
                (m, Some(ValueView::String(_))) => match m.argument(args, 0) {
                    (m2, Some(ValueView::String(text))) => Ok(
                        m2.push(ValueView::Bytes(latin1(text))),
                    ),
                    (m2, _) => Err(m2.error(ErrorCodeView::InvalidValue("encode() arg"@))),
                },
                (m, _) => Err(m.error(ErrorCodeView::InvalidValue("encode() arg"@))),
            },
            ValueView::Global(Global::Other) => Ok(self.push(ValueView::Global(Global::Other))),
            _ => Err(self.error(ErrorCodeView::InvalidValue("global reference"@))),
        }
    }

    /// Pushes the value that a payload decodes to, or fails with its error.
    pub open spec fn push_decoded(self, decoded: Result<ValueView, ErrorView>) -> Result<
        Machine,
        ErrorView,
    > {
        match decoded {
            Ok(v) => Ok(self.push(v)),
            Err(e) => Err(e),
        }
    }

    /// PROTO and FRAME: the protocol is noted, the frame length is passed over.
    pub open spec fn op_framing(self, op: u8) -> Result<Machine, ErrorView> {
        if op == PROTO {
            match self.read_byte() {
                Ok((m, version)) => Ok(Machine { proto: version, ..m }),
                Err(e) => Err(e),
            }
        } else {
            match self.read_bytes(8) {
                Ok((m, _)) => Ok(m),
                Err(e) => Err(e),
            }
        }
    }

    /// MARK, POP, POP_MARK and DUP.
    pub open spec fn op_stack(self, op: u8) -> Result<Machine, ErrorView> {
        if op == MARK {
            Ok(self.mark())
        } else if op == POP {
            if self.stack.len() == 0 {
                match self.pop_mark() {
                    Ok((m, _)) => Ok(m),
                    Err(e) => Err(e),
                }
            } else {
                match self.pop() {
                    Ok((m, _)) => Ok(m),
                    Err(e) => Err(e),
                }
            }
        } else if op == POP_MARK {
            match self.pop_mark() {
                Ok((m, _)) => Ok(m),
                Err(e) => Err(e),
            }
        } else {
            match self.top_value() {
                Ok(v) => Ok(self.push(v)),
                Err(e) => Err(e),
            }
        }
    }

    /// Reads the memo id of PUT and GET (a line), BINPUT and BINGET (a byte),
    /// LONG_BINPUT and LONG_BINGET (four bytes), and takes that of MEMOIZE from the
    /// memo.
    pub open spec fn read_memo_id(self, op: u8) -> Result<(Machine, MemoId), ErrorView> {
        if op == PUT || op == GET {
            match self.read_line() {
                Ok((m, line)) => match m.decode_memo_id(line) {
                    Ok(id) => Ok((m, id)),
                    Err(e) => Err(e),
                },
                Err(e) => Err(e),
            }
        } else if op == BINPUT || op == BINGET {
            match self.read_byte() {
                Ok((m, b)) => Ok((m, b as MemoId)),
                Err(e) => Err(e),
            }
        } else if op == LONG_BINPUT || op == LONG_BINGET {
            match self.read_bytes(4) {
                Ok((m, bytes)) => Ok((m, le_value(bytes) as MemoId)),
                Err(e) => Err(e),
            }
        } else {
            Ok((self, self.next_memo_id()))
        }
    }

    /// PUT, BINPUT, LONG_BINPUT and MEMOIZE; GET, BINGET and LONG_BINGET.
    pub open spec fn op_memo(self, op: u8) -> Result<Machine, ErrorView> {
        match self.read_memo_id(op) {
            Ok((m, id)) => if op == GET || op == BINGET || op == LONG_BINGET {
                m.push_memo_ref(id)
            } else {
                m.store_memo(id)
            },
            Err(e) => Err(e),
        }
    }

    /// The opcodes that push a value which their payload spells: the singletons, the
    /// numbers, the strings and the bytes.
    pub open spec fn op_literal(self, op: u8) -> Result<Machine, ErrorView> {
        if op == NONE {
            Ok(self.push(ValueView::NoneValue))
        } else if op == NEWFALSE {
            Ok(self.push(ValueView::Bool(false)))
        } else if op == NEWTRUE {
            Ok(self.push(ValueView::Bool(true)))
        } else if op == INT || op == LONG || op == STRING || op == UNICODE || op == PERSID {
            match self.read_line() {
                Ok((m, line)) => m.push_decoded(
                    if op == INT {
                        m.decode_text_int(line)
                    } else if op == LONG {
                        m.decode_text_long(line)
                    } else if op == STRING {
                        m.decode_escaped_string(line)
                    } else if op == UNICODE {
                        m.decode_escaped_unicode(line)
                    } else {
                        Ok(ValueView::BinPersId(Box::new(ValueView::Bytes(line))))
                    },
                ),
                Err(e) => Err(e),
            }
        } else if op == BINFLOAT {
            match self.read_bytes(8) {
                Ok((m, bytes)) => Ok(m.push(ValueView::F64(be_value(bytes) as u64))),
                Err(e) => Err(e),
            }
        } else if op == BININT {
            match self.read_bytes(4) {
                Ok((m, bytes)) => Ok(m.push(ValueView::I64(signed_le_value(bytes) as i64))),
                Err(e) => Err(e),
            }
        } else if op == BININT1 {
            match self.read_byte() {
                Ok((m, b)) => Ok(m.push(ValueView::I64(b as i64))),
                Err(e) => Err(e),
            }
        } else if op == BININT2 {
            match self.read_bytes(2) {
                Ok((m, bytes)) => Ok(m.push(ValueView::I64(le_value(bytes) as i64))),
                Err(e) => Err(e),
            }
        } else {
            match (if op == LONG1 || op == SHORT_BINBYTES || op == SHORT_BINSTRING || op
                == SHORT_BINUNICODE {
                self.read_u8_prefixed()
            } else if op == LONG4 || op == BINSTRING {
                self.read_i32_prefixed()
            } else if op == BINBYTES || op == BINUNICODE {
                self.read_u32_prefixed()
            } else {
                self.read_u64_prefixed()
            }) {
                Ok((m, bytes)) => m.push_decoded(
                    if op == LONG1 || op == LONG4 {
                        Ok(ValueView::Int(signed_le_value(bytes)))
                    } else if op == SHORT_BINSTRING || op == BINSTRING {
                        m.decode_string(bytes)
                    } else if op == SHORT_BINUNICODE || op == BINUNICODE || op == BINUNICODE8 {
                        m.decode_unicode(bytes)
                    } else {
                        Ok(ValueView::Bytes(bytes))
                    },
                ),
                Err(e) => Err(e),
            }
        }
    }

    /// EMPTY_TUPLE, TUPLE1, TUPLE2, TUPLE3 and TUPLE.
    pub open spec fn op_tuple(self, op: u8) -> Result<Machine, ErrorView> {
        if op == EMPTY_TUPLE {
            Ok(self.push(ValueView::Tuple(Seq::empty())))
        } else if op == TUPLE1 {
            match self.pop() {
                Ok((m, item)) => Ok(m.push(ValueView::Tuple(seq![item]))),
                Err(e) => Err(e),
            }
        } else if op == TUPLE2 {
            match self.pop() {
                Ok((m, item2)) => match m.pop() {
                    Ok((m, item1)) => Ok(m.push(ValueView::Tuple(seq![item1, item2]))),
                    Err(e) => Err(e),
                },
                Err(e) => Err(e),
            }
        } else if op == TUPLE3 {
            match self.pop() {
                Ok((m, item3)) => match m.pop() {
                    Ok((m, item2)) => match m.pop() {
                        Ok((m, item1)) => Ok(
                            m.push(ValueView::Tuple(seq![item1, item2, item3])),
                        ),
                        Err(e) => Err(e),
                    },
                    Err(e) => Err(e),
                },
                Err(e) => Err(e),
            }
        } else {
            match self.pop_mark() {
                Ok((m, items)) => Ok(m.push(ValueView::Tuple(items))),
                Err(e) => Err(e),
            }
        }
    }

    /// EMPTY_LIST, LIST, APPEND and APPENDS.
    pub open spec fn op_list(self, op: u8) -> Result<Machine, ErrorView> {
        if op == EMPTY_LIST {
            Ok(self.push(ValueView::List(Seq::empty())))
        } else if op == LIST {
            match self.pop_mark() {
                Ok((m, items)) => Ok(m.push(ValueView::List(items))),
                Err(e) => Err(e),
            }
        } else if op == APPEND {
            match self.pop() {
                Ok((m, value)) => m.extend_list(seq![value]),
                Err(e) => Err(e),
            }
        } else {
            match self.pop_mark() {
                Ok((m, items)) => m.extend_list(items),
                Err(e) => Err(e),
            }
        }
    }

    /// EMPTY_DICT, DICT, SETITEM and SETITEMS.
    pub open spec fn op_dict(self, op: u8) -> Result<Machine, ErrorView> {
        if op == EMPTY_DICT {
            Ok(self.push(ValueView::Dict(Seq::empty())))
        } else if op == DICT {
            match self.pop_mark() {
                Ok((m, items)) => Ok(
                    m.push(ValueView::Dict(dict_extend(Seq::empty(), items, 0))),
                ),
                Err(e) => Err(e),
            }
        } else if op == SETITEM {
            match self.pop() {
                Ok((m, value)) => match m.pop() {
                    Ok((m, key)) => m.extend_dict(seq![key, value]),
                    Err(e) => Err(e),
                },
                Err(e) => Err(e),
            }
        } else {
            match self.pop_mark() {
                Ok((m, items)) => m.extend_dict(items),
                Err(e) => Err(e),
            }
        }
    }

    /// EMPTY_SET, FROZENSET and ADDITEMS.
    pub open spec fn op_set(self, op: u8) -> Result<Machine, ErrorView> {
        if op == EMPTY_SET {
            Ok(self.push(ValueView::MutableSet(Seq::empty())))
        } else if op == FROZENSET {
            match self.pop_mark() {
                Ok((m, items)) => Ok(
                    m.push(ValueView::FrozenSet(set_extend(Seq::empty(), items, 0))),
                ),
                Err(e) => Err(e),
            }
        } else {
            match self.pop_mark() {
                Ok((m, items)) => m.extend_set(items),
                Err(e) => Err(e),
            }
        }
    }

    /// Takes a name from the stack for STACK_GLOBAL: it has to be text.
    pub open spec fn pop_name(self) -> Result<(Machine, Seq<u8>), ErrorView> {
        match self.pop_resolve() {
            Ok((m, ValueView::String(text))) => Ok((m, encode_utf8(text))),
            Ok((m, other)) => Err(m.stack_error("string"@, other)),
            Err(e) => Err(e),
        }
    }

    /// GLOBAL: the module name and the name stand on two lines.
    pub open spec fn global_by_name(self) -> Result<Machine, ErrorView> {
        match self.read_line() {
            Ok((m, module)) => match m.read_line() {
                Ok((m, name)) => Ok(
                    m.push(ValueView::Global(classify(module, name, m.legacy_names()))),
                ),
                Err(e) => Err(e),
            },
            Err(e) => Err(e),
        }
    }

    /// STACK_GLOBAL: the name and, below it, the module name stand on the stack.
    pub open spec fn global_from_stack(self) -> Result<Machine, ErrorView> {
        match self.pop_name() {
            Ok((m, name)) => match m.pop_name() {
                Ok((m, module)) => Ok(
                    m.push(ValueView::Global(classify(module, name, m.legacy_names()))),
                ),
                Err(e) => Err(e),
            },
            Err(e) => Err(e),
        }
    }

    /// REDUCE: the argument tuple and, below it, the global stand on the stack.
    pub open spec fn reduce(self) -> Result<Machine, ErrorView> {
        match self.pop_resolve() {
            Ok((m, ValueView::Tuple(args))) => match m.pop_resolve() {
                Ok((m, global)) => m.reduce_global(global, args),
                Err(e) => Err(e),
            },
            Ok((m, other)) => Err(m.stack_error("tuple"@, other)),
            Err(e) => Err(e),
        }
    }

    /// GLOBAL, STACK_GLOBAL and REDUCE.
    pub open spec fn op_global(self, op: u8) -> Result<Machine, ErrorView> {
        if op == GLOBAL {
            self.global_by_name()
        } else if op == STACK_GLOBAL {
            self.global_from_stack()
        } else {
            self.reduce()
        }
    }

    /// Drops `n` values from the operand stack.
    pub open spec fn drop_values(self, n: nat) -> Result<Machine, ErrorView>
        decreases n,
    {
        if n == 0 {
            Ok(self)
        } else {
            match self.pop() {
                Ok((m, _)) => m.drop_values((n - 1) as nat),
                Err(e) => Err(e),
            }
        }
    }

    /// INST, OBJ, NEWOBJ, NEWOBJ_EX, BUILD and BINPERSID: an object of a class that
    /// is not known becomes an empty dict, which BUILD replaces by the state.
    pub open spec fn op_object(self, op: u8) -> Result<Machine, ErrorView> {
        if op == INST {
            match self.read_line() {
                Ok((m, _)) => match m.read_line() {
                    Ok((m, _)) => match m.pop_mark() {
                        Ok((m, _)) => Ok(m.push(ValueView::Dict(Seq::empty()))),
                        Err(e) => Err(e),
                    },
                    Err(e) => Err(e),
                },
                Err(e) => Err(e),
            }
        } else if op == OBJ {
            match self.pop_mark() {
                Ok((m, _)) => match m.pop() {
                    Ok((m, _)) => Ok(m.push(ValueView::Dict(Seq::empty()))),
                    Err(e) => Err(e),
                },
                Err(e) => Err(e),
            }
        } else if op == NEWOBJ || op == NEWOBJ_EX {
            match self.drop_values(
                if op == NEWOBJ {
                    2
                } else {
                    3
                },
            ) {
                Ok(m) => Ok(m.push(ValueView::Dict(Seq::empty()))),
                Err(e) => Err(e),
            }
        } else if op == BUILD {
            match self.pop() {
                Ok((m, state)) => match m.pop() {
                    Ok((m, _)) => Ok(m.push(state)),
                    Err(e) => Err(e),
                },
                Err(e) => Err(e),
            }
        } else {
            match self.pop() {
                Ok((m, id)) => Ok(m.push(ValueView::BinPersId(Box::new(id)))),
                Err(e) => Err(e),
            }
        }
    }

    /// What is left: the opcodes of the extension registry, which read their code, and
    /// every byte that is no opcode of this machine.
    pub open spec fn op_unsupported(self, op: u8) -> Result<Machine, ErrorView> {
        let n: int = if op == EXT1 {
            1
        } else if op == EXT2 {
            2
        } else if op == EXT4 {
            4
        } else {
            0
        };
        match self.read_bytes(n) {
            Ok((m, _)) => Err(m.error(ErrorCodeView::Unsupported(op as char))),
            Err(e) => Err(e),
        }
    }

    /// What the opcode `op` does to the machine that has just read it. STOP and FLOAT
    /// are not among them: they end a run.
    pub open spec fn step(self, op: u8) -> Result<Machine, ErrorView> {
        if op == PROTO || op == FRAME {
            self.op_framing(op)
        } else if op == MARK || op == POP || op == POP_MARK || op == DUP {
            self.op_stack(op)
        } else if op == PUT || op == BINPUT || op == LONG_BINPUT || op == MEMOIZE || op == GET
            || op == BINGET || op == LONG_BINGET {
            self.op_memo(op)
        } else if op == NONE || op == NEWFALSE || op == NEWTRUE || op == INT || op == LONG || op
            == STRING || op == UNICODE || op == PERSID || op == BINFLOAT || op == BININT || op
            == BININT1 || op == BININT2 || op == LONG1 || op == LONG4 || op == SHORT_BINBYTES
            || op == BINBYTES || op == BINBYTES8 || op == SHORT_BINSTRING || op == BINSTRING
            || op == SHORT_BINUNICODE || op == BINUNICODE || op == BINUNICODE8 || op
            == BYTEARRAY8 {
            self.op_literal(op)
        } else if op == EMPTY_TUPLE || op == TUPLE1 || op == TUPLE2 || op == TUPLE3 || op
            == TUPLE {
            self.op_tuple(op)
        } else if op == EMPTY_LIST || op == LIST || op == APPEND || op == APPENDS {
            self.op_list(op)
        } else if op == EMPTY_DICT || op == DICT || op == SETITEM || op == SETITEMS {
            self.op_dict(op)
        } else if op == EMPTY_SET || op == FROZENSET || op == ADDITEMS {
            self.op_set(op)
        } else if op == GLOBAL || op == STACK_GLOBAL || op == REDUCE {
            self.op_global(op)
        } else if op == INST || op == OBJ || op == NEWOBJ || op == NEWOBJ_EX || op == BUILD || op
            == BINPERSID {
            self.op_object(op)
        } else {
            self.op_unsupported(op)
        }
    }

    /// Runs the machine until the stream stops, asks for a float, or fails.
    pub open spec fn run(self) -> Result<(Machine, Outcome), ErrorView>
        decreases self.input.len() - self.pos,
    {
        match self.read_byte() {
            Ok((m, op)) => if op == STOP {
                match m.pop() {
                    Ok((m, v)) => Ok((m, Outcome::Finished(v))),
                    Err(e) => Err(e),
                }
            } else if op == FLOAT {
                match m.read_line() {
                    Ok((m, line)) => Ok((m, Outcome::NeedsFloat(line))),
                    Err(e) => Err(e),
                }
            } else {
                match m.step(op) {
                    // A step never moves back in the input, nor changes it
                    // (`law_step_moves_on`): the other branch is never taken.
                    Ok(next) => if next.input == self.input && self.pos < next.pos
                        <= next.input.len() {
                        next.run()
                    } else {
                        Err(next.error(ErrorCodeView::EOFWhileParsing))
                    },
                    Err(e) => Err(e),
                }
            },
            Err(e) => Err(e),
        }
    }

    /// The machine after the float that it asked for was pushed.
    pub open spec fn resume(self, line: Seq<u8>, bits: Option<u64>) -> Result<Machine, ErrorView> {
        match bits {
            Some(b) => Ok(self.push(ValueView::F64(b))),
            None => Err(self.error(ErrorCodeView::InvalidLiteral(line))),
        }
    }

    /// What is asked after a stream is decoded: nothing may follow its STOP.
    pub open spec fn end(self) -> Result<(), ErrorView> {
        if self.pos < self.input.len() {
            Err(self.error(ErrorCodeView::TrailingBytes))
        } else {
            Ok(())
        }
    }
}

} // verus!
