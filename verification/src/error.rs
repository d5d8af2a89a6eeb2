//! What can go wrong while a stream is decoded.

use crate::text::string_push;
use vstd::prelude::*;
use vstd::string::StringExecFns;

verus! {

/// The text that the `Debug` formatting gives for a character: the character between
/// single quotes, escaped where it cannot be printed.
pub uninterp spec fn char_debug_text(c: char) -> Seq<char>;

/// The text that `bytes` encode as UTF-8, with the replacement character U+FFFD in the
/// place of what is no UTF-8.
pub uninterp spec fn lossy_text(bytes: Seq<u8>) -> Seq<char>;

/// The decimal digits of `n`, without leading zeros.
pub open spec fn decimal_text(n: nat) -> Seq<char>
    decreases n,
{
    if n < 10 {
        seq![(0x30 + n) as u8 as char]
    } else {
        decimal_text(n / 10).push((0x30 + n % 10) as u8 as char)
    }
}

/// `format!` of std with `{:?}` on a character.
#[verifier::external_body]
pub(crate) fn char_debug_string(c: char) -> (r: String)
    ensures
        r@ == char_debug_text(c),
{
    format!("{:?}", c)
}

/// `String::from_utf8_lossy` of std: the text that the bytes encode, with U+FFFD in
/// the place of what is no UTF-8.
#[verifier::external_body]
pub(crate) fn lossy_string(bytes: &[u8]) -> (r: String)
    ensures
        r@ == lossy_text(bytes@),
{
    String::from_utf8_lossy(bytes).into_owned()
}

/// Adds the decimal digits of `n` at the end of `s`.
fn push_decimal(s: &mut String, n: u32)
    ensures
        final(s)@ == old(s)@ + decimal_text(n as nat),
    decreases n,
{
    if n >= 10 {
        push_decimal(s, n / 10);
    }
    let digit: u8 = 0x30 + (n % 10) as u8;
    string_push(s, digit as char);
    proof {
        let before = old(s)@;
        if n >= 10 {
            assert(s@ =~= before + decimal_text((n / 10) as nat).push(digit as char));
        } else {
            assert(s@ =~= before + seq![digit as char]);
        }
    }
}

/// The decimal digits of `n`, without leading zeros.
pub fn decimal_string(n: u32) -> (r: String)
    ensures
        r@ == decimal_text(n as nat),
{
    let mut s = String::new();
    push_decimal(&mut s, n);
    assert(Seq::<char>::empty() + decimal_text(n as nat) =~= decimal_text(n as nat));
    s
}

/// The reason for an error.
#[derive(Clone, PartialEq, Eq, Debug)]
pub enum ErrorCode {
    /// Unsupported opcode
    Unsupported(char),
    /// EOF while parsing op argument
    EOFWhileParsing,
    /// Stack underflowed
    StackUnderflow,
    /// Length prefix found negative
    NegativeLength,
    /// String decoding as UTF-8 failed
    StringNotUTF8,
    /// Wrong stack top type for opcode: what was expected, and what was found
    InvalidStackTop(&'static str, String),
    /// Value not hashable, but used as dict key or set item
    ValueNotHashable,
    /// Recursive structure found, which is not supported
    Recursive,
    /// A "module global" reference wasn't resolved by REDUCE
    UnresolvedGlobal,
    /// A "module global" isn't supported
    UnsupportedGlobal(Vec<u8>, Vec<u8>),
    /// A value was missing from the memo
    MissingMemo(u32),
    /// Invalid literal found
    InvalidLiteral(Vec<u8>),
    /// Found trailing bytes after STOP opcode
    TrailingBytes,
    /// Invalid value in pickle stream
    InvalidValue(String),
    /// Structure deserialization error (e.g., unknown variant)
    Structure(String),
}

/// An error of the decoder.
#[derive(Clone, PartialEq, Eq, Debug)]
pub enum Error {
    /// The stream had some error while it was interpreted, at the given position.
    Eval(ErrorCode, usize),
    /// The decoded values could not be put together.
    Syntax(ErrorCode),
}

/// What an [`ErrorCode`] holds, as mathematical values.
pub enum ErrorCodeView {
    Unsupported(char),
    EOFWhileParsing,
    StackUnderflow,
    NegativeLength,
    StringNotUTF8,
    InvalidStackTop(Seq<char>, Seq<char>),
    ValueNotHashable,
    Recursive,
    UnresolvedGlobal,
    UnsupportedGlobal(Seq<u8>, Seq<u8>),
    MissingMemo(u32),
    InvalidLiteral(Seq<u8>),
    TrailingBytes,
    InvalidValue(Seq<char>),
    Structure(Seq<char>),
}

/// What an [`Error`] holds, as mathematical values.
pub enum ErrorView {
    Eval(ErrorCodeView, int),
    Syntax(ErrorCodeView),
}

impl ErrorCodeView {
    /// The message of the error.
    pub open spec fn message(self) -> Seq<char> {
        match self {
            ErrorCodeView::Unsupported(c) => "unsupported opcode "@ + char_debug_text(c),
            ErrorCodeView::EOFWhileParsing => "EOF while parsing"@,
            ErrorCodeView::StackUnderflow => "pickle stack underflow"@,
            ErrorCodeView::NegativeLength => "negative length prefix"@,
            ErrorCodeView::StringNotUTF8 => "string is not UTF-8 encoded"@,
            ErrorCodeView::InvalidStackTop(what, it) => "invalid stack top, expected "@ + what
                + ", got "@ + it,
            ErrorCodeView::ValueNotHashable => "dict key or set item not hashable"@,
            ErrorCodeView::Recursive => "recursive structure found"@,
            ErrorCodeView::UnresolvedGlobal => "unresolved global reference"@,
            ErrorCodeView::UnsupportedGlobal(m, g) => "unsupported global: "@ + lossy_text(m)
                + "."@ + lossy_text(g),
            ErrorCodeView::MissingMemo(n) => "missing memo with id "@ + decimal_text(n as nat),
            ErrorCodeView::InvalidLiteral(l) => "literal is invalid: "@ + lossy_text(l),
            ErrorCodeView::TrailingBytes => "trailing bytes found"@,
            ErrorCodeView::InvalidValue(s) => "invalid value: "@ + s,
            ErrorCodeView::Structure(s) => s,
        }
    }
}

impl ErrorCode {
    /// The message of the error, for a reader.
    pub fn message(&self) -> (r: String)
        ensures
            r@ == self@.message(),
    {
        match self {
            ErrorCode::Unsupported(ch) => "unsupported opcode ".to_owned().concat(
                char_debug_string(*ch).as_str(),
            ),
            ErrorCode::EOFWhileParsing => "EOF while parsing".to_owned(),
            ErrorCode::StackUnderflow => "pickle stack underflow".to_owned(),
            ErrorCode::NegativeLength => "negative length prefix".to_owned(),
            ErrorCode::StringNotUTF8 => "string is not UTF-8 encoded".to_owned(),
            ErrorCode::InvalidStackTop(what, it) => "invalid stack top, expected ".to_owned()
                .concat(what).concat(", got ").concat(it.as_str()),
            ErrorCode::ValueNotHashable => "dict key or set item not hashable".to_owned(),
            ErrorCode::Recursive => "recursive structure found".to_owned(),
            ErrorCode::UnresolvedGlobal => "unresolved global reference".to_owned(),
            ErrorCode::UnsupportedGlobal(m, g) => "unsupported global: ".to_owned().concat(
                lossy_string(m.as_slice()).as_str(),
            ).concat(".").concat(lossy_string(g.as_slice()).as_str()),
            ErrorCode::MissingMemo(n) => "missing memo with id ".to_owned().concat(
                decimal_string(*n).as_str(),
            ),
            ErrorCode::InvalidLiteral(l) => "literal is invalid: ".to_owned().concat(
                lossy_string(l.as_slice()).as_str(),
            ),
            ErrorCode::TrailingBytes => "trailing bytes found".to_owned(),
            ErrorCode::InvalidValue(s) => "invalid value: ".to_owned().concat(s.as_str()),
            ErrorCode::Structure(s) => s.clone(),
        }
    }
}

impl View for ErrorCode {
    type V = ErrorCodeView;

    open spec fn view(&self) -> ErrorCodeView {
        match self {
            ErrorCode::Unsupported(c) => ErrorCodeView::Unsupported(*c),
            ErrorCode::EOFWhileParsing => ErrorCodeView::EOFWhileParsing,
            ErrorCode::StackUnderflow => ErrorCodeView::StackUnderflow,
            ErrorCode::NegativeLength => ErrorCodeView::NegativeLength,
            ErrorCode::StringNotUTF8 => ErrorCodeView::StringNotUTF8,
            ErrorCode::InvalidStackTop(what, it) => ErrorCodeView::InvalidStackTop(what@, it@),
            ErrorCode::ValueNotHashable => ErrorCodeView::ValueNotHashable,
            ErrorCode::Recursive => ErrorCodeView::Recursive,
            ErrorCode::UnresolvedGlobal => ErrorCodeView::UnresolvedGlobal,
            ErrorCode::UnsupportedGlobal(m, g) => ErrorCodeView::UnsupportedGlobal(m@, g@),
            ErrorCode::MissingMemo(n) => ErrorCodeView::MissingMemo(*n),
            ErrorCode::InvalidLiteral(l) => ErrorCodeView::InvalidLiteral(l@),
            ErrorCode::TrailingBytes => ErrorCodeView::TrailingBytes,
            ErrorCode::InvalidValue(s) => ErrorCodeView::InvalidValue(s@),
            ErrorCode::Structure(s) => ErrorCodeView::Structure(s@),
        }
    }
}

impl View for Error {
    type V = ErrorView;

    open spec fn view(&self) -> ErrorView {
        match self {
            Error::Eval(code, pos) => ErrorView::Eval(code@, *pos as int),
            Error::Syntax(code) => ErrorView::Syntax(code@),
        }
    }
}

} // verus!
