//! The error taxonomy: named failure kinds with line attribution.
//!
//! Every failure is a pair of a 1-based line number and a [`SyntaxErrorKind`];
//! whole-file failures (an empty input, a missing `main`) carry line 0.  Each
//! kind owns a stable small integer code so a host process can exit with a
//! meaningful status.

use crate::op_codes::OpCode;
use vstd::prelude::*;

verus! {

/// A named failure kind.  Text payloads carry the offending characters.
#[derive(Debug, PartialEq)]
pub enum SyntaxErrorKind {
    /// A separator-grammar violation.
    SyntaxError,
    /// The input was empty.
    EmptyText,
    /// `'…'` did not form exactly one character.
    InvalidSingleQuote(Vec<char>),
    /// The character after a backslash is not a recognized escape.
    InvalidBackSlash(char),
    /// A character required escaping in this context.
    BackSlashNeeded(char),
    /// Unterminated `"…` at end of input.
    DoubleQuoteNeverEnded,
    /// Unterminated `'…` at end of input.
    SingleQuoteNeverEnded,
    /// Incomplete construct at end of line.
    EndOfLine,
    /// Not a known register name.
    InvalidRegister(Vec<char>),
    /// Not a known opcode mnemonic.
    InvalidOpCode(Vec<char>),
    /// Digits did not parse as a signed 32-bit number.
    InvalidNumber(Vec<char>),
    /// A token that is neither register, opcode nor valid label.
    InvalidWord(Vec<char>),
    /// An empty label name.
    InvalidLabelName(Vec<char>),
    /// The leading character of a token is not allowed.
    InvalidFirstChar(char),
    /// A duplicate label declaration.
    LabelDeclaredTwice(Vec<char>),
    /// A reference to an unknown label.
    LabelIsNotDeclared(Vec<char>),
    /// No label named `main` was declared.
    NoMain,
    /// The opcode expected `reg, reg|imm`.
    ExpectedRegImmOrReg(OpCode),
    /// The opcode expected a single register.
    ExpectedReg(OpCode),
    /// The opcode expected a single register or immediate.
    ExpectedRegOrImm(OpCode),
    /// The opcode expected no operands.
    ExpectedNothing(OpCode),
}

/// The mathematical mirror of [`SyntaxErrorKind`]: text payloads as
/// character sequences.
pub ghost enum ErrorKindV {
    SyntaxError,
    EmptyText,
    InvalidSingleQuote(Seq<char>),
    InvalidBackSlash(char),
    BackSlashNeeded(char),
    DoubleQuoteNeverEnded,
    SingleQuoteNeverEnded,
    EndOfLine,
    InvalidRegister(Seq<char>),
    InvalidOpCode(Seq<char>),
    InvalidNumber(Seq<char>),
    InvalidWord(Seq<char>),
    InvalidLabelName(Seq<char>),
    InvalidFirstChar(char),
    LabelDeclaredTwice(Seq<char>),
    LabelIsNotDeclared(Seq<char>),
    NoMain,
    ExpectedRegImmOrReg(OpCode),
    ExpectedReg(OpCode),
    ExpectedRegOrImm(OpCode),
    ExpectedNothing(OpCode),
}

impl View for SyntaxErrorKind {
    type V = ErrorKindV;

    open spec fn view(&self) -> ErrorKindV {
        match self {
            SyntaxErrorKind::SyntaxError => ErrorKindV::SyntaxError,
            SyntaxErrorKind::EmptyText => ErrorKindV::EmptyText,
            SyntaxErrorKind::InvalidSingleQuote(s) => ErrorKindV::InvalidSingleQuote(s@),
            SyntaxErrorKind::InvalidBackSlash(c) => ErrorKindV::InvalidBackSlash(*c),
            SyntaxErrorKind::BackSlashNeeded(c) => ErrorKindV::BackSlashNeeded(*c),
            SyntaxErrorKind::DoubleQuoteNeverEnded => ErrorKindV::DoubleQuoteNeverEnded,
            SyntaxErrorKind::SingleQuoteNeverEnded => ErrorKindV::SingleQuoteNeverEnded,
            SyntaxErrorKind::EndOfLine => ErrorKindV::EndOfLine,
            SyntaxErrorKind::InvalidRegister(s) => ErrorKindV::InvalidRegister(s@),
            SyntaxErrorKind::InvalidOpCode(s) => ErrorKindV::InvalidOpCode(s@),
            SyntaxErrorKind::InvalidNumber(s) => ErrorKindV::InvalidNumber(s@),
            SyntaxErrorKind::InvalidWord(s) => ErrorKindV::InvalidWord(s@),
            SyntaxErrorKind::InvalidLabelName(s) => ErrorKindV::InvalidLabelName(s@),
            SyntaxErrorKind::InvalidFirstChar(c) => ErrorKindV::InvalidFirstChar(*c),
            SyntaxErrorKind::LabelDeclaredTwice(s) => ErrorKindV::LabelDeclaredTwice(s@),
            SyntaxErrorKind::LabelIsNotDeclared(s) => ErrorKindV::LabelIsNotDeclared(s@),
            SyntaxErrorKind::NoMain => ErrorKindV::NoMain,
            SyntaxErrorKind::ExpectedRegImmOrReg(op) => ErrorKindV::ExpectedRegImmOrReg(*op),
            SyntaxErrorKind::ExpectedReg(op) => ErrorKindV::ExpectedReg(*op),
            SyntaxErrorKind::ExpectedRegOrImm(op) => ErrorKindV::ExpectedRegOrImm(*op),
            SyntaxErrorKind::ExpectedNothing(op) => ErrorKindV::ExpectedNothing(*op),
        }
    }
}

/// The stable integer code of an error kind, 1 to 21.
pub open spec fn spec_error_code(e: ErrorKindV) -> i32 {
    match e {
        ErrorKindV::EmptyText => 1,
        ErrorKindV::InvalidSingleQuote(_) => 2,
        ErrorKindV::InvalidBackSlash(_) => 3,
        ErrorKindV::BackSlashNeeded(_) => 4,
        ErrorKindV::DoubleQuoteNeverEnded => 5,
        ErrorKindV::SingleQuoteNeverEnded => 6,
        ErrorKindV::EndOfLine => 7,
        ErrorKindV::InvalidRegister(_) => 8,
        ErrorKindV::InvalidOpCode(_) => 9,
        ErrorKindV::InvalidNumber(_) => 10,
        ErrorKindV::InvalidWord(_) => 11,
        ErrorKindV::InvalidLabelName(_) => 12,
        ErrorKindV::InvalidFirstChar(_) => 13,
        ErrorKindV::LabelDeclaredTwice(_) => 14,
        ErrorKindV::LabelIsNotDeclared(_) => 15,
        ErrorKindV::SyntaxError => 16,
        ErrorKindV::ExpectedRegImmOrReg(_) => 17,
        ErrorKindV::ExpectedReg(_) => 18,
        ErrorKindV::ExpectedRegOrImm(_) => 19,
        ErrorKindV::ExpectedNothing(_) => 20,
        ErrorKindV::NoMain => 21,
    }
}

impl SyntaxErrorKind {
    /// The stable integer code of this kind: 1 to 20 for the classic
    /// taxonomy, 21 for the missing-`main` failure.
    pub fn code(&self) -> (r: i32)
        ensures
            r == spec_error_code(self@),
    {
        match self {
            SyntaxErrorKind::EmptyText => 1,
            SyntaxErrorKind::InvalidSingleQuote(_) => 2,
            SyntaxErrorKind::InvalidBackSlash(_) => 3,
            SyntaxErrorKind::BackSlashNeeded(_) => 4,
            SyntaxErrorKind::DoubleQuoteNeverEnded => 5,
            SyntaxErrorKind::SingleQuoteNeverEnded => 6,
            SyntaxErrorKind::EndOfLine => 7,
            SyntaxErrorKind::InvalidRegister(_) => 8,
            SyntaxErrorKind::InvalidOpCode(_) => 9,
            SyntaxErrorKind::InvalidNumber(_) => 10,
            SyntaxErrorKind::InvalidWord(_) => 11,
            SyntaxErrorKind::InvalidLabelName(_) => 12,
            SyntaxErrorKind::InvalidFirstChar(_) => 13,
            SyntaxErrorKind::LabelDeclaredTwice(_) => 14,
            SyntaxErrorKind::LabelIsNotDeclared(_) => 15,
            SyntaxErrorKind::SyntaxError => 16,
            SyntaxErrorKind::ExpectedRegImmOrReg(_) => 17,
            SyntaxErrorKind::ExpectedReg(_) => 18,
            SyntaxErrorKind::ExpectedRegOrImm(_) => 19,
            SyntaxErrorKind::ExpectedNothing(_) => 20,
            SyntaxErrorKind::NoMain => 21,
        }
    }
}

/// An error kind together with the 1-based line it is attributed to.
/// Whole-file failures carry line 0.
#[derive(Debug, PartialEq)]
pub struct SyntaxError {
    pub line: usize,
    pub err: SyntaxErrorKind,
}

/// The mathematical mirror of [`SyntaxError`].
pub ghost struct ErrorV {
    pub line: int,
    pub err: ErrorKindV,
}

impl View for SyntaxError {
    type V = ErrorV;

    open spec fn view(&self) -> ErrorV {
        ErrorV { line: self.line as int, err: self.err@ }
    }
}

impl SyntaxError {
    /// The stable integer code of the carried kind.
    pub fn code(&self) -> (r: i32)
        ensures
            r == spec_error_code(self.err@),
    {
        self.err.code()
    }
}

/// Attributes a kind-level result to the given line.
pub fn cast_result<T>(res: Result<T, SyntaxErrorKind>, line: usize) -> (r: Result<T, SyntaxError>)
    ensures
        match res {
            Ok(_) => r is Ok && r->Ok_0 == res->Ok_0,
            Err(e) => r matches Err(se) && se.line == line && se.err == e,
        },
{
    match res {
        Ok(v) => Ok(v),
        Err(err) => Err(SyntaxError { line, err }),
    }
}

/// True when `name` may name a label: only empty names are forbidden.
pub open spec fn spec_valid_label_name(name: Seq<char>) -> bool {
    name.len() != 0
}

/// Returns true when the given name can be a label name.
pub fn is_valid_label_name(name: &Vec<char>) -> (r: bool)
    ensures
        r == spec_valid_label_name(name@),
{
    name.len() != 0
}

} // verus!
