//! The character-stream tokenizer.
//!
//! A [`WordBuilder`] consumes the input one character at a time and produces
//! classified [`Word`]s.  Every word records the raw characters it was built
//! from (`pure_content`), its parsed [`WordContent`], and the separator that
//! ended it.  Quoted literals, escape sequences and line comments are handled
//! here.

use crate::errors::{ErrorKindV, SyntaxErrorKind};
use crate::op_codes::{spec_op_of, OpCode};
use crate::registers::{spec_register_of, Register};
use vstd::prelude::*;

verus! {

/// The comment character: it starts a line comment consumed through the next
/// newline.
pub const COMMENT_CHAR: char = ';';

/// The reason a word ended.
#[derive(Clone, Copy, Debug, PartialEq, Eq, Structural)]
pub enum WordSeparator {
    /// `,`
    Comma,
    /// A space.
    Space,
    /// `'`
    SingleQuote,
    /// `:`, which ends a label declaration.
    Colon,
    /// `"`
    DoubleQuote,
    /// A newline, or the end of the input.
    EndOfLine,
    /// An ASCII digit.
    Digit,
    /// Every other character.
    Others,
}

/// True for the ASCII digits `0` to `9`.
pub open spec fn spec_is_digit(c: char) -> bool {
    48 <= (c as u32) && (c as u32) <= 57
}

/// The separator class of a character.
pub open spec fn spec_separator_of(c: char) -> WordSeparator {
    if c == ',' {
        WordSeparator::Comma
    } else if c == ' ' {
        WordSeparator::Space
    } else if c == '\'' {
        WordSeparator::SingleQuote
    } else if c == '"' {
        WordSeparator::DoubleQuote
    } else if c == '\n' {
        WordSeparator::EndOfLine
    } else if c == ':' {
        WordSeparator::Colon
    } else if spec_is_digit(c) {
        WordSeparator::Digit
    } else {
        WordSeparator::Others
    }
}

/// Exact decision of [`spec_is_digit`].
pub fn is_digit(c: char) -> (r: bool)
    ensures
        r == spec_is_digit(c),
{
    let u = c as u32;
    48 <= u && u <= 57
}

impl WordSeparator {
    /// Classifies a character.
    pub fn get(c: char) -> (r: WordSeparator)
        ensures
            r == spec_separator_of(c),
    {
        match c {
            ',' => WordSeparator::Comma,
            ' ' => WordSeparator::Space,
            '\'' => WordSeparator::SingleQuote,
            '"' => WordSeparator::DoubleQuote,
            '\n' => WordSeparator::EndOfLine,
            ':' => WordSeparator::Colon,
            _ => {
                if is_digit(c) {
                    WordSeparator::Digit
                } else {
                    WordSeparator::Others
                }
            },
        }
    }
}

/// Whether a character counts as alphabetic, as decided by the Unicode
/// `Alphabetic` property.  The classification depends on the character alone.
pub uninterp spec fn is_alphabetic_char(c: char) -> bool;

/// Relies on char::is_alphabetic: the Unicode `Alphabetic` classification
/// depends on the character alone; ASCII letters are alphabetic and no other
/// ASCII character is.
#[verifier::external_body]
fn char_is_alphabetic(c: char) -> (r: bool)
    ensures
        r == is_alphabetic_char(c),
        (97 <= (c as u32) && (c as u32) <= 122) || (65 <= (c as u32) && (c as u32) <= 90) ==> r,
        (c as u32) < 128 && !((97 <= (c as u32) && (c as u32) <= 122) || (65 <= (c as u32) && (c
            as u32) <= 90)) ==> !r,
{
    c.is_alphabetic()
}

/// The character denoted by the escape `\c`, if `c` is a recognized escape.
pub open spec fn spec_backslash_char(c: char) -> Option<char> {
    if c == 'n' {
        Some('\n')
    } else if c == 't' {
        Some('\t')
    } else if c == 'r' {
        Some('\r')
    } else if c == '0' {
        Some('\0')
    } else if c == '\\' {
        Some('\\')
    } else if c == '\'' {
        Some('\'')
    } else if c == '"' {
        Some('"')
    } else {
        None
    }
}

/// Resolves the escape `\c`, or reports an invalid-backslash failure.
pub fn get_backslash_char(c: char) -> (r: Result<char, SyntaxErrorKind>)
    ensures
        match spec_backslash_char(c) {
            Some(e) => r == Result::<char, SyntaxErrorKind>::Ok(e),
            None => (r matches Err(e) && e@ == ErrorKindV::InvalidBackSlash(c)),
        },
{
    match c {
        'n' => Ok('\n'),
        't' => Ok('\t'),
        'r' => Ok('\r'),
        '0' => Ok('\0'),
        '\\' => Ok('\\'),
        '\'' => Ok('\''),
        '"' => Ok('"'),
        _ => Err(SyntaxErrorKind::InvalidBackSlash(c)),
    }
}

/// Replaces every backslash escape in `s` by the character it denotes.
/// A dangling backslash at the end reports `InvalidBackSlash('\0')`, an
/// unrecognized escape reports `InvalidBackSlash` of the offending character.
pub open spec fn spec_unescape(s: Seq<char>) -> Result<Seq<char>, ErrorKindV>
    decreases s.len(),
{
    if s.len() == 0 {
        Ok(Seq::empty())
    } else if s[0] == '\\' {
        if s.len() == 1 {
            Err(ErrorKindV::InvalidBackSlash('\0'))
        } else {
            match spec_backslash_char(s[1]) {
                Some(e) => match spec_unescape(s.skip(2)) {
                    Ok(t) => Ok(seq![e] + t),
                    Err(k) => Err(k),
                },
                None => Err(ErrorKindV::InvalidBackSlash(s[1])),
            }
        }
    } else {
        match spec_unescape(s.skip(1)) {
            Ok(t) => Ok(seq![s[0]] + t),
            Err(k) => Err(k),
        }
    }
}

/// The characters a word's parsed content is computed from: the raw content
/// without its seed character and trailing separator.  For quoted words the
/// escapes are evaluated instead and the quote characters are kept.
/// `has_sep` records whether a terminating separator character was appended
/// (it is absent when the input ended the word).
pub open spec fn spec_trim(kind: WordKind, s: Seq<char>, has_sep: bool) -> Result<
    Seq<char>,
    ErrorKindV,
> {
    if kind is DoubleQuote || kind is SingleQuote {
        spec_unescape(s)
    } else {
        let end = if has_sep {
            s.len() - 1
        } else {
            s.len() as int
        };
        if end <= 1 {
            Ok(Seq::empty())
        } else {
            Ok(s.subrange(1, end))
        }
    }
}

/// What the tokenizer is currently building.  Unlike [`WordContent`] this
/// does not distinguish registers from opcodes and carries no parsed data.
#[derive(Clone, Copy, Debug, PartialEq, Eq, Structural)]
pub enum WordKind {
    Unknown,
    LabelDeclaration,
    Number,
    DoubleQuote,
    SingleQuote,
}

impl WordKind {
    /// True for the two quoted kinds.
    pub fn is_quote(self) -> (r: bool)
        ensures
            r == (self is DoubleQuote || self is SingleQuote),
    {
        self == WordKind::DoubleQuote || self == WordKind::SingleQuote
    }

    /// At the end of the input an unterminated quote is an error.
    pub fn check_valid_ending_word(self) -> (r: Result<(), SyntaxErrorKind>)
        ensures
            match self {
                WordKind::DoubleQuote => r matches Err(e) && e@ == ErrorKindV::DoubleQuoteNeverEnded,
                WordKind::SingleQuote => r matches Err(e) && e@ == ErrorKindV::SingleQuoteNeverEnded,
                _ => r is Ok,
            },
    {
        match self {
            WordKind::DoubleQuote => Err(SyntaxErrorKind::DoubleQuoteNeverEnded),
            WordKind::SingleQuote => Err(SyntaxErrorKind::SingleQuoteNeverEnded),
            _ => Ok(()),
        }
    }

    /// The separators that end a word of this kind.
    pub fn allows_separator(self, sep: WordSeparator) -> (r: bool)
        ensures
            r == spec_kind_allows(self, sep),
    {
        match self {
            WordKind::Unknown => sep == WordSeparator::Comma || sep == WordSeparator::Space || sep
                == WordSeparator::SingleQuote || sep == WordSeparator::DoubleQuote || sep
                == WordSeparator::EndOfLine,
            WordKind::LabelDeclaration => sep == WordSeparator::Colon,
            WordKind::Number => sep == WordSeparator::Comma || sep == WordSeparator::Space || sep
                == WordSeparator::SingleQuote || sep == WordSeparator::DoubleQuote || sep
                == WordSeparator::EndOfLine || sep == WordSeparator::Others,
            WordKind::DoubleQuote => sep == WordSeparator::DoubleQuote,
            WordKind::SingleQuote => sep == WordSeparator::SingleQuote,
        }
    }
}

/// The separators permitted to end a word of the given kind.  A number is
/// ended by any non-digit; a quoted word only by its closing quote.
pub open spec fn spec_kind_allows(kind: WordKind, sep: WordSeparator) -> bool {
    match kind {
        WordKind::Unknown => sep is Comma || sep is Space || sep is SingleQuote || sep
            is DoubleQuote || sep is EndOfLine,
        WordKind::LabelDeclaration => sep is Colon,
        WordKind::Number => sep is Comma || sep is Space || sep is SingleQuote || sep
            is DoubleQuote || sep is EndOfLine || sep is Others,
        WordKind::DoubleQuote => sep is DoubleQuote,
        WordKind::SingleQuote => sep is SingleQuote,
    }
}

/// The kind guessed from the first character of a word.
pub open spec fn spec_kind_of_first(c: char) -> Result<WordKind, ErrorKindV> {
    if c == '\'' {
        Ok(WordKind::SingleQuote)
    } else if c == '"' {
        Ok(WordKind::DoubleQuote)
    } else if spec_is_digit(c) {
        Ok(WordKind::Number)
    } else if is_alphabetic_char(c) || c == ',' || c == ' ' || c == ':' || c == '\n' || c == '\0' {
        Ok(WordKind::Unknown)
    } else {
        Err(ErrorKindV::InvalidFirstChar(c))
    }
}

/// Guesses the kind of word the given first character starts.
pub fn kind_of_first_char(c: char) -> (r: Result<WordKind, SyntaxErrorKind>)
    ensures
        match spec_kind_of_first(c) {
            Ok(k) => r == Result::<WordKind, SyntaxErrorKind>::Ok(k),
            Err(e) => (r matches Err(ee) && ee@ == e),
        },
{
    if c == '\'' {
        Ok(WordKind::SingleQuote)
    } else if c == '"' {
        Ok(WordKind::DoubleQuote)
    } else if is_digit(c) {
        Ok(WordKind::Number)
    } else if char_is_alphabetic(c) || c == ',' || c == ' ' || c == ':' || c == '\n' || c == '\0' {
        Ok(WordKind::Unknown)
    } else {
        Err(SyntaxErrorKind::InvalidFirstChar(c))
    }
}

/// The numeric value of a sequence of ASCII decimal digits.
pub open spec fn spec_digits_value(s: Seq<char>) -> int
    decreases s.len(),
{
    if s.len() == 0 {
        0
    } else {
        spec_digits_value(s.drop_last()) * 10 + ((s.last() as u32) - 48)
    }
}

/// A decimal number literal: non-empty, digits only, and within the signed
/// 32-bit range.
pub open spec fn spec_parse_number(s: Seq<char>) -> Option<i32> {
    if s.len() > 0 && (forall|i: int| 0 <= i < s.len() ==> spec_is_digit(s[i]))
        && spec_digits_value(s) <= 0x7fff_ffff {
        Some(spec_digits_value(s) as i32)
    } else {
        None
    }
}

proof fn lemma_digits_value_nonneg(s: Seq<char>)
    requires
        forall|j: int| 0 <= j < s.len() ==> spec_is_digit(s[j]),
    ensures
        spec_digits_value(s) >= 0,
    decreases s.len(),
{
    if s.len() > 0 {
        assert(forall|j: int|
            0 <= j < s.drop_last().len() ==> spec_is_digit(s.drop_last()[j]));
        lemma_digits_value_nonneg(s.drop_last());
    }
}

proof fn lemma_digits_value_monotone(s: Seq<char>, i: int)
    requires
        0 <= i <= s.len(),
        forall|j: int| 0 <= j < s.len() ==> spec_is_digit(s[j]),
    ensures
        spec_digits_value(s.take(i)) <= spec_digits_value(s),
    decreases s.len() - i,
{
    if i < s.len() {
        lemma_digits_value_monotone(s, i + 1);
        assert(forall|j: int| 0 <= j < s.take(i).len() ==> spec_is_digit(s.take(i)[j]));
        lemma_digits_value_nonneg(s.take(i));
        assert(s.take(i + 1).drop_last() =~= s.take(i));
        assert(spec_digits_value(s.take(i + 1)) == spec_digits_value(s.take(i)) * 10 + ((s[i]
            as u32) - 48));
    } else {
        assert(s.take(i) =~= s);
    }
}

/// Parses a decimal literal, reporting `InvalidNumber` on any non-digit or
/// on overflow of the signed 32-bit range.
pub fn parse_number(s: &Vec<char>) -> (r: Result<i32, SyntaxErrorKind>)
    requires
        s@.len() > 0,
    ensures
        match spec_parse_number(s@) {
            Some(x) => r == Result::<i32, SyntaxErrorKind>::Ok(x),
            None => (r matches Err(e) && e@ == ErrorKindV::InvalidNumber(s@)),
        },
{
    let mut acc: u64 = 0;
    let mut i: usize = 0;
    while i < s.len()
        invariant
            0 <= i <= s@.len(),
            forall|j: int| 0 <= j < i ==> spec_is_digit(s@[j]),
            acc == spec_digits_value(s@.take(i as int)),
            acc <= 0x7fff_ffff,
        decreases s@.len() - i,
    {
        let c = s[i];
        if !is_digit(c) {
            return Err(SyntaxErrorKind::InvalidNumber(copy_chars(s)));
        }
        let d = (c as u32) - 48;
        acc = acc * 10 + (d as u64);
        proof {
            assert(s@.take(i + 1).drop_last() =~= s@.take(i as int));
        }
        i = i + 1;
        if acc > 0x7fff_ffff {
            proof {
                if spec_parse_number(s@) is Some {
                    lemma_digits_value_monotone(s@, i as int);
                    assert(false);
                }
            }
            return Err(SyntaxErrorKind::InvalidNumber(copy_chars(s)));
        }
    }
    proof {
        assert(s@.take(i as int) =~= s@);
    }
    Ok(acc as i32)
}

/// A copy of a character vector.
pub fn copy_chars(v: &Vec<char>) -> (r: Vec<char>)
    ensures
        r@ == v@,
{
    let mut r: Vec<char> = Vec::new();
    let mut i: usize = 0;
    while i < v.len()
        invariant
            0 <= i <= v@.len(),
            r@ == v@.take(i as int),
        decreases v@.len() - i,
    {
        r.push(v[i]);
        proof {
            assert(v@.take(i + 1) =~= v@.take(i as int).push(v@[i as int]));
        }
        i = i + 1;
    }
    proof {
        assert(v@.take(i as int) =~= v@);
    }
    r
}

proof fn lemma_encode_utf8_push(s: Seq<char>, c: char)
    ensures
        vstd::utf8::encode_utf8(s.push(c)) == vstd::utf8::encode_utf8(s)
            + vstd::utf8::encode_scalar(c as u32),
    decreases s.len(),
{
    if s.len() == 0 {
        assert(s.push(c).drop_first() =~= s);
        assert(vstd::utf8::encode_utf8(s.push(c)) =~= vstd::utf8::encode_utf8(s)
            + vstd::utf8::encode_scalar(c as u32));
    } else {
        assert(s.push(c).drop_first() =~= s.drop_first().push(c));
        lemma_encode_utf8_push(s.drop_first(), c);
        assert(vstd::utf8::encode_utf8(s.push(c)) =~= vstd::utf8::encode_utf8(s)
            + vstd::utf8::encode_scalar(c as u32));
    }
}

/// The UTF-8 encoding of a character sequence.
pub fn utf8_encode(s: &Vec<char>, from: usize, to: usize) -> (r: Vec<u8>)
    requires
        0 <= from <= to <= s@.len(),
    ensures
        r@ == vstd::utf8::encode_utf8(s@.subrange(from as int, to as int)),
{
    let mut r: Vec<u8> = Vec::new();
    let mut i: usize = from;
    proof {
        assert(s@.subrange(from as int, from as int) =~= Seq::<char>::empty());
    }
    while i < to
        invariant
            from <= i <= to <= s@.len(),
            r@ == vstd::utf8::encode_utf8(s@.subrange(from as int, i as int)),
        decreases to - i,
    {
        let c = s[i];
        let u = c as u32;
        proof {
            broadcast use vstd::utf8::char_is_scalar;

            lemma_encode_utf8_push(s@.subrange(from as int, i as int), c);
            assert(s@.subrange(from as int, i + 1) =~= s@.subrange(from as int, i as int).push(c));
        }
        if u < 0x80 {
            assert((u & 0x7F) as u8 == u as u8 && u < 256) by (bit_vector)
                requires
                    u < 0x80,
            ;
            r.push(u as u8);
            proof {
                assert(vstd::utf8::encode_scalar(u) =~= seq![u as u8]);
            }
        } else if u < 0x800 {
            let b0: u8 = 0xC0u8 | (((u >> 6) & 0x1F) as u8);
            let b1: u8 = 0x80u8 | ((u & 0x3F) as u8);
            assert((u >> 6) & 0x1F < 256 && u & 0x3F < 256) by (bit_vector);
            r.push(b0);
            r.push(b1);
            proof {
                assert(vstd::utf8::encode_scalar(u) =~= seq![b0, b1]);
            }
        } else if u < 0x10000 {
            let b0: u8 = 0xE0u8 | (((u >> 12) & 0x0F) as u8);
            let b1: u8 = 0x80u8 | (((u >> 6) & 0x3F) as u8);
            let b2: u8 = 0x80u8 | ((u & 0x3F) as u8);
            assert((u >> 12) & 0x0F < 256 && (u >> 6) & 0x3F < 256 && u & 0x3F < 256)
                by (bit_vector);
            r.push(b0);
            r.push(b1);
            r.push(b2);
            proof {
                vstd::utf8::char_is_scalar(c);
                assert(vstd::utf8::has_width_3_encoding(u));
                assert(vstd::utf8::encode_scalar(u) =~= seq![b0, b1, b2]);
            }
        } else {
            let b0: u8 = 0xF0u8 | (((u >> 18) & 0x7) as u8);
            let b1: u8 = 0x80u8 | (((u >> 12) & 0x3F) as u8);
            let b2: u8 = 0x80u8 | (((u >> 6) & 0x3F) as u8);
            let b3: u8 = 0x80u8 | ((u & 0x3F) as u8);
            assert((u >> 18) & 0x7 < 256 && (u >> 12) & 0x3F < 256 && (u >> 6) & 0x3F < 256 && u
                & 0x3F < 256) by (bit_vector);
            r.push(b0);
            r.push(b1);
            r.push(b2);
            r.push(b3);
            proof {
                assert(vstd::utf8::encode_scalar(u) =~= seq![b0, b1, b2, b3]);
            }
        }
        i = i + 1;
    }
    r
}

} // verus!

verus! {

/// The parsed content of a word.
#[derive(Debug, PartialEq)]
pub enum WordContent {
    /// A whitespace- or separator-only word.
    Empty,
    /// A label declaration, `name:`.
    LabelDeclaration(Vec<char>),
    /// A label reference.  The declaration may still follow later in the
    /// program, so the tokenizer never rejects an unknown name here.
    Label(Vec<char>),
    /// A number literal; a character literal yields its code point.
    Number(i32),
    /// A valid opcode mnemonic.
    OpCode(OpCode),
    /// A valid register name.
    Register(Register),
    /// A string literal: UTF-8 bytes with a trailing NUL.
    Str(Vec<u8>),
}

/// The mathematical mirror of [`WordContent`].
pub ghost enum ContentV {
    Empty,
    LabelDeclaration(Seq<char>),
    Label(Seq<char>),
    Number(i32),
    OpCode(OpCode),
    Register(Register),
    Str(Seq<u8>),
}

impl View for WordContent {
    type V = ContentV;

    open spec fn view(&self) -> ContentV {
        match self {
            WordContent::Empty => ContentV::Empty,
            WordContent::LabelDeclaration(s) => ContentV::LabelDeclaration(s@),
            WordContent::Label(s) => ContentV::Label(s@),
            WordContent::Number(x) => ContentV::Number(*x),
            WordContent::OpCode(op) => ContentV::OpCode(*op),
            WordContent::Register(r) => ContentV::Register(*r),
            WordContent::Str(b) => ContentV::Str(b@),
        }
    }
}

/// The number denoted by a single-quoted literal: the unescaped text must be
/// exactly an opening quote, one character and a closing quote; the value is
/// the character's code point.
pub open spec fn spec_single_quote_number(t: Seq<char>) -> Result<i32, ErrorKindV> {
    if t.len() == 3 && t[2] == '\'' {
        Ok((t[1] as u32) as i32)
    } else {
        Err(ErrorKindV::InvalidSingleQuote(t))
    }
}

/// The parsed content computed from a word's raw characters, as described by
/// [`spec_trim`] followed by classification under the word's kind.
pub open spec fn spec_word_content(kind: WordKind, s: Seq<char>, has_sep: bool) -> Result<
    ContentV,
    ErrorKindV,
> {
    match spec_trim(kind, s, has_sep) {
        Err(e) => Err(e),
        Ok(t) => if t.len() == 0 {
            Ok(ContentV::Empty)
        } else {
            match kind {
                WordKind::Unknown => if spec_register_of(t) is Some {
                    Ok(ContentV::Register(spec_register_of(t)->Some_0))
                } else if spec_op_of(t) is Some {
                    Ok(ContentV::OpCode(spec_op_of(t)->Some_0))
                } else if crate::errors::spec_valid_label_name(t) {
                    Ok(ContentV::Label(t))
                } else {
                    Err(ErrorKindV::InvalidWord(t))
                },
                WordKind::LabelDeclaration => if crate::errors::spec_valid_label_name(t) {
                    Ok(ContentV::LabelDeclaration(t))
                } else {
                    Err(ErrorKindV::InvalidLabelName(t))
                },
                WordKind::Number => match spec_parse_number(t) {
                    Some(x) => Ok(ContentV::Number(x)),
                    None => Err(ErrorKindV::InvalidNumber(t)),
                },
                WordKind::DoubleQuote => {
                    let inner = if t.len() >= 2 {
                        t.subrange(1, t.len() - 1)
                    } else {
                        Seq::empty()
                    };
                    Ok(ContentV::Str(vstd::utf8::encode_utf8(inner) + seq![0u8]))
                },
                WordKind::SingleQuote => match spec_single_quote_number(t) {
                    Ok(x) => Ok(ContentV::Number(x)),
                    Err(e) => Err(e),
                },
            }
        },
    }
}

/// Strips the seed character and the trailing separator from a word's raw
/// characters; for quoted words the escapes are evaluated instead and the
/// quote pair is kept for the classifier to inspect.
#[verifier::loop_isolation(false)]
pub fn trim_sep(kind: WordKind, s: &Vec<char>, has_sep: bool) -> (r: Result<
    Vec<char>,
    SyntaxErrorKind,
>)
    ensures
        match r {
            Ok(t) => spec_trim(kind, s@, has_sep) == Result::<Seq<char>, ErrorKindV>::Ok(t@),
            Err(e) => spec_trim(kind, s@, has_sep) == Result::<Seq<char>, ErrorKindV>::Err(e@),
        },
{
    if kind.is_quote() {
        let mut res: Vec<char> = Vec::new();
        let mut i: usize = 0;
        proof {
            assert(s@.skip(0) =~= s@);
        }
        while i < s.len()
            invariant
                0 <= i <= s@.len(),
                unescape_decompose(res@, spec_unescape(s@.skip(i as int))) == spec_unescape(s@),
            decreases s@.len() - i,
        {
            let c = s[i];
            proof {
                assert(s@.skip(i as int)[0] == s@[i as int]);
                if i + 1 < s@.len() {
                    assert(s@.skip(i as int)[1] == s@[i + 1]);
                }
            }
            if c == '\\' {
                if i + 1 == s.len() {
                    return Err(SyntaxErrorKind::InvalidBackSlash('\0'));
                }
                let c2 = s[i + 1];
                match get_backslash_char(c2) {
                    Ok(e) => {
                        proof {
                            assert(s@.skip(i as int).skip(2) =~= s@.skip(i + 2));
                            if spec_unescape(s@.skip(i + 2)) is Ok {
                                let t = spec_unescape(s@.skip(i + 2))->Ok_0;
                                assert(res@.push(e) + t =~= res@ + (seq![e] + t));
                            }
                        }
                        res.push(e);
                    },
                    Err(err) => {
                        return Err(err);
                    },
                }
                i = i + 2;
            } else {
                proof {
                    assert(s@.skip(i as int).skip(1) =~= s@.skip(i + 1));
                    if spec_unescape(s@.skip(i + 1)) is Ok {
                        let t = spec_unescape(s@.skip(i + 1))->Ok_0;
                        assert(res@.push(c) + t =~= res@ + (seq![c] + t));
                    }
                }
                res.push(c);
                i = i + 1;
            }
        }
        proof {
            assert(s@.skip(i as int) =~= Seq::<char>::empty());
            assert(res@ + Seq::<char>::empty() =~= res@);
        }
        Ok(res)
    } else {
        let end = if !has_sep {
            s.len()
        } else if s.len() == 0 {
            0
        } else {
            s.len() - 1
        };
        if end <= 1 {
            Ok(Vec::new())
        } else {
            let mut res: Vec<char> = Vec::new();
            let mut i: usize = 1;
            while i < end
                invariant
                    1 <= i <= end <= s@.len(),
                    res@ == s@.subrange(1, i as int),
                decreases end - i,
            {
                proof {
                    assert(s@.subrange(1, i + 1) =~= s@.subrange(1, i as int).push(s@[i as int]));
                }
                res.push(s[i]);
                i = i + 1;
            }
            Ok(res)
        }
    }
}

/// Prefixes `p` to the payload of a successful unescape outcome.
pub open spec fn unescape_decompose(p: Seq<char>, r: Result<Seq<char>, ErrorKindV>) -> Result<
    Seq<char>,
    ErrorKindV,
> {
    match r {
        Ok(t) => Ok(p + t),
        Err(e) => Err(e),
    }
}

impl WordContent {
    /// Casts the unescaped text of a single-quoted literal to the code point
    /// of the single character it must contain.
    fn extract_number_from_single_quote(quotes: &Vec<char>) -> (r: Result<i32, SyntaxErrorKind>)
        ensures
            match r {
                Ok(x) => spec_single_quote_number(quotes@) == Result::<i32, ErrorKindV>::Ok(x),
                Err(e) => spec_single_quote_number(quotes@) == Result::<i32, ErrorKindV>::Err(e@),
            },
    {
        if quotes.len() == 3 && quotes[2] == '\'' {
            let c = quotes[1];
            proof {
                vstd::utf8::char_is_scalar(c);
            }
            Ok((c as u32) as i32)
        } else {
            Err(SyntaxErrorKind::InvalidSingleQuote(copy_chars(quotes)))
        }
    }

    /// Computes the parsed content of a word from its raw characters.
    pub fn new(kind: WordKind, pure_content: &Vec<char>, has_sep: bool) -> (r: Result<
        WordContent,
        SyntaxErrorKind,
    >)
        ensures
            match r {
                Ok(c) => spec_word_content(kind, pure_content@, has_sep) == Result::<
                    ContentV,
                    ErrorKindV,
                >::Ok(c@),
                Err(e) => spec_word_content(kind, pure_content@, has_sep) == Result::<
                    ContentV,
                    ErrorKindV,
                >::Err(e@),
            },
    {
        let t = match trim_sep(kind, pure_content, has_sep) {
            Ok(t) => t,
            Err(e) => {
                return Err(e);
            },
        };
        if t.len() == 0 {
            return Ok(WordContent::Empty);
        }
        match kind {
            WordKind::Unknown => {
                if let Some(reg) = Register::from_name(&t) {
                    Ok(WordContent::Register(reg))
                } else if let Some(op) = OpCode::from_mnemonic(&t) {
                    Ok(WordContent::OpCode(op))
                } else if crate::errors::is_valid_label_name(&t) {
                    Ok(WordContent::Label(t))
                } else {
                    Err(SyntaxErrorKind::InvalidWord(t))
                }
            },
            WordKind::LabelDeclaration => {
                if crate::errors::is_valid_label_name(&t) {
                    Ok(WordContent::LabelDeclaration(t))
                } else {
                    Err(SyntaxErrorKind::InvalidLabelName(t))
                }
            },
            WordKind::Number => {
                match parse_number(&t) {
                    Ok(x) => Ok(WordContent::Number(x)),
                    Err(e) => Err(e),
                }
            },
            WordKind::DoubleQuote => {
                let mut b = if t.len() >= 2 {
                    utf8_encode(&t, 1, t.len() - 1)
                } else {
                    proof {
                        assert(vstd::utf8::encode_utf8(Seq::<char>::empty()) =~= Seq::<
                            u8,
                        >::empty());
                    }
                    Vec::new()
                };
                proof {
                    let inner = if t@.len() >= 2 {
                        t@.subrange(1, t@.len() - 1)
                    } else {
                        Seq::<char>::empty()
                    };
                    assert(b@.push(0u8) =~= vstd::utf8::encode_utf8(inner) + seq![0u8]);
                }
                b.push(0u8);
                Ok(WordContent::Str(b))
            },
            WordKind::SingleQuote => {
                match Self::extract_number_from_single_quote(&t) {
                    Ok(x) => Ok(WordContent::Number(x)),
                    Err(e) => Err(e),
                }
            },
        }
    }
}

} // verus!

verus! {

/// A single word of a line.
#[derive(Debug)]
pub struct Word {
    /// The raw characters of the word: the seed character, the body, and the
    /// terminating separator character when one was read.
    pub pure_content: Vec<char>,
    /// The parsed content; for example the raw word ` 5,` is represented as
    /// `Number(5)`.
    pub content: WordContent,
    /// The reason the word ended.
    pub sep: WordSeparator,
}

/// The mathematical mirror of [`Word`].
pub ghost struct WordV {
    pub pure: Seq<char>,
    pub content: ContentV,
    pub sep: WordSeparator,
}

impl View for Word {
    type V = WordV;

    open spec fn view(&self) -> WordV {
        WordV { pure: self.pure_content@, content: self.content@, sep: self.sep }
    }
}

impl Word {
    /// Builds a word from its parts.
    pub fn new(content: WordContent, pure_content: Vec<char>, sep: WordSeparator) -> (r: Word)
        ensures
            r@ == (WordV { pure: pure_content@, content: content@, sep }),
    {
        Word { pure_content, content, sep }
    }

    /// The opcode this word names, if it is an opcode word.
    pub fn get_op_code(&self) -> (r: Option<OpCode>)
        ensures
            match self@.content {
                ContentV::OpCode(op) => r == Some(op),
                _ => r is None,
            },
    {
        match &self.content {
            WordContent::OpCode(opcode) => Some(*opcode),
            _ => None,
        }
    }

    /// The string bytes this word carries, if it is a string word.
    pub fn get_str(&self) -> (r: Option<&Vec<u8>>)
        ensures
            match self@.content {
                ContentV::Str(b) => r matches Some(v) && v@ == b,
                _ => r is None,
            },
    {
        match &self.content {
            WordContent::Str(s) => Some(s),
            _ => None,
        }
    }

    /// The register this word names, if it is a register word.
    pub fn get_reg(&self) -> (r: Option<Register>)
        ensures
            match self@.content {
                ContentV::Register(reg) => r == Some(reg),
                _ => r is None,
            },
    {
        match &self.content {
            WordContent::Register(reg) => Some(*reg),
            _ => None,
        }
    }

    /// True for a whitespace-only word.
    pub fn is_empty_word(&self) -> (r: bool)
        ensures
            r == (self@.content is Empty),
    {
        match self.content {
            WordContent::Empty => true,
            _ => false,
        }
    }

    /// True for a label declaration.
    pub fn is_label_decl(&self) -> (r: bool)
        ensures
            r == (self@.content is LabelDeclaration),
    {
        match self.content {
            WordContent::LabelDeclaration(_) => true,
            _ => false,
        }
    }

    /// True for a register word.
    pub fn is_reg(&self) -> (r: bool)
        ensures
            r == (self@.content is Register),
    {
        match self.content {
            WordContent::Register(_) => true,
            _ => false,
        }
    }

    /// True for a register or an immediate: a number or a label reference.
    pub fn is_reg_or_imm(&self) -> (r: bool)
        ensures
            r == (self@.content is Register || self@.content is Number || self@.content is Label),
    {
        match self.content {
            WordContent::Number(_) | WordContent::Label(_) | WordContent::Register(_) => true,
            _ => false,
        }
    }

    /// True for a string word.
    pub fn is_str(&self) -> (r: bool)
        ensures
            r == (self@.content is Str),
    {
        match self.content {
            WordContent::Str(_) => true,
            _ => false,
        }
    }
}

/// What the tokenizer asks of the driver after one character of intake.
#[derive(Debug)]
pub enum WordRequest {
    /// Push the word onto the current line.
    PushWord(Word),
    /// Push the word and end the current line.
    PushLine(Word),
    /// Keep feeding characters.
    Continue,
}

/// The mathematical mirror of [`WordRequest`].
pub ghost enum StepV {
    PushWord(WordV),
    PushLine(WordV),
    Continue,
}

impl View for WordRequest {
    type V = StepV;

    open spec fn view(&self) -> StepV {
        match self {
            WordRequest::PushWord(w) => StepV::PushWord(w@),
            WordRequest::PushLine(w) => StepV::PushLine(w@),
            WordRequest::Continue => StepV::Continue,
        }
    }
}

/// The tokenizer state: the raw characters gathered so far, the guessed
/// kind, and whether a line comment is being skipped.
pub struct WordBuilder {
    pure_content: Vec<char>,
    kind: WordKind,
    in_comment: bool,
}

/// The mathematical mirror of [`WordBuilder`].
pub ghost struct BuilderV {
    pub pure: Seq<char>,
    pub kind: WordKind,
    pub in_comment: bool,
}

impl View for WordBuilder {
    type V = BuilderV;

    closed spec fn view(&self) -> BuilderV {
        BuilderV { pure: self.pure_content@, kind: self.kind, in_comment: self.in_comment }
    }
}

/// The initial tokenizer state: a NUL seed of unknown kind.
pub open spec fn spec_builder_new() -> BuilderV {
    BuilderV { pure: seq!['\0'], kind: WordKind::Unknown, in_comment: false }
}

/// Re-seeds the builder with the character that ended the previous word.
/// After a quote the seed is the closing quote and the kind resets to
/// unknown; otherwise the kind is guessed from the seed.
pub open spec fn spec_init(b: BuilderV, c: char) -> Result<BuilderV, ErrorKindV> {
    if b.kind is DoubleQuote || b.kind is SingleQuote {
        Ok(BuilderV { pure: seq![c], kind: WordKind::Unknown, in_comment: b.in_comment })
    } else {
        match spec_kind_of_first(c) {
            Ok(k) => Ok(BuilderV { pure: seq![c], kind: k, in_comment: b.in_comment }),
            Err(e) => Err(e),
        }
    }
}

/// Extracts the finished word from the builder state and re-seeds with the
/// separator character.
pub open spec fn spec_extract(b: BuilderV, sep: WordSeparator, last_char: char) -> Result<
    (WordV, BuilderV),
    ErrorKindV,
> {
    match spec_word_content(b.kind, b.pure, true) {
        Err(e) => Err(e),
        Ok(c) => match spec_init(b, last_char) {
            Err(e) => Err(e),
            Ok(b2) => Ok((WordV { pure: b.pure, content: c, sep }, b2)),
        },
    }
}

/// The final word extracted when the input ends: an unterminated quote is an
/// error, and the absent separator means only the seed character is stripped.
pub open spec fn spec_eof_word(b: BuilderV) -> Result<WordV, ErrorKindV> {
    if b.kind is DoubleQuote {
        Err(ErrorKindV::DoubleQuoteNeverEnded)
    } else if b.kind is SingleQuote {
        Err(ErrorKindV::SingleQuoteNeverEnded)
    } else {
        match spec_word_content(b.kind, b.pure, false) {
            Err(e) => Err(e),
            Ok(c) => Ok(WordV { pure: b.pure, content: c, sep: WordSeparator::EndOfLine }),
        }
    }
}

/// True when the last gathered character is an unescaped backslash.
pub open spec fn spec_prev_backslash(pure: Seq<char>) -> bool {
    pure.len() != 0 && pure.last() == '\\' && (pure.len() == 1 || pure[pure.len() - 2] != '\\')
}

/// Appends a character and applies the two kind transitions: a colon turns
/// an unknown word into a label declaration, and a digit in the first body
/// position turns it into a number.
pub open spec fn spec_push_char(b: BuilderV, c: char) -> BuilderV {
    let kind1 = if c == ':' && b.kind is Unknown {
        WordKind::LabelDeclaration
    } else {
        b.kind
    };
    let pure1 = b.pure.push(c);
    let kind2 = if kind1 is Unknown && pure1.len() == 2 && spec_is_digit(c) {
        WordKind::Number
    } else {
        kind1
    };
    BuilderV { pure: pure1, kind: kind2, in_comment: b.in_comment }
}

/// Ends the word if the separator is permitted for the current kind; a
/// newline also ends the line.
pub open spec fn spec_request(b: BuilderV, c: char, sep: WordSeparator) -> Result<
    (BuilderV, StepV),
    ErrorKindV,
> {
    if spec_kind_allows(b.kind, sep) {
        match spec_extract(b, sep, c) {
            Err(e) => Err(e),
            Ok((w, b2)) => Ok(
                (
                    b2,
                    if sep is EndOfLine {
                        StepV::PushLine(w)
                    } else {
                        StepV::PushWord(w)
                    },
                ),
            ),
        }
    } else {
        Ok((b, StepV::Continue))
    }
}

/// One character of intake outside comment handling: escape look-behind
/// inside quotes, then the push/classify/extract cycle.
pub open spec fn spec_step_core(b: BuilderV, c: char) -> Result<(BuilderV, StepV), ErrorKindV> {
    if (b.kind is DoubleQuote || b.kind is SingleQuote) && spec_prev_backslash(b.pure) {
        match spec_backslash_char(c) {
            Some(_) => Ok(
                (
                    BuilderV { pure: b.pure.push(c), kind: b.kind, in_comment: b.in_comment },
                    StepV::Continue,
                ),
            ),
            None => Err(ErrorKindV::InvalidBackSlash(c)),
        }
    } else {
        spec_request(spec_push_char(b, c), c, spec_separator_of(c))
    }
}

/// One character of intake.  A semicolon outside a quote starts a comment;
/// while a comment runs every character up to the newline is discarded, and
/// the newline itself is processed normally so the line still ends.
pub open spec fn spec_step(b: BuilderV, c: char) -> Result<(BuilderV, StepV), ErrorKindV> {
    if b.in_comment {
        if c == '\n' {
            spec_step_core(BuilderV { pure: b.pure, kind: b.kind, in_comment: false }, c)
        } else {
            Ok((b, StepV::Continue))
        }
    } else if c == ';' && !(b.kind is DoubleQuote || b.kind is SingleQuote) {
        Ok((BuilderV { pure: b.pure, kind: b.kind, in_comment: true }, StepV::Continue))
    } else {
        spec_step_core(b, c)
    }
}

impl WordBuilder {
    /// A fresh builder.
    pub fn new() -> (r: Result<WordBuilder, SyntaxErrorKind>)
        ensures
            r matches Ok(b) && b@ == spec_builder_new(),
    {
        let mut pure_content: Vec<char> = Vec::new();
        pure_content.push('\0');
        proof {
            assert(pure_content@ =~= seq!['\0']);
        }
        Ok(WordBuilder { pure_content, kind: WordKind::Unknown, in_comment: false })
    }

    /// Restarts the builder on the character that ended the previous word.
    fn init(&mut self, first_char: char) -> (r: Result<(), SyntaxErrorKind>)
        ensures
            match spec_init(old(self)@, first_char) {
                Ok(b2) => r is Ok && final(self)@ == b2,
                Err(e) => r matches Err(ee) && ee@ == e,
            },
    {
        let mut p: Vec<char> = Vec::new();
        p.push(first_char);
        proof {
            assert(p@ =~= seq![first_char]);
        }
        self.pure_content = p;
        if self.kind.is_quote() {
            self.kind = WordKind::Unknown;
        } else {
            match kind_of_first_char(first_char) {
                Ok(k) => {
                    self.kind = k;
                },
                Err(e) => {
                    return Err(e);
                },
            }
        }
        Ok(())
    }

    /// Flushes the final word at the end of the input.
    pub fn end_of_file(&mut self) -> (r: Result<Word, SyntaxErrorKind>)
        ensures
            match spec_eof_word(old(self)@) {
                Ok(w) => r matches Ok(word) && word@ == w,
                Err(e) => r matches Err(ee) && ee@ == e,
            },
    {
        match self.kind.check_valid_ending_word() {
            Ok(u) => u,
            Err(e) => {
                return Err(e);
            },
        };
        let content = match WordContent::new(self.kind, &self.pure_content, false) {
            Ok(c) => c,
            Err(e) => {
                return Err(e);
            },
        };
        let pure = copy_chars(&self.pure_content);
        let word = Word::new(content, pure, WordSeparator::EndOfLine);
        match self.init('\0') {
            Ok(u) => u,
            Err(e) => {
                return Err(e);
            },
        };
        Ok(word)
    }

    /// Extracts the built word and re-seeds the builder with the separator
    /// character, which becomes the first character of the next word.
    pub fn extract(&mut self, sep: WordSeparator, last_char: char) -> (r: Result<
        Word,
        SyntaxErrorKind,
    >)
        ensures
            match spec_extract(old(self)@, sep, last_char) {
                Ok((w, b2)) => r matches Ok(word) && word@ == w && final(self)@ == b2,
                Err(e) => r matches Err(ee) && ee@ == e,
            },
    {
        let content = match WordContent::new(self.kind, &self.pure_content, true) {
            Ok(c) => c,
            Err(e) => {
                return Err(e);
            },
        };
        let pure = copy_chars(&self.pure_content);
        let word = Word::new(content, pure, sep);
        match self.init(last_char) {
            Ok(u) => u,
            Err(e) => {
                return Err(e);
            },
        };
        Ok(word)
    }

    /// Ends the word on a permitted separator; a newline also ends the line.
    fn get_request_from_sep(&mut self, c: char, sep: WordSeparator) -> (r: Result<
        WordRequest,
        SyntaxErrorKind,
    >)
        ensures
            match spec_request(old(self)@, c, sep) {
                Ok((b2, st)) => r matches Ok(req) && req@ == st && final(self)@ == b2,
                Err(e) => r matches Err(ee) && ee@ == e,
            },
    {
        if self.kind.allows_separator(sep) {
            let word = match self.extract(sep, c) {
                Ok(w) => w,
                Err(e) => {
                    return Err(e);
                },
            };
            if sep == WordSeparator::EndOfLine {
                Ok(WordRequest::PushLine(word))
            } else {
                Ok(WordRequest::PushWord(word))
            }
        } else {
            Ok(WordRequest::Continue)
        }
    }

    /// True when the last gathered character is an unescaped backslash.
    fn previous_was_backslash(&self) -> (r: bool)
        ensures
            r == spec_prev_backslash(self@.pure),
    {
        let n = self.pure_content.len();
        n != 0 && self.pure_content[n - 1] == '\\' && (n == 1 || self.pure_content[n - 2] != '\\')
    }

    /// Validates and appends the character of an escape sequence inside a
    /// quote.
    fn add_backslash_char_in_quote_context(&mut self, c: char) -> (r: Result<(), SyntaxErrorKind>)
        ensures
            match spec_backslash_char(c) {
                Some(_) => r is Ok && final(self)@ == (BuilderV {
                    pure: old(self)@.pure.push(c),
                    kind: old(self)@.kind,
                    in_comment: old(self)@.in_comment,
                }),
                None => r matches Err(e) && e@ == ErrorKindV::InvalidBackSlash(c) && final(self)@
                    == old(self)@,
            },
    {
        match get_backslash_char(c) {
            Ok(u) => u,
            Err(e) => {
                return Err(e);
            },
        };
        self.pure_content.push(c);
        Ok(())
    }

    /// Appends a character and applies the kind transitions.
    fn push_char(&mut self, c: char)
        ensures
            final(self)@ == spec_push_char(old(self)@, c),
    {
        self.pure_content.push(c);
        if c == ':' && self.kind == WordKind::Unknown {
            self.kind = WordKind::LabelDeclaration;
        }
        if self.kind == WordKind::Unknown && self.pure_content.len() == 2 && is_digit(c) {
            self.kind = WordKind::Number;
        }
    }

    /// Feeds one character to the tokenizer.
    pub fn add_char(&mut self, c: char) -> (r: Result<WordRequest, SyntaxErrorKind>)
        ensures
            match spec_step(old(self)@, c) {
                Ok((b2, st)) => r matches Ok(req) && req@ == st && final(self)@ == b2,
                Err(e) => r matches Err(ee) && ee@ == e,
            },
    {
        if self.in_comment {
            if c != '\n' {
                return Ok(WordRequest::Continue);
            }
            self.in_comment = false;
        } else if c == ';' && !self.kind.is_quote() {
            self.in_comment = true;
            return Ok(WordRequest::Continue);
        }
        if self.kind.is_quote() && self.previous_was_backslash() {
            match self.add_backslash_char_in_quote_context(c) {
                Ok(u) => u,
                Err(e) => {
                    return Err(e);
                },
            };
            return Ok(WordRequest::Continue);
        }
        self.push_char(c);
        let sep = WordSeparator::get(c);
        self.get_request_from_sep(c, sep)
    }
}

} // verus!

verus! {

/// The views of a sequence of words.
pub open spec fn word_views(s: Seq<Word>) -> Seq<WordV> {
    s.map_values(|w: Word| w@)
}

} // verus!

verus! {

/// A copy of a byte vector.
pub fn copy_bytes(v: &Vec<u8>) -> (r: Vec<u8>)
    ensures
        r@ == v@,
{
    let mut r: Vec<u8> = Vec::new();
    let mut i: usize = 0;
    while i < v.len()
        invariant
            0 <= i <= v@.len(),
            r@ == v@.take(i as int),
        decreases v@.len() - i,
    {
        proof {
            assert(v@.take(i + 1) =~= v@.take(i as int).push(v@[i as int]));
        }
        r.push(v[i]);
        i = i + 1;
    }
    proof {
        assert(v@.take(i as int) =~= v@);
    }
    r
}

impl WordContent {
    /// A copy of this content.
    pub fn duplicate(&self) -> (r: WordContent)
        ensures
            r@ == self@,
    {
        match self {
            WordContent::Empty => WordContent::Empty,
            WordContent::LabelDeclaration(s) => WordContent::LabelDeclaration(copy_chars(s)),
            WordContent::Label(s) => WordContent::Label(copy_chars(s)),
            WordContent::Number(x) => WordContent::Number(*x),
            WordContent::OpCode(op) => WordContent::OpCode(*op),
            WordContent::Register(reg) => WordContent::Register(*reg),
            WordContent::Str(b) => WordContent::Str(copy_bytes(b)),
        }
    }
}

impl Word {
    /// A copy of this word.
    pub fn duplicate(&self) -> (r: Word)
        ensures
            r@ == self@,
    {
        Word {
            pure_content: copy_chars(&self.pure_content),
            content: self.content.duplicate(),
            sep: self.sep,
        }
    }
}

} // verus!

verus! {

/// Every string content the classifier produces carries at least one byte
/// and ends in NUL.
pub proof fn lemma_word_content_nul(kind: WordKind, s: Seq<char>, has_sep: bool)
    ensures
        spec_word_content(kind, s, has_sep) matches Ok(c) ==> (c matches ContentV::Str(b)
            ==> b.len() >= 1 && b[b.len() - 1] == 0),
{
    if spec_word_content(kind, s, has_sep) is Ok {
        let c = spec_word_content(kind, s, has_sep)->Ok_0;
        if c is Str {
            let b = c->Str_0;
            assert(b[b.len() - 1] == 0);
        }
    }
}

/// Every word the tokenizer hands out keeps the string invariant: string
/// contents end in NUL.
pub proof fn lemma_step_strs_nul(b: BuilderV, c: char)
    ensures
        spec_step(b, c) matches Ok((b2, st)) ==> match st {
            StepV::PushWord(w) => (w.content matches ContentV::Str(bb) ==> bb.len() >= 1
                && bb[bb.len() - 1] == 0),
            StepV::PushLine(w) => (w.content matches ContentV::Str(bb) ==> bb.len() >= 1
                && bb[bb.len() - 1] == 0),
            StepV::Continue => true,
        },
{
    let b0 = if b.in_comment {
        BuilderV { pure: b.pure, kind: b.kind, in_comment: false }
    } else {
        b
    };
    let b1 = spec_push_char(b0, c);
    lemma_word_content_nul(b1.kind, b1.pure, true);
}

/// The word flushed at the end of the input keeps the string invariant too.
pub proof fn lemma_eof_strs_nul(b: BuilderV)
    ensures
        spec_eof_word(b) matches Ok(w) ==> (w.content matches ContentV::Str(bb) ==> bb.len() >= 1
            && bb[bb.len() - 1] == 0),
{
    lemma_word_content_nul(b.kind, b.pure, false);
}

} // verus!
