use vstd::prelude::*;
use crate::position::{Range, RangeView};

verus! {

/// How severe a diagnostic is: a warning lets the stage go on, an error or a
/// critical one ends it.
#[derive(Clone, Copy, Debug, PartialEq, Eq, Structural)]
pub enum ExceptionLevel {
    Warning,
    Error,
    Critical,
}

/// A diagnostic kind with a printable name.
pub trait ExceptionType {
    spec fn name(&self) -> Seq<char>;

    fn get_name(&self) -> (r: String)
        ensures
            r@ == self.name(),
    ;
}

#[derive(Clone, Copy, Debug, PartialEq, Eq, Structural)]
pub enum LexerExceptionType {
    IllegalCharacter,
    MissingCharacter,
    InvalidEscape,
    /// An integer literal whose value does not fit in 64 bits.
    InvalidNumber,
}

impl ExceptionType for LexerExceptionType {
    open spec fn name(&self) -> Seq<char> {
        match self {
            LexerExceptionType::IllegalCharacter => "IllegalCharacter"@,
            LexerExceptionType::MissingCharacter => "MissingCharacter"@,
            LexerExceptionType::InvalidEscape => "InvalidEscape"@,
            LexerExceptionType::InvalidNumber => "InvalidNumber"@,
        }
    }

    fn get_name(&self) -> (r: String) {
        match self {
            LexerExceptionType::IllegalCharacter => String::from_str("IllegalCharacter"),
            LexerExceptionType::MissingCharacter => String::from_str("MissingCharacter"),
            LexerExceptionType::InvalidEscape => String::from_str("InvalidEscape"),
            LexerExceptionType::InvalidNumber => String::from_str("InvalidNumber"),
        }
    }
}

#[derive(Clone, Copy, Debug, PartialEq, Eq, Structural)]
pub enum ParserExceptionType {
    MissingToken,
    InvalidHeader,
    InvalidMutability,
}

impl ExceptionType for ParserExceptionType {
    open spec fn name(&self) -> Seq<char> {
        match self {
            ParserExceptionType::MissingToken => "MissingToken"@,
            ParserExceptionType::InvalidHeader => "InvalidHeader"@,
            ParserExceptionType::InvalidMutability => "InvalidMutability"@,
        }
    }

    fn get_name(&self) -> (r: String) {
        match self {
            ParserExceptionType::MissingToken => String::from_str("MissingToken"),
            ParserExceptionType::InvalidHeader => String::from_str("InvalidHeader"),
            ParserExceptionType::InvalidMutability => String::from_str("InvalidMutability"),
        }
    }
}

#[derive(Clone, Copy, Debug, PartialEq, Eq, Structural)]
pub enum CommandLineExceptionType {
    FileFailedToRead,
    /// An argument that is malformed or in the wrong place.
    Argument,
    /// A feature that is planned but not there yet.
    FutureFeature,
}

impl ExceptionType for CommandLineExceptionType {
    open spec fn name(&self) -> Seq<char> {
        match self {
            CommandLineExceptionType::FileFailedToRead => "FileFailedToRead"@,
            CommandLineExceptionType::Argument => "Argument"@,
            CommandLineExceptionType::FutureFeature => "FutureFeature"@,
        }
    }

    fn get_name(&self) -> (r: String) {
        match self {
            CommandLineExceptionType::FileFailedToRead => String::from_str("FileFailedToRead"),
            CommandLineExceptionType::Argument => String::from_str("Argument"),
            CommandLineExceptionType::FutureFeature => String::from_str("FutureFeature"),
        }
    }
}

/// A diagnostic raised by a stage, as a value: kind, message, the source text
/// it quotes, and the span it marks.
pub struct StageExceptionView<K> {
    pub kind: K,
    pub message: Seq<char>,
    pub script: Seq<char>,
    pub range: RangeView,
}

/// A diagnostic of the tokenizer.
#[derive(Debug, PartialEq)]
pub struct LexerException {
    pub exception_type: LexerExceptionType,
    pub message: String,
    pub script: String,
    pub range: Range,
}

impl View for LexerException {
    type V = StageExceptionView<LexerExceptionType>;

    open spec fn view(&self) -> Self::V {
        StageExceptionView {
            kind: self.exception_type,
            message: self.message@,
            script: self.script@,
            range: self.range@,
        }
    }
}

impl LexerException {
    pub fn new(exception_type: LexerExceptionType, message: String, script: String, range: Range) -> (r:
        LexerException)
        ensures
            r@ == (StageExceptionView {
                kind: exception_type,
                message: message@,
                script: script@,
                range: range@,
            }),
    {
        LexerException { exception_type, message, script, range }
    }
}

/// A diagnostic of the parser.
#[derive(Debug, PartialEq)]
pub struct ParserException {
    pub exception_type: ParserExceptionType,
    pub message: String,
    pub script: String,
    pub range: Range,
}

impl View for ParserException {
    type V = StageExceptionView<ParserExceptionType>;

    open spec fn view(&self) -> Self::V {
        StageExceptionView {
            kind: self.exception_type,
            message: self.message@,
            script: self.script@,
            range: self.range@,
        }
    }
}

impl ParserException {
    pub fn new(exception_type: ParserExceptionType, message: String, script: String, range: Range) -> (r:
        ParserException)
        ensures
            r@ == (StageExceptionView {
                kind: exception_type,
                message: message@,
                script: script@,
                range: range@,
            }),
    {
        ParserException { exception_type, message, script, range }
    }
}

/// A violated invariant of the front end itself; it has no location.
#[derive(Debug)]
pub struct InternalException {
    pub message: String,
}

impl InternalException {
    pub fn new(message: String) -> (r: InternalException)
        ensures
            r.message@ == message@,
    {
        InternalException { message }
    }
}

/// A bad invocation: the arguments, and which of them is at fault.
#[derive(Debug)]
pub struct CommandLineException {
    pub exception_type: CommandLineExceptionType,
    pub message: String,
    pub arguments: Vec<String>,
    pub index: usize,
}

impl CommandLineException {
    pub fn new(
        exception_type: CommandLineExceptionType,
        message: String,
        arguments: Vec<String>,
        index: usize,
    ) -> (r: CommandLineException)
        ensures
            r.exception_type == exception_type,
            r.message@ == message@,
            r.arguments@ == arguments@,
            r.index == index,
    {
        CommandLineException { exception_type, message, arguments, index }
    }
}

/// Number of spaces and tabs at the start of `s`.
pub open spec fn leading_blanks(s: Seq<char>) -> nat
    decreases s.len(),
{
    if s.len() > 0 && (s[0] == ' ' || s[0] == '\t') {
        1 + leading_blanks(s.subrange(1, s.len() as int))
    } else {
        0
    }
}

/// The number of spaces and tabs that open `text`.
pub fn get_leading_erase_count(text: String) -> (r: usize)
    ensures
        r == leading_blanks(text@),
{
    let chars = crate::text::chars_of(text.as_str());
    let mut count: usize = 0;
    assert(text@.subrange(0, text@.len() as int) =~= text@);
    while count < chars.len() && (chars[count] == ' ' || chars[count] == '\t')
        invariant
            count <= chars.len(),
            chars@ == text@,
            leading_blanks(text@) == count + leading_blanks(
                text@.subrange(count as int, text@.len() as int),
            ),
        decreases chars.len() - count,
    {
        let ghost rest = text@.subrange(count as int, text@.len() as int);
        assert(rest.subrange(1, rest.len() as int) =~= text@.subrange(
            count + 1,
            text@.len() as int,
        ));
        count = count + 1;
    }
    count
}

} // verus!
