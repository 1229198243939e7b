//! What the token lexers share: positions, the cursor over the source
//! text, and the errors that lexing gives.

use vstd::prelude::*;
use vstd::string::StrSliceExecFns;

pub mod number;

verus! {

/// A place in the source text: a line and a column, both counted from 1.
#[derive(Debug, Clone, Copy, PartialEq, Eq, Structural)]
pub struct Position {
    pub line_number: u32,
    pub column_number: u32,
}

impl Position {
    /// The place at the given line and column.
    pub fn new(line_number: u32, column_number: u32) -> (position: Self)
        ensures
            position == (Position { line_number, column_number }),
    {
        Position { line_number, column_number }
    }
}

/// A stretch of the source text: where it starts and where it ends.
#[derive(Debug, Clone, Copy, PartialEq, Eq, Structural)]
pub struct Span {
    pub start: Position,
    pub end: Position,
}

impl Span {
    /// The stretch from `start` to `end`.
    pub fn new(start: Position, end: Position) -> (span: Self)
        ensures
            span == (Span { start, end }),
    {
        Span { start, end }
    }
}

/// Why a number literal is not one.
#[derive(Debug, Clone, Copy, PartialEq, Eq, Structural)]
pub enum Error {
    /// A `0` is followed by an octal digit in strict mode.
    ImplicitOctal,
    /// A `0` is followed by a decimal digit in strict mode.
    LeadingZero,
    /// The sign of an exponent, which is given, is followed by no digit.
    NoDigitAfterSign(char),
    /// An exponent starts with the given character, which is neither a
    /// sign nor a digit.
    UnexpectedExponentChar(char),
    /// The text ends where an exponent has to start.
    AbruptEnd,
    /// The literal is followed by a letter, a digit, `$` or `_`.
    InvalidAfterLiteral,
}

/// The characters of a text.
pub fn chars_of(text: &str) -> (chars: Vec<char>)
    ensures
        chars@ == text@,
{
    let len = text.unicode_len();
    let mut chars: Vec<char> = Vec::new();
    let mut i: usize = 0;
    while i < len
        invariant
            i <= len,
            len == text@.len(),
            chars@ == text@.subrange(0, i as int),
        decreases len - i,
    {
        chars.push(text.get_char(i));
        assert(chars@ =~= text@.subrange(0, i + 1));
        i += 1;
    }
    assert(text@.subrange(0, len as int) =~= text@);
    chars
}

impl Error {
    /// The message of the error.
    pub fn message(&self) -> (message: Vec<char>)
        ensures
            message@ == match *self {
                Error::ImplicitOctal => "Implicit octal literals are not allowed in strict mode."@,
                Error::LeadingZero => "Leading 0's are not allowed in strict mode."@,
                Error::NoDigitAfterSign(sign) => "No digit found after "@.push(sign) + " symbol"@,
                Error::UnexpectedExponentChar(c) => "When lexing exponential value found unexpected char: '"@.push(
                    c,
                ).push('\''),
                Error::AbruptEnd => "Abrupt end: No exponential value found"@,
                Error::InvalidAfterLiteral => "NumericLiteral token must not be followed by IdentifierStart nor DecimalDigit characters"@,
            },
    {
        match self {
            Error::ImplicitOctal => chars_of(
                "Implicit octal literals are not allowed in strict mode.",
            ),
            Error::LeadingZero => chars_of("Leading 0's are not allowed in strict mode."),
            Error::NoDigitAfterSign(sign) => {
                let mut message = chars_of("No digit found after ");
                message.push(*sign);
                let mut tail = chars_of(" symbol");
                message.append(&mut tail);
                message
            },
            Error::UnexpectedExponentChar(c) => {
                let mut message = chars_of(
                    "When lexing exponential value found unexpected char: '",
                );
                message.push(*c);
                message.push('\'');
                message
            },
            Error::AbruptEnd => chars_of("Abrupt end: No exponential value found"),
            Error::InvalidAfterLiteral => chars_of(
                "NumericLiteral token must not be followed by IdentifierStart nor DecimalDigit characters",
            ),
        }
    }
}

/// The place that a cursor has after it has passed the characters before
/// place `at` of the text: each line break starts a line, and every other
/// character is one column.
pub open spec fn position_after(input: Seq<char>, at: int) -> (int, int)
    decreases at,
{
    if at <= 0 || at > input.len() {
        (1, 1)
    } else {
        let (line, column) = position_after(input, at - 1);
        if input[at - 1] == '\n' {
            (line + 1, 1)
        } else {
            (line, column + 1)
        }
    }
}

/// A place never lies further on, in lines or in columns, than characters
/// were passed.
pub proof fn lemma_position_bounds(input: Seq<char>, at: int)
    requires
        0 <= at <= input.len(),
    ensures
        1 <= position_after(input, at).0 <= at + 1,
        1 <= position_after(input, at).1 <= at + 1,
    decreases at,
{
    if at > 0 {
        lemma_position_bounds(input, at - 1);
    }
}

/// A cursor over the characters of the source text.
#[derive(Debug)]
pub struct Cursor<'a> {
    input: &'a [char],
    index: usize,
    pos: Position,
}

/// What a cursor is to a contract: the text and how many of its characters
/// the cursor has passed.
pub struct CursorView {
    pub input: Seq<char>,
    pub index: int,
}

impl<'a> View for Cursor<'a> {
    type V = CursorView;

    closed spec fn view(&self) -> CursorView {
        CursorView { input: self.input@, index: self.index as int }
    }
}

impl<'a> Cursor<'a> {
    /// Whether the cursor is valid: it has not passed the end of the text,
    /// and its place is the one that belongs to what it has passed.
    pub closed spec fn wf(&self) -> bool {
        &&& self.index <= self.input@.len()
        &&& self.input@.len() < u32::MAX
        &&& self.pos.line_number == position_after(self.input@, self.index as int).0
        &&& self.pos.column_number == position_after(self.input@, self.index as int).1
    }

    /// The place of the cursor, as a contract sees it.
    pub closed spec fn spec_pos(&self) -> Position {
        self.pos
    }

    /// A valid cursor stands within the text, at the place that belongs to
    /// what it has passed.
    pub proof fn lemma_wf(&self)
        requires
            self.wf(),
        ensures
            0 <= self@.index <= self@.input.len(),
            self@.input.len() < u32::MAX,
            self.spec_pos().line_number == position_after(self@.input, self@.index).0,
            self.spec_pos().column_number == position_after(self@.input, self@.index).1,
    {
    }

    /// A cursor at the start of the text.
    pub fn new(input: &'a [char]) -> (cursor: Self)
        requires
            input@.len() < u32::MAX,
        ensures
            cursor.wf(),
            cursor@ == (CursorView { input: input@, index: 0 }),
    {
        Cursor { input, index: 0, pos: Position { line_number: 1, column_number: 1 } }
    }

    /// The place of the cursor.
    pub fn pos(&self) -> (pos: Position)
        ensures
            pos == self.spec_pos(),
    {
        self.pos
    }

    /// The number of characters that the cursor has passed.
    pub fn index(&self) -> (index: usize)
        ensures
            index == self@.index,
    {
        self.index
    }

    /// The next character, which stays where it is.
    pub fn peek(&self) -> (next: Option<char>)
        requires
            self.wf(),
        ensures
            next == if self@.index < self@.input.len() {
                Some(self@.input[self@.index])
            } else {
                None
            },
    {
        if self.index < self.input.len() {
            Some(self.input[self.index])
        } else {
            None
        }
    }

    /// Passes the next character and returns it.
    pub fn next(&mut self) -> (next: Option<char>)
        requires
            old(self).wf(),
        ensures
            final(self).wf(),
            final(self)@.input == old(self)@.input,
            match next {
                Some(c) => old(self)@.index < old(self)@.input.len() && c == old(self)@.input[old(
                    self,
                )@.index] && final(self)@.index == old(self)@.index + 1,
                None => old(self)@.index == old(self)@.input.len() && final(self)@.index == old(
                    self,
                )@.index,
            },
    {
        if self.index < self.input.len() {
            let c = self.input[self.index];
            proof {
                lemma_position_bounds(self.input@, self.index as int);
            }
            if c == '\n' {
                self.pos = Position { line_number: self.pos.line_number + 1, column_number: 1 };
            } else {
                self.pos = Position {
                    line_number: self.pos.line_number,
                    column_number: self.pos.column_number + 1,
                };
            }
            self.index = self.index + 1;
            Some(c)
        } else {
            None
        }
    }
}

} // verus!
