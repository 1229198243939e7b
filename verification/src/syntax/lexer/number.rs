//! Number literals.
//!
//! The lexer finds where a number literal ends, what kind of number it is
//! and in which base it is written, and gathers its digits. Where the
//! literal is an integer that fits into 32 bits, it also gives its value.
//! The value of any other literal is left to whoever reads the token.

use vstd::prelude::*;
use crate::syntax::lexer::{Cursor, Error, Position, Span};

verus! {

/// The value of a character as a digit in a base: `0` to `9` are worth 0 to
/// 9, and the letters of either case are worth 10 and more, `a` first. A
/// character whose worth is not below the base is no digit.
pub open spec fn digit_value(c: char, base: u32) -> Option<u32> {
    let code = c as u32;
    let worth: int = if 48 <= code <= 57 {
        code - 48
    } else if 97 <= code <= 122 {
        code - 87
    } else if 65 <= code <= 90 {
        code - 55
    } else {
        -1
    };
    if 0 <= worth < base {
        Some(worth as u32)
    } else {
        None
    }
}

/// Whether a character is a digit in a base.
pub open spec fn is_digit(c: char, base: u32) -> bool {
    digit_value(c, base) is Some
}

/// The value of a character as a digit in a base.
pub fn to_digit(c: char, base: u32) -> (digit: Option<u32>)
    ensures
        digit == digit_value(c, base),
{
    let code = c as u32;
    let worth: u32 = if 48 <= code && code <= 57 {
        code - 48
    } else if 97 <= code && code <= 122 {
        code - 87
    } else if 65 <= code && code <= 90 {
        code - 55
    } else {
        return None;
    };
    if worth < base {
        Some(worth)
    } else {
        None
    }
}

/// Whether a character may not follow a number literal: a letter of the
/// Latin alphabet, a decimal digit, `$` or `_`.
pub open spec fn continues_identifier(c: char) -> bool {
    let code = c as u32;
    ||| 97 <= code <= 122
    ||| 65 <= code <= 90
    ||| 48 <= code <= 57
    ||| c == '$'
    ||| c == '_'
}

/// Where the digits end that start at place `from` of the text: the first
/// place from there on that holds no digit of the base, or the end of the
/// text.
pub open spec fn digits_end(input: Seq<char>, from: int, base: u32) -> int
    decreases input.len() - from,
{
    if 0 <= from < input.len() && is_digit(input[from], base) {
        digits_end(input, from + 1, base)
    } else {
        from
    }
}

/// The digits end where the text allows, and everything up to there is a
/// digit.
pub proof fn lemma_digits_end(input: Seq<char>, from: int, base: u32)
    requires
        0 <= from <= input.len(),
    ensures
        from <= digits_end(input, from, base) <= input.len(),
        forall|i: int|
            from <= i < digits_end(input, from, base) ==> is_digit(#[trigger] input[i], base),
        digits_end(input, from, base) < input.len() ==> !is_digit(
            input[digits_end(input, from, base)],
            base,
        ),
    decreases input.len() - from,
{
    if from < input.len() && is_digit(input[from], base) {
        lemma_digits_end(input, from + 1, base);
    }
}

/// This is a helper structure
///
/// This structure helps with identifying what numerical type it is and what
/// base is it.
#[derive(Debug, Clone, Copy, PartialEq, Eq, Structural)]
pub enum NumericKind {
    Rational,
    Integer(u8),
    BigInt(u8),
}

impl NumericKind {
    /// The base of the number kind, as a contract sees it.
    pub open spec fn spec_base(self) -> u32 {
        match self {
            NumericKind::Rational => 10,
            NumericKind::Integer(base) => base as u32,
            NumericKind::BigInt(base) => base as u32,
        }
    }

    /// Get the base of the number kind.
    pub fn base(self) -> (base: u32)
        ensures
            base == self.spec_base(),
    {
        match self {
            NumericKind::Rational => 10,
            NumericKind::Integer(base) => base as u32,
            NumericKind::BigInt(base) => base as u32,
        }
    }

    /// Converts `self` to BigInt kind. A rational number is none.
    pub fn to_bigint(self) -> (kind: Self)
        requires
            !(self is Rational),
        ensures
            kind == NumericKind::BigInt(self.spec_base() as u8),
    {
        match self {
            NumericKind::Rational => NumericKind::BigInt(10),
            NumericKind::Integer(base) => NumericKind::BigInt(base),
            NumericKind::BigInt(base) => NumericKind::BigInt(base),
        }
    }
}

/// What a number is to a contract.
pub enum NumericView {
    Integer(i32),
    Rational(Seq<char>),
    Radix { digits: Seq<char>, base: u8 },
    BigInt { digits: Seq<char>, base: u8 },
}

/// The number that a literal stands for.
#[derive(Debug, PartialEq, Eq)]
pub enum Numeric {
    /// An integer that fits into 32 bits: its value.
    Integer(i32),
    /// A number with a fraction or an exponent: its text in decimal
    /// notation, with `E` before the exponent.
    Rational(Vec<char>),
    /// An integer that does not fit into 32 bits: its digits and their
    /// base.
    Radix { digits: Vec<char>, base: u8 },
    /// A big integer: its digits and their base.
    BigInt { digits: Vec<char>, base: u8 },
}

impl View for Numeric {
    type V = NumericView;

    open spec fn view(&self) -> NumericView {
        match self {
            Numeric::Integer(value) => NumericView::Integer(*value),
            Numeric::Rational(text) => NumericView::Rational(text@),
            Numeric::Radix { digits, base } => NumericView::Radix { digits: digits@, base: *base },
            Numeric::BigInt { digits, base } => NumericView::BigInt { digits: digits@, base: *base },
        }
    }
}

impl Clone for Numeric {
    fn clone(&self) -> (copy: Self)
        ensures
            copy@ == self@,
    {
        match self {
            Numeric::Integer(value) => Numeric::Integer(*value),
            Numeric::Rational(text) => Numeric::Rational(text.clone()),
            Numeric::Radix { digits, base } => Numeric::Radix { digits: digits.clone(), base: *base },
            Numeric::BigInt { digits, base } => Numeric::BigInt { digits: digits.clone(), base: *base },
        }
    }
}

/// The kind of a token.
#[derive(Debug, PartialEq, Eq)]
pub enum TokenKind {
    /// A number literal.
    NumericLiteral(Numeric),
}

impl Clone for TokenKind {
    fn clone(&self) -> (copy: Self)
        ensures
            copy.number() == self.number(),
    {
        match self {
            TokenKind::NumericLiteral(number) => TokenKind::NumericLiteral(number.clone()),
        }
    }
}

impl TokenKind {
    /// The number that a number literal stands for.
    pub open spec fn number(self) -> NumericView {
        match self {
            TokenKind::NumericLiteral(number) => number@,
        }
    }
}

/// A token: its kind and where it stands in the text.
#[derive(Debug, PartialEq, Eq)]
pub struct Token {
    pub kind: TokenKind,
    pub span: Span,
}

impl Clone for Token {
    fn clone(&self) -> (copy: Self)
        ensures
            copy.kind.number() == self.kind.number(),
            copy.span == self.span,
    {
        Token { kind: self.kind.clone(), span: self.span }
    }
}

impl Token {
    /// The token of the given kind at the given stretch of the text.
    pub fn new(kind: TokenKind, span: Span) -> (token: Self)
        ensures
            token.kind == kind,
            token.span == span,
    {
        Token { kind, span }
    }
}

/// The number that a row of digits stands for in a base, the first digit
/// being worth the most. A character that is no digit counts as 0.
pub open spec fn digits_value(digits: Seq<char>, base: u32) -> int
    decreases digits.len(),
{
    if digits.len() == 0 {
        0
    } else {
        digits_value(digits.drop_last(), base) * base + match digit_value(digits.last(), base) {
            Some(worth) => worth as int,
            None => 0,
        }
    }
}

/// The value of digits as a 32-bit integer: they must be digits of the
/// base, at least one, and stand for a number that fits.
pub open spec fn integer_value(digits: Seq<char>, base: u32) -> Option<i32> {
    if digits.len() > 0 && (forall|i: int| 0 <= i < digits.len() ==> is_digit(#[trigger] digits[i], base))
        && digits_value(digits, base) <= i32::MAX {
        Some(digits_value(digits, base) as i32)
    } else {
        None
    }
}

/// More digits never stand for less.
pub proof fn lemma_digits_value_grows(digits: Seq<char>, base: u32, n: int)
    requires
        0 <= n <= digits.len(),
        base >= 1,
    ensures
        0 <= digits_value(digits.subrange(0, n), base) <= digits_value(digits, base),
    decreases digits.len() - n,
{
    if n == digits.len() {
        assert(digits.subrange(0, n) =~= digits);
        lemma_digits_value_nonnegative(digits, base);
    } else {
        lemma_digits_value_grows(digits, base, n + 1);
        let longer = digits.subrange(0, n + 1);
        assert(longer.drop_last() =~= digits.subrange(0, n));
        lemma_digits_value_nonnegative(digits.subrange(0, n), base);
        assert(digits_value(longer.drop_last(), base) * base >= digits_value(
            longer.drop_last(),
            base,
        )) by (nonlinear_arith)
            requires
                digits_value(longer.drop_last(), base) >= 0,
                base >= 1,
        ;
    }
}

/// Digits stand for no negative number.
pub proof fn lemma_digits_value_nonnegative(digits: Seq<char>, base: u32)
    ensures
        digits_value(digits, base) >= 0,
    decreases digits.len(),
{
    if digits.len() > 0 {
        lemma_digits_value_nonnegative(digits.drop_last(), base);
        assert(digits_value(digits.drop_last(), base) * base >= 0) by (nonlinear_arith)
            requires
                digits_value(digits.drop_last(), base) >= 0,
                base >= 0,
        ;
    }
}

/// Reads digits as a 32-bit integer in a base.
pub fn parse_integer(digits: &Vec<char>, base: u32) -> (value: Option<i32>)
    requires
        1 <= base <= 36,
    ensures
        value == integer_value(digits@, base),
{
    if digits.len() == 0 {
        return None;
    }
    let mut value: u64 = 0;
    let mut i: usize = 0;
    while i < digits.len()
        invariant
            i <= digits.len(),
            1 <= base <= 36,
            value <= i32::MAX,
            value == digits_value(digits@.subrange(0, i as int), base),
            forall|j: int| 0 <= j < i ==> is_digit(#[trigger] digits@[j], base),
        decreases digits.len() - i,
    {
        let worth = match to_digit(digits[i], base) {
            Some(worth) => worth,
            None => {
                return None;
            },
        };
        let ghost longer = digits@.subrange(0, i + 1);
        assert(longer.drop_last() =~= digits@.subrange(0, i as int));
        assert(value * base + worth <= 0x7fff_ffff * 36 + 36) by (nonlinear_arith)
            requires
                value <= 0x7fff_ffff,
                base <= 36,
                worth < base,
        ;
        let next = value * (base as u64) + (worth as u64);
        if next > 0x7fff_ffff {
            proof {
                lemma_digits_value_grows(digits@, base, i + 1);
            }
            return None;
        }
        value = next;
        i += 1;
    }
    assert(digits@.subrange(0, i as int) =~= digits@);
    Some(value as i32)
}

impl<'a> Cursor<'a> {
    /// Whether the next character is a digit of the base.
    pub fn next_is_digit(&self, base: u32) -> (digit: bool)
        requires
            self.wf(),
        ensures
            digit == (self@.index < self@.input.len() && is_digit(
                self@.input[self@.index],
                base,
            )),
    {
        match self.peek() {
            Some(c) => to_digit(c, base).is_some(),
            None => false,
        }
    }

    /// Passes the digits of the base that come next and adds them to the
    /// buffer.
    pub fn take_digits(&mut self, buf: &mut Vec<char>, base: u32)
        requires
            old(self).wf(),
        ensures
            final(self).wf(),
            final(self)@.input == old(self)@.input,
            final(self)@.index == digits_end(old(self)@.input, old(self)@.index, base),
            final(buf)@ == old(buf)@ + old(self)@.input.subrange(
                old(self)@.index,
                final(self)@.index,
            ),
    {
        let ghost input = self@.input;
        let ghost start = self@.index;
        proof {
            self.lemma_wf();
        }
        assert(buf@ =~= old(buf)@ + input.subrange(start, start));
        while self.next_is_digit(base)
            invariant
                self.wf(),
                self@.input == input,
                0 <= start <= self@.index <= input.len(),
                digits_end(input, start, base) == digits_end(input, self@.index, base),
                buf@ == old(buf)@ + input.subrange(start, self@.index),
            decreases input.len() - self@.index,
        {
            let ghost at = self@.index;
            let ghost before = buf@;
            match self.next() {
                Some(c) => {
                    buf.push(c);
                    assert(input.subrange(start, at + 1) =~= input.subrange(start, at).push(c));
                    assert(buf@ =~= old(buf)@ + input.subrange(start, at + 1));
                },
                None => {},
            }
        }
    }
}

/// How the start of a literal goes on.
pub enum Prefix {
    /// The literal is complete: what it stands for, and where it ends.
    Done(NumericView, int),
    /// The literal goes on with digits from place `at`: its kind, and what
    /// its buffer holds so far.
    Digits { kind: NumericKind, buf: Seq<char>, at: int },
    /// The literal is none.
    Fail(Error, int),
}

/// What the first character of a literal, `init`, and the one behind it
/// say of the literal. The text goes on at place `at`.
///
/// A literal that does not start with `0` is a decimal integer so far.
/// After a `0`, an `x`, `o` or `b` of either case starts the digits in
/// base 16, 8 or 2, and the `0` is dropped; an `n` ends the big integer
/// zero; an octal digit makes the literal octal and a decimal digit leaves
/// it decimal, neither of which strict mode accepts; anything else leaves
/// the `0` as it is.
pub open spec fn prefix(init: char, strict: bool, input: Seq<char>, at: int) -> Prefix {
    if init != '0' {
        Prefix::Digits { kind: NumericKind::Integer(10), buf: seq![init], at }
    } else if !(0 <= at < input.len()) {
        Prefix::Done(NumericView::Integer(0), at)
    } else {
        let ch = input[at];
        if ch == 'x' || ch == 'X' {
            Prefix::Digits { kind: NumericKind::Integer(16), buf: Seq::empty(), at: at + 1 }
        } else if ch == 'o' || ch == 'O' {
            Prefix::Digits { kind: NumericKind::Integer(8), buf: Seq::empty(), at: at + 1 }
        } else if ch == 'b' || ch == 'B' {
            Prefix::Digits { kind: NumericKind::Integer(2), buf: Seq::empty(), at: at + 1 }
        } else if ch == 'n' {
            Prefix::Done(NumericView::BigInt { digits: seq!['0'], base: 10 }, at + 1)
        } else if is_digit(ch, 8) {
            if strict {
                Prefix::Fail(Error::ImplicitOctal, at)
            } else {
                Prefix::Digits { kind: NumericKind::Integer(8), buf: seq![ch], at: at + 1 }
            }
        } else if is_digit(ch, 10) {
            if strict {
                Prefix::Fail(Error::LeadingZero, at)
            } else {
                Prefix::Digits { kind: NumericKind::Integer(10), buf: seq!['0', ch], at: at + 1 }
            }
        } else {
            Prefix::Digits { kind: NumericKind::Integer(10), buf: seq!['0'], at }
        }
    }
}

/// The exponent that starts at place `at`, behind the `e`: a sign or not,
/// and then digits of the base, at least one. The result is the buffer with
/// the exponent added, or why there is no exponent; and the place up to
/// which the text was read.
pub open spec fn signed_integer(input: Seq<char>, at: int, buf: Seq<char>, base: u32) -> (
    Result<Seq<char>, Error>,
    int,
) {
    if !(0 <= at < input.len()) {
        (Err(Error::AbruptEnd), at)
    } else {
        let c = input[at];
        if c == '+' || c == '-' {
            if at + 1 < input.len() && is_digit(input[at + 1], base) {
                let end = digits_end(input, at + 1, base);
                (Ok(buf.push(c) + input.subrange(at + 1, end)), end)
            } else {
                (Err(Error::NoDigitAfterSign(c)), at + 1)
            }
        } else if is_digit(c, base) {
            let end = digits_end(input, at + 1, base);
            (Ok(buf.push(c) + input.subrange(at + 1, end)), end)
        } else {
            (Err(Error::UnexpectedExponentChar(c)), at + 1)
        }
    }
}

/// The rest of a literal that goes on with digits at place `at`: the
/// digits of its base, and then one of three endings. An `n` makes it a
/// big integer. A `.`, in base 10 only, makes it rational and is followed
/// by decimal digits and maybe an exponent. An `e` of either case makes it
/// rational and is followed by an exponent. The result is the kind and the
/// buffer of the whole literal, with `E` for the `e` of an exponent, or why
/// it is none; and the place up to which the text was read.
pub open spec fn body(kind: NumericKind, buf: Seq<char>, input: Seq<char>, at: int) -> (
    Result<(NumericKind, Seq<char>), Error>,
    int,
) {
    let end = digits_end(input, at, kind.spec_base());
    let digits = buf + input.subrange(at, end);
    if !(0 <= end < input.len()) {
        (Ok((kind, digits)), end)
    } else if input[end] == 'n' {
        (Ok((NumericKind::BigInt(kind.spec_base() as u8), digits)), end + 1)
    } else if input[end] == '.' {
        if kind.spec_base() == 10 {
            let stop = digits_end(input, end + 1, 10);
            let fraction = digits.push('.') + input.subrange(end + 1, stop);
            if 0 <= stop < input.len() && (input[stop] == 'e' || input[stop] == 'E') {
                let (exponent, read) = signed_integer(input, stop + 1, fraction.push('E'), 10);
                (
                    match exponent {
                        Ok(text) => Ok((NumericKind::Rational, text)),
                        Err(error) => Err(error),
                    },
                    read,
                )
            } else {
                (Ok((NumericKind::Rational, fraction)), stop)
            }
        } else {
            (Ok((kind, digits)), end)
        }
    } else if input[end] == 'e' || input[end] == 'E' {
        let (exponent, read) = signed_integer(input, end + 1, digits.push('E'), 10);
        (
            match exponent {
                Ok(text) => Ok((NumericKind::Rational, text)),
                Err(error) => Err(error),
            },
            read,
        )
    } else {
        (Ok((kind, digits)), end)
    }
}

/// The number that a literal of a kind stands for, given its buffer: an
/// integer is given by its value where its digits stand for one that fits
/// into 32 bits, and by its digits and their base where they do not.
pub open spec fn numeric(kind: NumericKind, buf: Seq<char>) -> NumericView {
    match kind {
        NumericKind::BigInt(base) => NumericView::BigInt { digits: buf, base },
        NumericKind::Rational => NumericView::Rational(buf),
        NumericKind::Integer(base) => match integer_value(buf, base as u32) {
            Some(value) => NumericView::Integer(value),
            None => NumericView::Radix { digits: buf, base },
        },
    }
}

/// What lexing a number literal comes to, where `init` is its first
/// character and the text goes on at place `at`: the number that it stands
/// for, or why it is none; and the place up to which the text was read. A
/// literal may not be followed by a letter, a digit, `$` or `_`.
pub open spec fn lex(init: char, strict: bool, input: Seq<char>, at: int) -> (
    Result<NumericView, Error>,
    int,
) {
    match prefix(init, strict, input, at) {
        Prefix::Done(number, end) => (Ok(number), end),
        Prefix::Fail(error, end) => (Err(error), end),
        Prefix::Digits { kind, buf, at } => match body(kind, buf, input, at) {
            (Err(error), read) => (Err(error), read),
            (Ok((kind, text)), end) => if 0 <= end < input.len() && continues_identifier(
                input[end],
            ) {
                (Err(Error::InvalidAfterLiteral), end)
            } else {
                (Ok(numeric(kind, text)), end)
            },
        },
    }
}

/// Reads the exponent of a rational number behind its `e`: a sign or not,
/// and then digits, at least one.
pub fn take_signed_integer(buf: &mut Vec<char>, cursor: &mut Cursor, kind: &NumericKind) -> (done:
    Result<(), Error>)
    requires
        old(cursor).wf(),
    ensures
        final(cursor).wf(),
        final(cursor)@.input == old(cursor)@.input,
        final(cursor)@.index == signed_integer(
            old(cursor)@.input,
            old(cursor)@.index,
            old(buf)@,
            kind.spec_base(),
        ).1,
        match done {
            Ok(()) => signed_integer(
                old(cursor)@.input,
                old(cursor)@.index,
                old(buf)@,
                kind.spec_base(),
            ).0 == Ok::<Seq<char>, Error>(final(buf)@),
            Err(error) => signed_integer(
                old(cursor)@.input,
                old(cursor)@.index,
                old(buf)@,
                kind.spec_base(),
            ).0 == Err::<Seq<char>, Error>(error),
        },
{
    proof {
        cursor.lemma_wf();
    }
    // The next part must be SignedInteger.
    // This is optionally a '+' or '-' followed by 1 or more DecimalDigits.
    match cursor.next() {
        Some(c) => {
            if c == '+' || c == '-' {
                buf.push(c);
                if !cursor.next_is_digit(kind.base()) {
                    // A digit must follow the + or - symbol.
                    return Err(Error::NoDigitAfterSign(c));
                }
            } else if to_digit(c, kind.base()).is_some() {
                buf.push(c);
            } else {
                return Err(Error::UnexpectedExponentChar(c));
            }
        },
        None => {
            return Err(Error::AbruptEnd);
        },
    }
    // Consume the decimal digits.
    cursor.take_digits(buf, kind.base());
    proof {
        let input = old(cursor)@.input;
        let at = old(cursor)@.index;
        let base = kind.spec_base();
        if input[at] == '+' || input[at] == '-' {
            assert(digits_end(input, at + 1, base) == digits_end(input, at + 1, base));
        }
        assert(buf@ =~= old(buf)@.push(input[at]) + input.subrange(at + 1, cursor@.index));
    }
    Ok(())
}

/// Utility function for checking the NumericLiteral is not followed by an
/// `IdentifierStart` or `DecimalDigit` character.
pub fn check_after_numeric_literal(cursor: &mut Cursor) -> (done: Result<(), Error>)
    requires
        old(cursor).wf(),
    ensures
        final(cursor).wf(),
        final(cursor)@ == old(cursor)@,
        done == if old(cursor)@.index < old(cursor)@.input.len() && continues_identifier(
            old(cursor)@.input[old(cursor)@.index],
        ) {
            Err::<(), Error>(Error::InvalidAfterLiteral)
        } else {
            Ok::<(), Error>(())
        },
{
    let follows = match cursor.peek() {
        Some(ch) => {
            let code = ch as u32;
            (97 <= code && code <= 122) || (65 <= code && code <= 90) || (48 <= code && code <= 57)
                || ch == '$' || ch == '_'
        },
        None => false,
    };
    if follows {
        Err(Error::InvalidAfterLiteral)
    } else {
        Ok(())
    }
}

/// Number literal lexing.
///
/// Assumes the digit is consumed by the cursor (stored in init).
#[derive(Debug, Clone, Copy, PartialEq, Eq, Structural)]
pub struct NumberLiteral {
    pub init: char,
    pub strict_mode: bool,
}

impl NumberLiteral {
    /// Creates a new string literal lexer.
    pub fn new(init: char, strict_mode: bool) -> (lexer: Self)
        ensures
            lexer == (NumberLiteral { init, strict_mode }),
    {
        NumberLiteral { init, strict_mode }
    }

    /// Lexes the number literal whose first character is `init` and whose
    /// rest the cursor has before it. The token stretches from
    /// `start_pos` to where the cursor then stands.
    pub fn lex(&mut self, cursor: &mut Cursor, start_pos: Position) -> (token: Result<
        Token,
        Error,
    >)
        requires
            old(cursor).wf(),
        ensures
            final(cursor).wf(),
            *final(self) == *old(self),
            final(cursor)@.input == old(cursor)@.input,
            final(cursor)@.index == lex(
                old(self).init,
                old(self).strict_mode,
                old(cursor)@.input,
                old(cursor)@.index,
            ).1,
            match token {
                Ok(token) => {
                    &&& token.span == (Span { start: start_pos, end: final(cursor).spec_pos() })
                    &&& lex(
                        old(self).init,
                        old(self).strict_mode,
                        old(cursor)@.input,
                        old(cursor)@.index,
                    ).0 == Ok::<NumericView, Error>(token.kind.number())
                },
                Err(error) => lex(
                    old(self).init,
                    old(self).strict_mode,
                    old(cursor)@.input,
                    old(cursor)@.index,
                ).0 == Err::<NumericView, Error>(error),
            },
    {
        let ghost input = cursor@.input;
        let ghost first = cursor@.index;
        proof {
            cursor.lemma_wf();
        }
        let mut buf: Vec<char> = Vec::new();
        buf.push(self.init);

        // Until its prefix says otherwise, the number is a base 10 integer.
        let mut kind = NumericKind::Integer(10);

        if self.init == '0' {
            match cursor.peek() {
                Some(ch) => {
                    if ch == 'x' || ch == 'X' {
                        // Remove the initial '0' from buffer.
                        cursor.next();
                        buf.pop();
                        // HexIntegerLiteral
                        kind = NumericKind::Integer(16);
                    } else if ch == 'o' || ch == 'O' {
                        // Remove the initial '0' from buffer.
                        cursor.next();
                        buf.pop();
                        // OctalIntegerLiteral
                        kind = NumericKind::Integer(8);
                    } else if ch == 'b' || ch == 'B' {
                        // Remove the initial '0' from buffer.
                        cursor.next();
                        buf.pop();
                        // BinaryIntegerLiteral
                        kind = NumericKind::Integer(2);
                    } else if ch == 'n' {
                        cursor.next();
                        // DecimalBigIntegerLiteral '0n'
                        assert(buf@ =~= seq!['0']);
                        return Ok(
                            Token::new(
                                TokenKind::NumericLiteral(Numeric::BigInt { digits: buf, base: 10 }),
                                Span::new(start_pos, cursor.pos()),
                            ),
                        );
                    } else if to_digit(ch, 8).is_some() {
                        // LegacyOctalIntegerLiteral
                        if self.strict_mode {
                            // LegacyOctalIntegerLiteral is forbidden with strict mode true.
                            return Err(Error::ImplicitOctal);
                        } else {
                            // Remove the initial '0' from buffer.
                            buf.pop();
                            cursor.next();
                            buf.push(ch);
                            kind = NumericKind::Integer(8);
                        }
                    } else if to_digit(ch, 10).is_some() {
                        // Indicates a numerical digit comes after then 0 but it isn't an octal digit
                        // so therefore this must be a number with an unneeded leading 0. This is
                        // forbidden in strict mode.
                        if self.strict_mode {
                            return Err(Error::LeadingZero);
                        } else {
                            cursor.next();
                            buf.push(ch);
                        }
                    }  // Else indicates that the symbol is a non-number.

                },
                None => {
                    // DecimalLiteral lexing.
                    // Indicates that the number is just a single 0.
                    return Ok(
                        Token::new(
                            TokenKind::NumericLiteral(Numeric::Integer(0)),
                            Span::new(start_pos, cursor.pos()),
                        ),
                    );
                },
            }
        }
        let ghost started = prefix(self.init, self.strict_mode, input, first);
        assert(started == Prefix::Digits { kind, buf: buf@, at: cursor@.index }) by {
            assert(buf@ =~= started->Digits_buf);
        }
        let ghost second = cursor@.index;
        let ghost initial = buf@;
        let ghost initial_kind = kind;
        assert(1 <= kind.spec_base() <= 36);

        // Consume digits until a non-digit character is encountered or all the characters are consumed.
        cursor.take_digits(&mut buf, kind.base());
        proof {
            lemma_digits_end(input, second, kind.spec_base());
        }

        // The non-digit character could be:
        // 'n' To indicate a BigIntLiteralSuffix.
        // '.' To indicate a decimal seperator.
        // 'e' | 'E' To indicate an ExponentPart.
        match cursor.peek() {
            Some('n') => {
                // DecimalBigIntegerLiteral
                // Lexing finished.
                // Consume the n
                cursor.next();
                kind = kind.to_bigint();
            },
            Some('.') => {
                if kind.base() == 10 {
                    // Only base 10 numbers can have a decimal seperator.
                    // Number literal lexing finished if a . is found for a number in a different base.
                    cursor.next();
                    buf.push('.');  // Consume the .
                    kind = NumericKind::Rational;

                    // Consume digits until a non-digit character is encountered or all the characters are consumed.
                    cursor.take_digits(&mut buf, kind.base());
                    proof {
                        lemma_digits_end(input, second, initial_kind.spec_base());
                        lemma_digits_end(input, digits_end(input, second, 10) + 1, 10);
                    }

                    // The non-digit character at this point must be an 'e' or 'E' to indicate an Exponent Part.
                    // Another '.' or 'n' is not allowed.
                    match cursor.peek() {
                        Some('e') | Some('E') => {
                            // Consume the ExponentIndicator.
                            cursor.next();
                            buf.push('E');
                            match take_signed_integer(&mut buf, cursor, &kind) {
                                Ok(()) => {},
                                Err(error) => {
                                    return Err(error);
                                },
                            }
                        },
                        Some(_) | None => {
                            // Finished lexing.
                        },
                    }
                }
            },
            Some('e') | Some('E') => {
                kind = NumericKind::Rational;
                cursor.next();  // Consume the ExponentIndicator.
                buf.push('E');
                match take_signed_integer(&mut buf, cursor, &kind) {
                    Ok(()) => {},
                    Err(error) => {
                        return Err(error);
                    },
                }
            },
            Some(_) | None => {
                // Indicates lexing finished.
            },
        }
        assert(body(initial_kind, initial, input, second) == (
            Ok::<(NumericKind, Seq<char>), Error>((kind, buf@)),
            cursor@.index,
        ));

        match check_after_numeric_literal(cursor) {
            Ok(()) => {},
            Err(error) => {
                return Err(error);
            },
        }

        let num = match kind {
            NumericKind::BigInt(base) => Numeric::BigInt { digits: buf, base },
            NumericKind::Rational => Numeric::Rational(buf),
            NumericKind::Integer(base) => {
                match parse_integer(&buf, base as u32) {
                    Some(num) => Numeric::Integer(num),
                    None => Numeric::Radix { digits: buf, base },
                }
            },
        };

        Ok(Token::new(TokenKind::NumericLiteral(num), Span::new(start_pos, cursor.pos())))
    }
}

} // verus!
