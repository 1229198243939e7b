use boa::syntax::lexer::number::{
    check_after_numeric_literal, parse_integer, take_signed_integer, to_digit, NumberLiteral,
    Numeric, NumericKind, Token, TokenKind,
};
use boa::syntax::lexer::{chars_of, Cursor, Error, Position, Span};

fn chars(text: &str) -> Vec<char> {
    text.chars().collect()
}

fn lex_with(text: &str, strict: bool) -> (Result<Token, Error>, usize) {
    let all = chars(text);
    let mut cursor = Cursor::new(&all);
    let init = cursor.next().unwrap();
    let start = Position::new(1, 1);
    let token = NumberLiteral::new(init, strict).lex(&mut cursor, start);
    (token, cursor.index())
}

fn lex(text: &str) -> (Result<Numeric, Error>, usize) {
    let (token, end) = lex_with(text, false);
    (
        token.map(|token| match token.kind {
            TokenKind::NumericLiteral(number) => number,
        }),
        end,
    )
}

fn integer(value: i32) -> Result<Numeric, Error> {
    Ok(Numeric::Integer(value))
}

fn rational(text: &str) -> Result<Numeric, Error> {
    Ok(Numeric::Rational(chars(text)))
}

fn big(text: &str, base: u8) -> Result<Numeric, Error> {
    Ok(Numeric::BigInt { digits: chars(text), base })
}

#[test]
fn decimal_integers() {
    assert_eq!(lex("0"), (integer(0), 1));
    assert_eq!(lex("7"), (integer(7), 1));
    assert_eq!(lex("1234567"), (integer(1234567), 7));
    assert_eq!(lex("2147483647"), (integer(2147483647), 10));
    assert_eq!(lex("42;"), (integer(42), 2));
    assert_eq!(lex("42 + 1"), (integer(42), 2));
    assert_eq!(lex("0;"), (integer(0), 1));
}

#[test]
fn integers_that_do_not_fit_keep_their_digits() {
    assert_eq!(
        lex("2147483648"),
        (Ok(Numeric::Radix { digits: chars("2147483648"), base: 10 }), 10)
    );
    assert_eq!(
        lex("0xFFFFFFFF"),
        (Ok(Numeric::Radix { digits: chars("FFFFFFFF"), base: 16 }), 10)
    );
    assert_eq!(lex("0x"), (Ok(Numeric::Radix { digits: Vec::new(), base: 16 }), 2));
}

#[test]
fn integers_in_other_bases() {
    assert_eq!(lex("0x1F"), (integer(31), 4));
    assert_eq!(lex("0Xff"), (integer(255), 4));
    assert_eq!(lex("0x7fffffff"), (integer(2147483647), 10));
    assert_eq!(lex("0o17"), (integer(15), 4));
    assert_eq!(lex("0O7"), (integer(7), 3));
    assert_eq!(lex("0b101"), (integer(5), 5));
    assert_eq!(lex("0B1"), (integer(1), 3));
    assert_eq!(lex("0x1e"), (integer(30), 4));
}

#[test]
fn a_leading_zero_outside_strict_mode() {
    assert_eq!(lex("017"), (integer(15), 3));
    assert_eq!(lex("00"), (integer(0), 2));
    assert_eq!(lex("08"), (integer(8), 2));
    assert_eq!(lex("089"), (integer(89), 3));
}

#[test]
fn a_leading_zero_in_strict_mode() {
    assert_eq!(lex_with("017", true), (Err(Error::ImplicitOctal), 1));
    assert_eq!(lex_with("08", true), (Err(Error::LeadingZero), 1));
    let (token, end) = lex_with("0", true);
    assert_eq!(token.unwrap().kind, TokenKind::NumericLiteral(Numeric::Integer(0)));
    assert_eq!(end, 1);
    let (token, _) = lex_with("0x10", true);
    assert_eq!(token.unwrap().kind, TokenKind::NumericLiteral(Numeric::Integer(16)));
    let (token, _) = lex_with("0.5", true);
    assert_eq!(token.unwrap().kind, TokenKind::NumericLiteral(Numeric::Rational(chars("0.5"))));
}

#[test]
fn big_integers() {
    assert_eq!(lex("0n"), (big("0", 10), 2));
    assert_eq!(lex("123n"), (big("123", 10), 4));
    assert_eq!(lex("0xabn"), (big("ab", 16), 5));
    assert_eq!(lex("0b11n"), (big("11", 2), 5));
    assert_eq!(lex("0o7n"), (big("7", 8), 4));
    assert_eq!(lex("0xn"), (big("", 16), 3));
}

#[test]
fn rational_numbers() {
    assert_eq!(lex("1.5"), (rational("1.5"), 3));
    assert_eq!(lex("1."), (rational("1."), 2));
    assert_eq!(lex("0.25;"), (rational("0.25"), 4));
    assert_eq!(lex("1e5"), (rational("1E5"), 3));
    assert_eq!(lex("1E5"), (rational("1E5"), 3));
    assert_eq!(lex("1e+5"), (rational("1E+5"), 4));
    assert_eq!(lex("12.5e-10"), (rational("12.5E-10"), 8));
    assert_eq!(lex("1.e3"), (rational("1.E3"), 4));
    assert_eq!(lex("0o7e1"), (rational("7E1"), 5));
    assert_eq!(lex("1.5.2"), (rational("1.5"), 3));
}

#[test]
fn a_point_ends_a_literal_in_another_base() {
    assert_eq!(lex("0x1.5"), (integer(1), 3));
    assert_eq!(lex("0b1."), (integer(1), 3));
}

#[test]
fn exponents_need_digits() {
    assert_eq!(lex("1e"), (Err(Error::AbruptEnd), 2));
    assert_eq!(lex("1e+"), (Err(Error::NoDigitAfterSign('+')), 3));
    assert_eq!(lex("1e-x"), (Err(Error::NoDigitAfterSign('-')), 3));
    assert_eq!(lex("1ex"), (Err(Error::UnexpectedExponentChar('x')), 3));
    assert_eq!(lex("1.5e;"), (Err(Error::UnexpectedExponentChar(';')), 5));
}

#[test]
fn a_literal_may_not_run_into_an_identifier() {
    assert_eq!(lex("1a"), (Err(Error::InvalidAfterLiteral), 1));
    assert_eq!(lex("1_"), (Err(Error::InvalidAfterLiteral), 1));
    assert_eq!(lex("1$"), (Err(Error::InvalidAfterLiteral), 1));
    assert_eq!(lex("0b12"), (Err(Error::InvalidAfterLiteral), 3));
    assert_eq!(lex("0778"), (Err(Error::InvalidAfterLiteral), 3));
    assert_eq!(lex("12n3"), (Err(Error::InvalidAfterLiteral), 3));
    assert_eq!(lex("1.5x"), (Err(Error::InvalidAfterLiteral), 3));
    assert_eq!(lex("1é"), (integer(1), 1));
}

#[test]
fn the_token_spans_the_literal() {
    let all = chars("a\nbc 0x1F;");
    let mut cursor = Cursor::new(&all);
    for _ in 0..5 {
        cursor.next();
    }
    let start = cursor.pos();
    assert_eq!(start, Position::new(2, 4));
    let init = cursor.next().unwrap();
    let mut lexer = NumberLiteral::new(init, false);
    let token = lexer.lex(&mut cursor, start).unwrap();
    assert_eq!(token.span, Span::new(Position::new(2, 4), Position::new(2, 8)));
    assert_eq!(token.kind, TokenKind::NumericLiteral(Numeric::Integer(31)));
    assert_eq!(cursor.peek(), Some(';'));
    assert_eq!(lexer, NumberLiteral::new('0', false));
    assert_eq!(token.clone(), token);
}

#[test]
fn the_cursor_counts_lines_and_columns() {
    let all = chars("ab\n\ncd");
    let mut cursor = Cursor::new(&all);
    assert_eq!(cursor.pos(), Position::new(1, 1));
    assert_eq!(cursor.peek(), Some('a'));
    assert_eq!(cursor.next(), Some('a'));
    assert_eq!(cursor.pos(), Position::new(1, 2));
    assert_eq!(cursor.next(), Some('b'));
    assert_eq!(cursor.next(), Some('\n'));
    assert_eq!(cursor.pos(), Position::new(2, 1));
    assert_eq!(cursor.next(), Some('\n'));
    assert_eq!(cursor.pos(), Position::new(3, 1));
    assert_eq!(cursor.next(), Some('c'));
    assert_eq!(cursor.next(), Some('d'));
    assert_eq!(cursor.pos(), Position::new(3, 3));
    assert_eq!(cursor.index(), 6);
    assert_eq!(cursor.peek(), None);
    assert_eq!(cursor.next(), None);
    assert_eq!(cursor.pos(), Position::new(3, 3));
    assert_eq!(cursor.index(), 6);
}

#[test]
fn digits_are_taken_as_long_as_they_last() {
    let all = chars("12ab;");
    let mut cursor = Cursor::new(&all);
    let mut buf = vec!['x'];
    assert!(cursor.next_is_digit(10));
    cursor.take_digits(&mut buf, 10);
    assert_eq!(buf, chars("x12"));
    assert_eq!(cursor.index(), 2);
    assert!(!cursor.next_is_digit(10));
    assert!(cursor.next_is_digit(16));
    cursor.take_digits(&mut buf, 16);
    assert_eq!(buf, chars("x12ab"));
    cursor.take_digits(&mut buf, 16);
    assert_eq!(buf, chars("x12ab"));
    assert_eq!(cursor.peek(), Some(';'));
}

#[test]
fn characters_are_digits_up_to_the_base() {
    assert_eq!(to_digit('0', 2), Some(0));
    assert_eq!(to_digit('1', 2), Some(1));
    assert_eq!(to_digit('2', 2), None);
    assert_eq!(to_digit('7', 8), Some(7));
    assert_eq!(to_digit('8', 8), None);
    assert_eq!(to_digit('9', 10), Some(9));
    assert_eq!(to_digit('a', 10), None);
    assert_eq!(to_digit('a', 16), Some(10));
    assert_eq!(to_digit('F', 16), Some(15));
    assert_eq!(to_digit('g', 16), None);
    assert_eq!(to_digit('z', 36), Some(35));
    assert_eq!(to_digit('Z', 36), Some(35));
    assert_eq!(to_digit('/', 10), None);
    assert_eq!(to_digit(':', 36), None);
    assert_eq!(to_digit('@', 36), None);
    assert_eq!(to_digit('[', 36), None);
    assert_eq!(to_digit('`', 36), None);
    assert_eq!(to_digit('{', 36), None);
    for base in [2u32, 8, 10, 16, 36] {
        for code in 0u32..300 {
            let c = char::from_u32(code).unwrap();
            assert_eq!(to_digit(c, base), c.to_digit(base));
        }
    }
}

#[test]
fn integers_are_read_digit_by_digit() {
    assert_eq!(parse_integer(&chars("0"), 10), Some(0));
    assert_eq!(parse_integer(&chars("000123"), 10), Some(123));
    assert_eq!(parse_integer(&chars("2147483647"), 10), Some(i32::MAX));
    assert_eq!(parse_integer(&chars("2147483648"), 10), None);
    assert_eq!(parse_integer(&chars("99999999999999999999999999"), 10), None);
    assert_eq!(parse_integer(&chars("ff"), 16), Some(255));
    assert_eq!(parse_integer(&chars("FF"), 16), Some(255));
    assert_eq!(parse_integer(&chars("1111111111111111111111111111111"), 2), Some(i32::MAX));
    assert_eq!(parse_integer(&chars("10000000000000000000000000000000"), 2), None);
    assert_eq!(parse_integer(&chars(""), 10), None);
    assert_eq!(parse_integer(&chars("12a"), 10), None);
    assert_eq!(parse_integer(&chars("+1"), 10), None);
    assert_eq!(parse_integer(&chars("zz"), 36), Some(35 * 36 + 35));
}

#[test]
fn kinds_know_their_base() {
    assert_eq!(NumericKind::Rational.base(), 10);
    assert_eq!(NumericKind::Integer(16).base(), 16);
    assert_eq!(NumericKind::BigInt(2).base(), 2);
    assert_eq!(NumericKind::Integer(8).to_bigint(), NumericKind::BigInt(8));
    assert_eq!(NumericKind::BigInt(10).to_bigint(), NumericKind::BigInt(10));
}

#[test]
fn an_exponent_is_a_sign_or_not_and_digits() {
    let all = chars("+12;");
    let mut cursor = Cursor::new(&all);
    let mut buf = chars("1E");
    assert_eq!(take_signed_integer(&mut buf, &mut cursor, &NumericKind::Rational), Ok(()));
    assert_eq!(buf, chars("1E+12"));
    assert_eq!(cursor.index(), 3);

    let all = chars("7");
    let mut cursor = Cursor::new(&all);
    let mut buf = Vec::new();
    assert_eq!(take_signed_integer(&mut buf, &mut cursor, &NumericKind::Rational), Ok(()));
    assert_eq!(buf, chars("7"));

    let all = chars("-");
    let mut cursor = Cursor::new(&all);
    let mut buf = Vec::new();
    assert_eq!(
        take_signed_integer(&mut buf, &mut cursor, &NumericKind::Rational),
        Err(Error::NoDigitAfterSign('-'))
    );

    let all = chars("a1");
    let mut cursor = Cursor::new(&all);
    let mut buf = Vec::new();
    assert_eq!(
        take_signed_integer(&mut buf, &mut cursor, &NumericKind::Rational),
        Err(Error::UnexpectedExponentChar('a'))
    );
    let mut cursor = Cursor::new(&all);
    assert_eq!(take_signed_integer(&mut buf, &mut cursor, &NumericKind::Integer(16)), Ok(()));
    assert_eq!(buf, chars("a1"));

    let all = chars("");
    let mut cursor = Cursor::new(&all);
    assert_eq!(
        take_signed_integer(&mut buf, &mut cursor, &NumericKind::Rational),
        Err(Error::AbruptEnd)
    );
}

#[test]
fn what_may_follow_a_literal() {
    for (text, accepted) in [
        ("", true),
        (";", true),
        (" ", true),
        (".", true),
        ("+", true),
        ("a", false),
        ("Z", false),
        ("_", false),
        ("$", false),
        ("0", false),
        ("9", false),
    ] {
        let all = chars(text);
        let mut cursor = Cursor::new(&all);
        let expected = if accepted { Ok(()) } else { Err(Error::InvalidAfterLiteral) };
        assert_eq!(check_after_numeric_literal(&mut cursor), expected);
        assert_eq!(cursor.index(), 0);
    }
}

#[test]
fn errors_have_their_messages() {
    let text = |error: Error| error.message().into_iter().collect::<String>();
    assert_eq!(
        text(Error::ImplicitOctal),
        "Implicit octal literals are not allowed in strict mode."
    );
    assert_eq!(text(Error::LeadingZero), "Leading 0's are not allowed in strict mode.");
    assert_eq!(text(Error::NoDigitAfterSign('+')), "No digit found after + symbol");
    assert_eq!(text(Error::NoDigitAfterSign('-')), "No digit found after - symbol");
    assert_eq!(
        text(Error::UnexpectedExponentChar('q')),
        "When lexing exponential value found unexpected char: 'q'"
    );
    assert_eq!(text(Error::AbruptEnd), "Abrupt end: No exponential value found");
    assert_eq!(
        text(Error::InvalidAfterLiteral),
        "NumericLiteral token must not be followed by IdentifierStart nor DecimalDigit characters"
    );
    assert_eq!(chars_of("héllo"), chars("héllo"));
    assert_eq!(chars_of(""), chars(""));
}
