use expr_lexer::{
    get_operator_kind, is_digit, ExpressionLexingError, Lexer, LexingError, NumberLexingError,
    Numeral, OperatorKind, Profile, Token,
};

fn number(text: &str) -> Token {
    Token::Number(Numeral::parse(text).unwrap())
}

fn unexpected(c: char) -> LexingError {
    LexingError::IncorrectExpression(ExpressionLexingError::UnexpectedCharacter(c))
}

const UNEXPECTED_EOI: LexingError =
    LexingError::IncorrectExpression(ExpressionLexingError::UnexpectedEOI);

const EXPECTED_DIGIT: LexingError =
    LexingError::IncorrectNumber(NumberLexingError::ExpectedDigitAfterPoint);

/// A lexer that has been fed the characters of `text`, none of which may
/// make an error.
fn fed(text: &str) -> Lexer {
    let mut lexer = Lexer::new();
    for c in text.chars() {
        lexer.feed(Some(c)).unwrap();
    }
    lexer
}

#[test]
fn a_new_lexer_has_not_ended() {
    assert!(!Lexer::new().is_ended());
}

#[test]
fn tokens_are_handed_out_one_step_late() {
    let mut lexer = Lexer::new();
    assert_eq!(lexer.feed(Some('1')), Ok(None));
    assert_eq!(lexer.feed(Some('2')), Ok(None));
    // The number is handed out when the operator ends it.
    assert_eq!(lexer.feed(Some('+')), Ok(Some(number("12"))));
    // The operator is handed out with the character after it.
    assert_eq!(lexer.feed(Some(' ')), Ok(Some(Token::Operator(OperatorKind::Add))));
    assert_eq!(lexer.feed(Some(' ')), Ok(Some(Token::Whitespace)));
    assert_eq!(lexer.feed(Some('3')), Ok(Some(Token::Whitespace)));
    assert_eq!(lexer.feed(Some('.')), Ok(None));
    assert_eq!(lexer.feed(Some('5')), Ok(None));
    assert_eq!(lexer.feed(Some(' ')), Ok(Some(number("3.5"))));
    assert_eq!(lexer.feed(Some(' ')), Ok(Some(Token::Whitespace)));
    assert_eq!(lexer.feed(Some('*')), Ok(Some(Token::Whitespace)));
    assert_eq!(lexer.feed(Some('4')), Ok(Some(Token::Operator(OperatorKind::Multiply))));
    assert!(!lexer.is_ended());
    assert_eq!(lexer.feed(None), Ok(Some(number("4"))));
    assert!(lexer.is_ended());
}

#[test]
fn initial_state() {
    assert_eq!(fed("").feed(Some('5')), Ok(None));
    assert_eq!(fed("").feed(None), Err(UNEXPECTED_EOI));
    for c in [' ', '+', '-', '*', '/', '.', 'a'] {
        assert_eq!(fed("").feed(Some(c)), Err(unexpected(c)));
    }
}

#[test]
fn digits_before_the_point() {
    assert_eq!(fed("12").feed(Some('3')), Ok(None));
    assert_eq!(fed("12").feed(Some('.')), Ok(None));
    assert_eq!(fed("12").feed(Some(' ')), Ok(Some(number("12"))));
    assert_eq!(fed("12").feed(Some('/')), Ok(Some(number("12"))));
    assert_eq!(fed("12").feed(None), Ok(Some(number("12"))));
    assert_eq!(fed("12").feed(Some('a')), Err(unexpected('a')));
}

#[test]
fn after_the_point_a_digit_must_come() {
    assert_eq!(fed("12.").feed(Some('3')), Ok(None));
    assert_eq!(fed("12.").feed(None), Err(EXPECTED_DIGIT));
    for c in [' ', '+', '-', '*', '/', '.', 'a'] {
        assert_eq!(fed("12.").feed(Some(c)), Err(EXPECTED_DIGIT));
    }
}

#[test]
fn digits_after_the_point() {
    assert_eq!(fed("12.3").feed(Some('4')), Ok(None));
    assert_eq!(fed("12.3").feed(Some('.')), Err(unexpected('.')));
    assert_eq!(fed("12.3").feed(Some(' ')), Ok(Some(number("12.3"))));
    assert_eq!(fed("12.3").feed(Some('-')), Ok(Some(number("12.3"))));
    assert_eq!(fed("12.3").feed(None), Ok(Some(number("12.3"))));
    assert_eq!(fed("12.3").feed(Some('a')), Err(unexpected('a')));
}

#[test]
fn spaces_after_a_number() {
    assert_eq!(fed("1 ").feed(Some(' ')), Ok(Some(Token::Whitespace)));
    assert_eq!(fed("1 ").feed(Some('*')), Ok(Some(Token::Whitespace)));
    assert_eq!(fed("1 ").feed(None), Ok(Some(Token::Whitespace)));
    assert_eq!(fed("1 ").feed(Some('2')), Err(unexpected('2')));
    assert_eq!(fed("1 ").feed(Some('.')), Err(unexpected('.')));
    assert_eq!(fed("1 ").feed(Some('a')), Err(unexpected('a')));
}

#[test]
fn after_an_operator() {
    for (c, kind) in [
        ('+', OperatorKind::Add),
        ('-', OperatorKind::Subtract),
        ('*', OperatorKind::Multiply),
        ('/', OperatorKind::Divide),
    ] {
        let text = format!("1{}", c);
        assert_eq!(fed(&text).feed(Some(' ')), Ok(Some(Token::Operator(kind))));
        assert_eq!(fed(&text).feed(Some('2')), Ok(Some(Token::Operator(kind))));
        assert_eq!(fed(&text).feed(None), Err(UNEXPECTED_EOI));
        assert_eq!(fed(&text).feed(Some('+')), Err(unexpected('+')));
        assert_eq!(fed(&text).feed(Some('.')), Err(unexpected('.')));
        assert_eq!(fed(&text).feed(Some('a')), Err(unexpected('a')));
    }
}

#[test]
fn spaces_after_an_operator() {
    assert_eq!(fed("1+ ").feed(Some(' ')), Ok(Some(Token::Whitespace)));
    assert_eq!(fed("1+ ").feed(Some('2')), Ok(Some(Token::Whitespace)));
    assert_eq!(fed("1+ ").feed(None), Err(UNEXPECTED_EOI));
    assert_eq!(fed("1+ ").feed(Some('+')), Err(unexpected('+')));
    assert_eq!(fed("1+ ").feed(Some('.')), Err(unexpected('.')));
    assert_eq!(fed("1+ ").feed(Some('a')), Err(unexpected('a')));
}

#[test]
fn after_the_end_nothing_changes() {
    let mut lexer = fed("1+2");
    assert_eq!(lexer.feed(None), Ok(Some(number("2"))));
    assert!(lexer.is_ended());
    for c in [Some('1'), Some('+'), Some(' '), Some('.'), Some('a'), None, None] {
        assert_eq!(lexer.feed(c), Ok(None));
        assert!(lexer.is_ended());
    }
}

#[test]
fn after_an_error_nothing_changes() {
    for (text, bad, error) in [
        ("", Some('x'), unexpected('x')),
        ("", None, UNEXPECTED_EOI),
        ("1.", Some(' '), EXPECTED_DIGIT),
        ("1.", None, EXPECTED_DIGIT),
        ("12", Some('x'), unexpected('x')),
        ("1 ", Some('2'), unexpected('2')),
        ("1+", None, UNEXPECTED_EOI),
        ("1+ ", Some('+'), unexpected('+')),
    ] {
        let mut lexer = fed(text);
        assert_eq!(lexer.feed(bad), Err(error));
        for c in [Some('1'), Some('+'), Some(' '), Some('.'), Some('a'), None, None, Some('1')] {
            assert_eq!(lexer.feed(c), Ok(None));
            assert!(!lexer.is_ended());
        }
    }
}

#[test]
fn stopping_without_the_end_of_input_does_not_end() {
    let lexer = fed("1 + 2");
    assert!(!lexer.is_ended());
}

#[test]
fn digits_are_the_ten_ascii_digits() {
    for c in '0'..='9' {
        assert!(is_digit(c));
    }
    for c in ['/', ':', 'a', ' ', '.', '٣', '\u{0}'] {
        assert!(!is_digit(c));
    }
}

#[test]
fn operators_are_read_from_their_symbols() {
    assert_eq!(get_operator_kind('-'), Some(OperatorKind::Subtract));
    assert_eq!(get_operator_kind('+'), Some(OperatorKind::Add));
    assert_eq!(get_operator_kind('/'), Some(OperatorKind::Divide));
    assert_eq!(get_operator_kind('*'), Some(OperatorKind::Multiply));
    for c in ['0', ' ', '.', '%', '^', 'x'] {
        assert_eq!(get_operator_kind(c), None);
    }
}

// ===================
// The strict profile
// ===================

/// A strict lexer that has been fed the characters of `text`, none of which
/// may make an error.
fn fed_strict(text: &str) -> Lexer {
    let mut lexer = Lexer::with_profile(Profile::Strict);
    for c in text.chars() {
        lexer.feed(Some(c)).unwrap();
    }
    lexer
}

const EXPECTED_POINT: LexingError =
    LexingError::IncorrectNumber(NumberLexingError::ExpectedPointAfterZero);

const NON_ZERO_BEFORE_POINT: LexingError =
    LexingError::IncorrectNumber(NumberLexingError::NonZeroIntegerBeforePoint);

const MISSING_INTEGER: LexingError =
    LexingError::IncorrectNumber(NumberLexingError::MissingIntegerBeforePoint);

#[test]
fn the_canonical_profile_is_the_one_of_a_new_lexer() {
    let mut new = Lexer::new();
    let mut canonical = Lexer::with_profile(Profile::Canonical);
    for c in "007.50".chars() {
        assert_eq!(new.feed(Some(c)), Ok(None));
        assert_eq!(canonical.feed(Some(c)), Ok(None));
    }
    assert_eq!(new.feed(None), Ok(Some(number("007.50"))));
    assert_eq!(canonical.feed(None), Ok(Some(number("007.50"))));
}

#[test]
fn strict_a_point_cannot_begin_a_number() {
    assert_eq!(fed_strict("").feed(Some('.')), Err(MISSING_INTEGER));
    assert_eq!(fed_strict("1+").feed(Some('.')), Err(MISSING_INTEGER));
    assert_eq!(fed_strict("1+ ").feed(Some('.')), Err(MISSING_INTEGER));
    // Where no number begins, a point is an unexpected character.
    assert_eq!(fed_strict("1 ").feed(Some('.')), Err(unexpected('.')));
    // Other characters are reported as in the canonical profile.
    assert_eq!(fed_strict("").feed(Some('+')), Err(unexpected('+')));
    assert_eq!(fed_strict("1+").feed(Some('x')), Err(unexpected('x')));
    assert_eq!(fed_strict("").feed(None), Err(UNEXPECTED_EOI));
}

#[test]
fn strict_a_leading_zero_takes_no_digit() {
    assert_eq!(fed_strict("0").feed(Some('0')), Err(EXPECTED_POINT));
    assert_eq!(fed_strict("0").feed(Some('7')), Err(EXPECTED_POINT));
    assert_eq!(fed_strict("1+0").feed(Some('7')), Err(EXPECTED_POINT));
    assert_eq!(fed_strict("0").feed(Some('.')), Ok(None));
    assert_eq!(fed_strict("0").feed(Some(' ')), Ok(Some(number("0"))));
    assert_eq!(fed_strict("0").feed(Some('+')), Ok(Some(number("0"))));
    assert_eq!(fed_strict("0").feed(None), Ok(Some(number("0"))));
    // A zero that does not lead is a digit like any other.
    assert_eq!(fed_strict("10").feed(Some('0')), Ok(None));
    assert_eq!(fed_strict("100").feed(None), Ok(Some(number("100"))));
}

#[test]
fn strict_a_point_comes_after_a_single_zero_only() {
    assert_eq!(fed_strict("1").feed(Some('.')), Err(NON_ZERO_BEFORE_POINT));
    assert_eq!(fed_strict("10").feed(Some('.')), Err(NON_ZERO_BEFORE_POINT));
    assert_eq!(fed_strict("0.5").feed(Some('.')), Err(NON_ZERO_BEFORE_POINT));
    assert_eq!(fed_strict("0.").feed(Some('5')), Ok(None));
    assert_eq!(fed_strict("0.").feed(Some('.')), Err(EXPECTED_DIGIT));
    assert_eq!(fed_strict("0.").feed(None), Err(EXPECTED_DIGIT));
    assert_eq!(fed_strict("0.50").feed(None), Ok(Some(number("0.50"))));
    assert_eq!(fed_strict("0.5").feed(Some('/')), Ok(Some(number("0.5"))));
}

#[test]
fn strict_after_an_error_nothing_changes() {
    for (text, bad, error) in [
        ("", Some('.'), MISSING_INTEGER),
        ("0", Some('1'), EXPECTED_POINT),
        ("12", Some('.'), NON_ZERO_BEFORE_POINT),
    ] {
        let mut lexer = fed_strict(text);
        assert_eq!(lexer.feed(bad), Err(error));
        for c in [Some('1'), Some('+'), Some(' '), Some('.'), None, Some('1')] {
            assert_eq!(lexer.feed(c), Ok(None));
            assert!(!lexer.is_ended());
        }
    }
}
