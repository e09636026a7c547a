use expr_lexer::generate::{
    as_number_token, digit_to_char, even_number_at, operator_from_index,
    pad_with_random_whitespaces, random_decimal_string,
    random_digit, random_even_number_under, random_integer_string, random_non_zero_digit,
    random_number_token, random_operator, random_operator_token, random_valid_token_sequence,
    random_valid_token_sequence_with_replaced_number, render_tokens, token_list_to_string,
    token_to_string,
};
use expr_lexer::{
    tokenize, tokenize_with, ExpressionLexingError, LexingError, NumberLexingError, Numeral,
    OperatorKind, Profile, Token,
};
use rand::rngs::StdRng;
use rand::SeedableRng;

/// The number of times to repeat each test, for more stability
const REPEAT_COUNT: i32 = 1000;

fn assert_eq_with_input<T: std::fmt::Debug + PartialEq>(input: &str, expected: &T, actual: &T) {
    assert_eq!(expected, actual, "\n input: \"{}\"\n\n", input);
}

/// Helper function to repeat a test multiple times
fn repeat(mut test: impl FnMut()) {
    for _ in 0..REPEAT_COUNT {
        test();
    }
}

/// The tokens that are not spaces.
fn without_spaces(tokens: &[Token]) -> Vec<Token> {
    tokens.iter().filter(|t| **t != Token::Whitespace).cloned().collect()
}

fn count_spaces(text: &str) -> usize {
    text.chars().filter(|c| *c == ' ').count()
}

#[test]
fn test_analyze_single_digit_integer() {
    let mut rng = StdRng::seed_from_u64(1);
    repeat(|| {
        let number = random_integer_string(&mut rng, Some(1));
        let mut tokens = vec![as_number_token(&number)];
        let string = token_list_to_string(&mut rng, &mut tokens);

        let output = tokenize(&string);

        assert_eq_with_input(&string, &tokenize_with(&string, Profile::Strict), &output);
        assert_eq_with_input(&string, &output, &Ok(tokens));
    })
}

#[test]
fn test_analyze_multi_digit_integer() {
    let mut rng = StdRng::seed_from_u64(2);
    repeat(|| {
        let number = random_integer_string(&mut rng, None);
        let mut tokens = vec![as_number_token(&number)];
        let string = token_list_to_string(&mut rng, &mut tokens);

        let output = tokenize(&string);

        assert_eq_with_input(&string, &tokenize_with(&string, Profile::Strict), &output);
        assert_eq_with_input(&string, &output, &Ok(tokens));
    })
}

#[test]
fn test_analyze_single_digit_decimal() {
    let mut rng = StdRng::seed_from_u64(3);
    repeat(|| {
        let number = random_decimal_string(&mut rng, Some(1));
        let mut tokens = vec![as_number_token(&number)];
        let string = token_list_to_string(&mut rng, &mut tokens);

        let output = tokenize(&string);

        assert_eq_with_input(&string, &tokenize_with(&string, Profile::Strict), &output);
        assert_eq_with_input(&string, &output, &Ok(tokens));
    })
}

#[test]
fn test_analyze_multi_digit_decimal() {
    let mut rng = StdRng::seed_from_u64(4);
    repeat(|| {
        let number = random_decimal_string(&mut rng, None);
        let mut tokens = vec![as_number_token(&number)];
        let string = token_list_to_string(&mut rng, &mut tokens);

        let output = tokenize(&string);

        assert_eq_with_input(&string, &tokenize_with(&string, Profile::Strict), &output);
        assert_eq_with_input(&string, &output, &Ok(tokens));
    })
}

// The strict profile takes a point only after a single zero.
#[test]
fn test_non_zero_integer_part() {
    let mut rng = StdRng::seed_from_u64(5);
    repeat(|| {
        let invalid_number = format!(
            "{}.{}",
            random_integer_string(&mut rng, None),
            random_integer_string(&mut rng, None)
        );
        let string =
            random_valid_token_sequence_with_replaced_number(&mut rng, invalid_number.clone());

        let output = tokenize_with(&string, Profile::Strict);

        assert_eq_with_input(
            &string,
            &output,
            &Err(LexingError::IncorrectNumber(
                NumberLexingError::NonZeroIntegerBeforePoint,
            )),
        );

        // The canonical profile takes the number.
        let tokens = tokenize(&string)
            .unwrap_or_else(|e| panic!("\n input: \"{}\"\n error: {:?}", string, e));
        assert_eq_with_input(&string, &render_tokens(&tokens), &string);
        assert!(tokens.contains(&as_number_token(&invalid_number)), "\n input: \"{}\"\n\n", string);
    })
}

// The strict profile has an error of its own for a point that begins a
// number.
#[test]
fn test_decimal_without_integer_part() {
    let mut rng = StdRng::seed_from_u64(6);
    repeat(|| {
        let invalid_number = format!(".{}", random_integer_string(&mut rng, None));
        let string = random_valid_token_sequence_with_replaced_number(&mut rng, invalid_number);

        let output = tokenize_with(&string, Profile::Strict);

        assert_eq_with_input(
            &string,
            &output,
            &Err(LexingError::IncorrectNumber(
                NumberLexingError::MissingIntegerBeforePoint,
            )),
        );

        // To the canonical profile the point is a character that cannot
        // come where a number begins.
        assert_eq_with_input(
            &string,
            &tokenize(&string),
            &Err(LexingError::IncorrectExpression(
                ExpressionLexingError::UnexpectedCharacter('.'),
            )),
        );
    })
}

// The strict profile takes no digit after a leading zero.
#[test]
fn test_integer_starting_with_zero() {
    let mut rng = StdRng::seed_from_u64(7);
    repeat(|| {
        let invalid_number = format!("0{}", random_integer_string(&mut rng, None));
        let string =
            random_valid_token_sequence_with_replaced_number(&mut rng, invalid_number.clone());

        let output = tokenize_with(&string, Profile::Strict);

        assert_eq_with_input(
            &string,
            &output,
            &Err(LexingError::IncorrectNumber(
                NumberLexingError::ExpectedPointAfterZero,
            )),
        );

        // The canonical profile takes leading zeros.
        let tokens = tokenize(&string)
            .unwrap_or_else(|e| panic!("\n input: \"{}\"\n error: {:?}", string, e));
        assert_eq_with_input(&string, &render_tokens(&tokens), &string);
        assert!(tokens.contains(&as_number_token(&invalid_number)), "\n input: \"{}\"\n\n", string);
    })
}

#[test]
fn test_decimal_without_decimal_part() {
    let mut rng = StdRng::seed_from_u64(8);
    repeat(|| {
        let invalid_number = "0.".to_string();
        let string = random_valid_token_sequence_with_replaced_number(&mut rng, invalid_number);

        let output = tokenize(&string);

        assert_eq_with_input(
            &string,
            &output,
            &Err(LexingError::IncorrectNumber(
                NumberLexingError::ExpectedDigitAfterPoint,
            )),
        );
        assert_eq_with_input(&string, &tokenize_with(&string, Profile::Strict), &output);
    })
}

/// Two random numbers joined by `operator`, with random spaces: the lexer
/// gives the three tokens in their order, and one token for each space.
fn check_simple(rng: &mut StdRng, operator: OperatorKind) {
    let mut tokens = vec![
        random_number_token(rng),
        Token::Operator(operator),
        random_number_token(rng),
    ];
    let unspaced = tokens.clone();
    let string = token_list_to_string(rng, &mut tokens);

    let output = tokenize(&string);

    assert_eq_with_input(&string, &tokenize_with(&string, Profile::Strict), &output);
    assert_eq_with_input(&string, &output, &Ok(tokens));
    let output = output.unwrap();
    assert_eq_with_input(&string, &without_spaces(&output), &unspaced);
    assert_eq_with_input(&string, &(output.len() - unspaced.len()), &count_spaces(&string));
}

#[test]
fn test_simple_plus() {
    let mut rng = StdRng::seed_from_u64(9);
    repeat(|| check_simple(&mut rng, OperatorKind::Add))
}

#[test]
fn test_simple_minus() {
    let mut rng = StdRng::seed_from_u64(10);
    repeat(|| check_simple(&mut rng, OperatorKind::Subtract))
}

#[test]
fn test_simple_multiply() {
    let mut rng = StdRng::seed_from_u64(11);
    repeat(|| check_simple(&mut rng, OperatorKind::Multiply))
}

#[test]
fn test_simple_divide() {
    let mut rng = StdRng::seed_from_u64(12);
    repeat(|| check_simple(&mut rng, OperatorKind::Divide))
}

// Where a number is owed, the end of the input is reported as such, and a
// character that is no digit as that character.
#[test]
fn test_expected_number_error() {
    let strings = vec![
        ("1+", ExpressionLexingError::UnexpectedEOI),
        (" 1 - ", ExpressionLexingError::UnexpectedCharacter(' ')),
        ("", ExpressionLexingError::UnexpectedEOI),
        (" / 5 ", ExpressionLexingError::UnexpectedCharacter(' ')),
        ("* 5 ", ExpressionLexingError::UnexpectedCharacter('*')),
    ];

    for (string, error) in strings.into_iter() {
        let output = tokenize(string);

        assert_eq_with_input(string, &output, &Err(LexingError::IncorrectExpression(error)));
        assert_eq_with_input(string, &tokenize_with(string, Profile::Strict), &output);
    }
}

// Where an operator is owed, a digit is reported as an unexpected character.
#[test]
fn test_expected_operator_error() {
    let strings = vec![("1 0.2", '0'), (" 0.3 2", ' ')];

    for (string, c) in strings.into_iter() {
        let output = tokenize(string);

        assert_eq_with_input(
            string,
            &output,
            &Err(LexingError::IncorrectExpression(
                ExpressionLexingError::UnexpectedCharacter(c),
            )),
        );
        assert_eq_with_input(string, &tokenize_with(string, Profile::Strict), &output);
    }
}

// ===================
// The generator itself
// ===================

#[test]
fn digits_are_written_as_their_characters() {
    let expected = ['0', '1', '2', '3', '4', '5', '6', '7', '8', '9'];
    for digit in 0..10 {
        assert_eq!(digit_to_char(digit), expected[digit]);
    }
}

#[test]
fn random_digits_cover_their_range_and_stay_in_it() {
    let mut rng = StdRng::seed_from_u64(13);
    let mut seen = [false; 10];
    let mut seen_non_zero = [false; 10];
    repeat(|| {
        let c = random_digit(&mut rng);
        assert!(('0'..='9').contains(&c));
        seen[c as usize - '0' as usize] = true;
        let c = random_non_zero_digit(&mut rng);
        assert!(('1'..='9').contains(&c));
        seen_non_zero[c as usize - '0' as usize] = true;
    });
    assert_eq!(seen, [true; 10]);
    assert!(!seen_non_zero[0]);
    assert_eq!(seen_non_zero[1..], [true; 9]);
}

#[test]
fn random_operators_cover_all_four() {
    let mut rng = StdRng::seed_from_u64(14);
    let mut seen = Vec::new();
    repeat(|| {
        let kind = random_operator(&mut rng);
        if !seen.contains(&kind) {
            seen.push(kind);
        }
        assert!(matches!(random_operator_token(&mut rng), Token::Operator(_)));
    });
    assert_eq!(seen.len(), 4);
}

#[test]
fn random_integer_strings_have_the_length_asked_for() {
    let mut rng = StdRng::seed_from_u64(15);
    assert_eq!(random_integer_string(&mut rng, Some(0)), "");
    let mut lengths = [0; 5];
    repeat(|| {
        for len in 1..8 {
            let s = random_integer_string(&mut rng, Some(len));
            assert_eq!(s.len(), len);
            assert!(s.chars().all(|c| c.is_ascii_digit()));
            assert!(!s.starts_with('0'));
        }
        let s = random_integer_string(&mut rng, None);
        assert!((1..=4).contains(&s.len()));
        assert!(s.chars().all(|c| c.is_ascii_digit()));
        assert!(!s.starts_with('0'));
        lengths[s.len()] += 1;
    });
    assert_eq!(lengths[0], 0);
    assert!(lengths[1..].iter().all(|n| *n > 0));
}

#[test]
fn random_decimal_strings_begin_with_zero_and_a_point() {
    let mut rng = StdRng::seed_from_u64(16);
    assert_eq!(random_decimal_string(&mut rng, Some(0)), "0.");
    repeat(|| {
        let s = random_decimal_string(&mut rng, Some(3));
        assert_eq!(s.len(), 5);
        assert!(s.starts_with("0."));
        assert!(s[2..].chars().all(|c| c.is_ascii_digit()));
        assert!(!s[2..].starts_with('0'));
        let s = random_decimal_string(&mut rng, None);
        assert!((3..=6).contains(&s.len()));
        assert!(s.starts_with("0."));
        assert!(Numeral::parse(&s).is_some());
    });
}

#[test]
fn number_tokens_are_read_from_literals() {
    assert_eq!(as_number_token("12.50"), Token::Number(Numeral::parse("12.50").unwrap()));
    assert_eq!(token_to_string(&as_number_token("0016")), "0016");
    let mut rng = StdRng::seed_from_u64(17);
    let mut decimals = 0;
    repeat(|| {
        let token = random_number_token(&mut rng);
        let text = token_to_string(&token);
        assert_eq!(as_number_token(&text), token);
        if text.starts_with("0.") {
            decimals += 1;
        } else {
            assert!(!text.contains('.'));
            assert!(!text.starts_with('0'));
        }
    });
    assert!(decimals > 0 && decimals < REPEAT_COUNT);
}

#[test]
fn tokens_are_written_as_their_text() {
    assert_eq!(token_to_string(&Token::Operator(OperatorKind::Add)), "+");
    assert_eq!(token_to_string(&Token::Operator(OperatorKind::Subtract)), "-");
    assert_eq!(token_to_string(&Token::Operator(OperatorKind::Multiply)), "*");
    assert_eq!(token_to_string(&Token::Operator(OperatorKind::Divide)), "/");
    assert_eq!(token_to_string(&Token::Whitespace), " ");
    assert_eq!(token_to_string(&as_number_token("3.25")), "3.25");
    let tokens = vec![
        as_number_token("1.5"),
        Token::Whitespace,
        Token::Operator(OperatorKind::Multiply),
        as_number_token("002"),
        Token::Whitespace,
        Token::Whitespace,
    ];
    assert_eq!(render_tokens(&tokens), "1.5 *002  ");
    assert_eq!(render_tokens(&[].to_vec()), "");
}

#[test]
fn random_sequences_are_numbers_joined_by_operators() {
    let mut rng = StdRng::seed_from_u64(18);
    assert_eq!(random_valid_token_sequence(&mut rng, Some(0)), vec![]);
    repeat(|| {
        for count in 1..5 {
            let tokens = random_valid_token_sequence(&mut rng, Some(count));
            assert_eq!(tokens.len(), 2 * count - 1);
            for (i, token) in tokens.iter().enumerate() {
                if i % 2 == 0 {
                    assert!(matches!(token, Token::Number(_)));
                } else {
                    assert!(matches!(token, Token::Operator(_)));
                }
            }
            let string = render_tokens(&tokens);
            let strict = tokenize_with(&string, Profile::Strict);
            assert_eq_with_input(&string, &strict, &Ok(tokens.clone()));
            assert_eq_with_input(&string, &tokenize(&string), &Ok(tokens));
        }
        let tokens = random_valid_token_sequence(&mut rng, None);
        assert!([1, 3, 5, 7].contains(&tokens.len()));
    });
}

#[test]
fn padding_puts_one_space_fewer_than_tokens_between_them() {
    let mut rng = StdRng::seed_from_u64(19);
    let mut empty: Vec<Token> = vec![];
    pad_with_random_whitespaces(&mut rng, &mut empty);
    assert_eq!(empty, vec![]);
    let mut single = vec![as_number_token("1")];
    pad_with_random_whitespaces(&mut rng, &mut single);
    assert_eq!(single, vec![as_number_token("1")]);
    let mut at_the_end = 0;
    repeat(|| {
        let unspaced = random_valid_token_sequence(&mut rng, Some(3));
        let mut tokens = unspaced.clone();
        pad_with_random_whitespaces(&mut rng, &mut tokens);
        assert_eq!(tokens.len(), 2 * unspaced.len() - 1);
        assert_eq!(without_spaces(&tokens), unspaced);
        assert_eq!(tokens[0], unspaced[0]);
        if tokens[tokens.len() - 1] == Token::Whitespace {
            at_the_end += 1;
        }
        let string = render_tokens(&tokens);
        assert_eq!(count_spaces(&string), unspaced.len() - 1);
        assert_eq_with_input(&string, &tokenize(&string), &Ok(tokens));
    });
    assert_eq!(at_the_end, 0);
}

#[test]
fn random_even_numbers_are_even_and_below_the_bound() {
    let mut rng = StdRng::seed_from_u64(20);
    assert_eq!(random_even_number_under(&mut rng, 1), 0);
    assert_eq!(random_even_number_under(&mut rng, 2), 0);
    let mut seen = [false; 7];
    repeat(|| {
        for before in 1..8 {
            let n = random_even_number_under(&mut rng, before);
            assert_eq!(n % 2, 0);
            assert!(n < before);
        }
        seen[random_even_number_under(&mut rng, 7)] = true;
    });
    assert_eq!(seen, [true, false, true, false, true, false, true]);
}

#[test]
fn a_replaced_number_stands_where_a_number_stood() {
    let mut rng = StdRng::seed_from_u64(21);
    repeat(|| {
        let string = random_valid_token_sequence_with_replaced_number(&mut rng, "#".to_string());
        assert_eq!(string.matches('#').count(), 1);
        // Written as a number again, the text is an expression.
        let restored = string.replace('#', "1");
        let tokens = tokenize(&restored).unwrap();
        assert_eq!(render_tokens(&tokens), restored);
        let spaces = count_spaces(&string);
        assert_eq!(without_spaces(&tokens).len(), spaces + 1);
        assert!(!string.starts_with(' ') && !string.ends_with(' '));
    });
}

#[test]
fn the_same_seed_gives_the_same_expression() {
    let mut first = StdRng::seed_from_u64(22);
    let mut second = StdRng::seed_from_u64(22);
    repeat(|| {
        let mut a = random_valid_token_sequence(&mut first, None);
        let mut b = random_valid_token_sequence(&mut second, None);
        assert_eq!(
            token_list_to_string(&mut first, &mut a),
            token_list_to_string(&mut second, &mut b)
        );
        assert_eq!(a, b);
    });
}

#[test]
fn operators_stand_at_their_places() {
    assert_eq!(operator_from_index(0), OperatorKind::Subtract);
    assert_eq!(operator_from_index(1), OperatorKind::Add);
    assert_eq!(operator_from_index(2), OperatorKind::Divide);
    assert_eq!(operator_from_index(3), OperatorKind::Multiply);
}

#[test]
fn even_numbers_stand_at_their_places() {
    assert_eq!(even_number_at(0), 0);
    assert_eq!(even_number_at(1), 2);
    assert_eq!(even_number_at(2), 4);
    assert_eq!(even_number_at(21), 42);
    assert_eq!(even_number_at(usize::MAX / 2), usize::MAX - 1);
}
