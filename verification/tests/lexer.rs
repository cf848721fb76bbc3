use horse::lexer::describe;
use horse::lexer::Float;
use horse::lexer::LexError;
use horse::lexer::Operator;
use horse::lexer::PartialToken;
use horse::lexer::Token;

fn float(value: f64) -> Float {
    Float(value.to_bits())
}

fn read_float(written: String) -> Option<Float> {
    written.parse::<f64>().ok().map(float)
}

fn tokenize(source: &str) -> Result<Vec<Token>, String> {
    horse::lexer::tokenize(source, read_float)
}

#[test]
fn tokenizer_simple_number() -> Result<(), String> {
    let result = tokenize("2")?;
    assert_eq!(result, [Token::LiteralInteger(2)]);
    Ok(())
}
#[test]
fn tokenizer_bigger_number() -> Result<(), String> {
    let result = tokenize("22")?;
    assert_eq!(result, [Token::LiteralInteger(22)]);
    Ok(())
}
#[test]
fn tokenizer_decimal_number() -> Result<(), String> {
    let result = tokenize("22.321")?;
    assert_eq!(result, [Token::LiteralFloat(float(22.321))]);
    Ok(())
}

#[test]
fn tokenizer_decimal_exponent_number() -> Result<(), String> {
    let result = tokenize("22.22e2")?;
    assert_eq!(result, [Token::LiteralFloat(float(22.22e2))]);
    Ok(())
}
#[test]
fn tokenizer_operator() -> Result<(), String> {
    let result = tokenize("+")?;
    assert_eq!(result, [Token::Operator(Operator::Plus)]);
    Ok(())
}

#[test]
fn tokenizer_number_space_operator() -> Result<(), String> {
    let result = tokenize("6 +")?;
    assert_eq!(
        result,
        [Token::LiteralInteger(6), Token::Operator(Operator::Plus)]
    );
    Ok(())
}

#[test]
fn tokenizer_number_space_operator_space_operator() -> Result<(), String> {
    let result = tokenize("6 + +")?;
    assert_eq!(
        result,
        [
            Token::LiteralInteger(6),
            Token::Operator(Operator::Plus),
            Token::Operator(Operator::Plus)
        ]
    );
    Ok(())
}

#[test]
fn tokenizer_not_equals() -> Result<(), String> {
    let result = tokenize("10 != 12")?;
    assert_eq!(
        result,
        [
            Token::LiteralInteger(10),
            Token::Operator(Operator::NotEquals),
            Token::LiteralInteger(12),
        ]
    );
    Ok(())
}

#[test]
fn tokenizer_unrecognized_token() -> Result<(), &'static str> {
    let result = tokenize("10 # 12");
    return match result {
        Ok(_) => Err("Operator # doesnt exist and shouldn't be tokenized"),
        Err(_) => Ok(()),
    };
}

#[test]
fn tokenizer_many_operators() -> Result<(), String> {
    let result = tokenize("10 + - / * << >> != == -12")?;
    assert_eq!(
        result,
        [
            Token::LiteralInteger(10),
            Token::Operator(Operator::Plus),
            Token::Operator(Operator::Minus),
            Token::Operator(Operator::Divide),
            Token::Operator(Operator::Multiply),
            Token::Operator(Operator::BitShiftLeft),
            Token::Operator(Operator::BitShiftRight),
            Token::Operator(Operator::NotEquals),
            Token::Operator(Operator::Equals),
            Token::Operator(Operator::Minus),
            Token::LiteralInteger(12),
        ]
    );
    Ok(())
}

#[test]
fn tokenizer_number_space_operator_space_number() -> Result<(), String> {
    let result = tokenize("6 + 6")?;
    assert_eq!(
        result,
        [
            Token::LiteralInteger(6),
            Token::Operator(Operator::Plus),
            Token::LiteralInteger(6),
        ]
    );
    Ok(())
}

#[test]
fn tokenizer_number_space_operator_lots_of_space_number() -> Result<(), String> {
    let result = tokenize("6         +                                6.2312e99")?;
    assert_eq!(
        result,
        [
            Token::LiteralInteger(6),
            Token::Operator(Operator::Plus),
            Token::LiteralFloat(float(6.2312e99)),
        ]
    );
    Ok(())
}

#[test]
fn tokenizer_number_operator_number() -> Result<(), String> {
    let result = tokenize("6+6")?;
    assert_eq!(
        result,
        [
            Token::LiteralInteger(6),
            Token::Operator(Operator::Plus),
            Token::LiteralInteger(6),
        ]
    );
    Ok(())
}

#[test]
fn tokenizer_space_corner_cases() -> Result<(), String> {
    let result = tokenize("   6         +             6.2312e99   ")?;
    assert_eq!(
        result,
        [
            Token::LiteralInteger(6),
            Token::Operator(Operator::Plus),
            Token::LiteralFloat(float(6.2312e99)),
        ]
    );
    Ok(())
}

#[test]
fn tokenier_openparen() -> Result<(), String> {
    let result = tokenize("(")?;
    assert_eq!(result, [Token::Operator(Operator::OpenParen)]);
    Ok(())
}

#[test]
fn tokenier_closeparen() -> Result<(), String> {
    let result = tokenize(")")?;
    assert_eq!(result, [Token::Operator(Operator::CloseParen)]);
    Ok(())
}

#[test]
fn tokenier_opencloseparen() -> Result<(), String> {
    let result = tokenize("()")?;
    assert_eq!(
        result,
        [
            Token::Operator(Operator::OpenParen),
            Token::Operator(Operator::CloseParen)
        ]
    );
    Ok(())
}

#[test]
fn tokenier_opencloseparen_with_expr() -> Result<(), String> {
    let result = tokenize("(1 + 2) * 3")?;
    assert_eq!(
        result,
        [
            Token::Operator(Operator::OpenParen),
            Token::LiteralInteger(1),
            Token::Operator(Operator::Plus),
            Token::LiteralInteger(2),
            Token::Operator(Operator::CloseParen),
            Token::Operator(Operator::Multiply),
            Token::LiteralInteger(3)
        ]
    );
    Ok(())
}

#[test]
fn tokenizer_identifier() -> Result<(), String> {
    let result = tokenize("some_identifier")?;
    assert_eq!(result, [Token::Identifier(String::from("some_identifier"))]);
    Ok(())
}

#[test]
fn tokenizer_function_call() -> Result<(), String> {
    let result = tokenize("some_identifier(1)")?;
    assert_eq!(
        result,
        [
            Token::Identifier(String::from("some_identifier")),
            Token::Operator(Operator::OpenParen),
            Token::LiteralInteger(1),
            Token::Operator(Operator::CloseParen)
        ]
    );
    Ok(())
}

#[test]
fn assign_operator() -> Result<(), String> {
    let result = tokenize("x = 1")?;
    assert_eq!(
        result,
        [
            Token::Identifier(String::from("x")),
            Token::Assign,
            Token::LiteralInteger(1)
        ]
    );
    Ok(())
}

#[test]
fn none() -> Result<(), String> {
    let result = tokenize("None")?;
    assert_eq!(result, [Token::NoneValue]);
    Ok(())
}

#[test]
fn boolean_tokens() -> Result<(), String> {
    let result = tokenize("not True and False or ^")?;
    assert_eq!(
        result,
        [
            Token::Operator(Operator::Not),
            Token::True,
            Token::Operator(Operator::And),
            Token::False,
            Token::Operator(Operator::Or),
            Token::Operator(Operator::Xor)
        ]
    );
    Ok(())
}

#[test]
fn string_literal() -> Result<(), String> {
    let result = tokenize("'abc'")?;
    assert_eq!(
        result,
        [
            Token::LiteralString(String::from("abc"))
        ]
    );
    Ok(())
}

#[test]
fn string_literal_doublequotes() -> Result<(), String> {
    let result = tokenize("\"abc\"")?;
    assert_eq!(
        result,
        [
            Token::LiteralString(String::from("abc"))
        ]
    );
    Ok(())
}

#[test]
fn string_literal_escapedouble() -> Result<(), String> {
    let result = tokenize("\"a\\\"b\\\"c\"")?;
    assert_eq!(
        result,
        [
            Token::LiteralString(String::from("a\"b\"c"))
        ]
    );
    Ok(())
}

#[test]
fn string_literal_escapesingle() -> Result<(), String> {
    let result = tokenize("\'a\\'b\\'c\'")?;
    assert_eq!(
        result,
        [
            Token::LiteralString(String::from("a'b'c"))
        ]
    );
    Ok(())
}

#[test]
fn tokenize_if() -> Result<(), String> {
    let result = tokenize("if x == 0:
    x = x + 1")?;
    assert_eq!(
        result,
        [
            Token::IfKeyword,
            Token::Identifier(String::from("x")),
            Token::Operator(Operator::Equals),
            Token::LiteralInteger(0),
            Token::Colon,
            Token::NewLine,
            Token::Indentation,
            Token::Identifier(String::from("x")),
            Token::Assign,
            Token::Identifier(String::from("x")),
            Token::Operator(Operator::Plus),
            Token::LiteralInteger(1)
        ]
    );
    Ok(())
}

#[test]
fn tokenizer_modulus_operator() -> Result<(), String> {
    let result = tokenize("7 % 2")?;
    assert_eq!(
        result,
        [
            Token::LiteralInteger(7),
            Token::Operator(Operator::Mod),
            Token::LiteralInteger(2),
        ]
    );
    Ok(())
}

#[test]
fn tokenizer_keywords() -> Result<(), String> {
    let result = tokenize("if elif else while break iffy")?;
    assert_eq!(
        result,
        [
            Token::IfKeyword,
            Token::ElifKeyword,
            Token::ElseKeyword,
            Token::WhileKeyword,
            Token::BreakKeyword,
            Token::Identifier(String::from("iffy")),
        ]
    );
    Ok(())
}

#[test]
fn tokenizer_comparison_operators_take_the_longest_spelling() -> Result<(), String> {
    let result = tokenize("a <= b >= c < d > e = f")?;
    assert_eq!(
        result,
        [
            Token::Identifier(String::from("a")),
            Token::Operator(Operator::LessEquals),
            Token::Identifier(String::from("b")),
            Token::Operator(Operator::GreaterEquals),
            Token::Identifier(String::from("c")),
            Token::Operator(Operator::Less),
            Token::Identifier(String::from("d")),
            Token::Operator(Operator::Greater),
            Token::Identifier(String::from("e")),
            Token::Assign,
            Token::Identifier(String::from("f")),
        ]
    );
    Ok(())
}

#[test]
fn tokenizer_operator_at_end_of_text() -> Result<(), String> {
    assert_eq!(
        tokenize("a <")?,
        [Token::Identifier(String::from("a")), Token::Operator(Operator::Less)]
    );
    assert_eq!(tokenize("x =")?, [Token::Identifier(String::from("x")), Token::Assign]);
    Ok(())
}

#[test]
fn tokenizer_indentation_levels() -> Result<(), String> {
    let result = tokenize("a\n        b\n    c")?;
    assert_eq!(
        result,
        [
            Token::Identifier(String::from("a")),
            Token::NewLine,
            Token::Indentation,
            Token::Indentation,
            Token::Identifier(String::from("b")),
            Token::NewLine,
            Token::Indentation,
            Token::Identifier(String::from("c")),
        ]
    );
    Ok(())
}

#[test]
fn tokenizer_rejects_indentation_that_is_no_multiple_of_four() {
    assert_eq!(
        tokenize("a\n   b"),
        Err(String::from("Indentation must be a multiple of 4"))
    );
}

#[test]
fn tokenizer_rejects_unknown_escape() {
    assert_eq!(tokenize("'a\\nb'"), Err(String::from("cannot escape char n")));
}

#[test]
fn tokenizer_reports_unrecognized_character() {
    assert_eq!(tokenize("10 # 12"), Err(String::from("Unrecognized token #")));
}

#[test]
fn tokenizer_rejects_integer_that_is_too_large() {
    let largest = "170141183460469231731687303715884105727";
    assert_eq!(tokenize(largest), Ok(vec![Token::LiteralInteger(i128::MAX)]));
    assert!(tokenize("170141183460469231731687303715884105728").is_err());
}

#[test]
fn tokenizer_rejects_number_that_the_reader_cannot_read() {
    assert!(tokenize("1e").is_err());
    assert!(tokenize("6-6").is_err());
}

#[test]
fn tokenizer_escaped_backslash() -> Result<(), String> {
    let result = tokenize("'a\\\\b'")?;
    assert_eq!(result, [Token::LiteralString(String::from("a\\b"))]);
    Ok(())
}

#[test]
fn tokenizer_unclosed_string_is_a_string() -> Result<(), String> {
    let result = tokenize("'abc")?;
    assert_eq!(result, [Token::LiteralString(String::from("abc"))]);
    Ok(())
}

#[test]
fn scan_cuts_text_into_lexemes() {
    assert_eq!(
        horse::lexer::scan("x = 1.5, 'a'"),
        Ok(vec![
            PartialToken::Identifier(String::from("x")),
            PartialToken::Operator(String::from("=")),
            PartialToken::LiteralFloat(String::from("1.5")),
            PartialToken::Comma,
            PartialToken::String(String::from("a")),
        ])
    );
}

#[test]
fn tokenizer_skips_every_white_space() -> Result<(), String> {
    let result = tokenize("1\t+\u{a0}2\r")?;
    assert_eq!(
        result,
        [
            Token::LiteralInteger(1),
            Token::Operator(Operator::Plus),
            Token::LiteralInteger(2),
        ]
    );
    Ok(())
}

#[test]
fn tokenizer_takes_every_numeric_character_for_a_number() {
    // An Arabic-Indic digit begins a number, which is no integer.
    assert_eq!(tokenize("\u{663}"), Err(String::from("a number cannot be read")));
    assert_eq!(
        horse::lexer::scan("1\u{663}"),
        Ok(vec![PartialToken::LiteralFloat(String::from("1\u{663}"))])
    );
}

#[test]
fn what_is_said_of_a_text_that_cannot_be_cut() {
    assert_eq!(describe(LexError::Unrecognized('#')), "Unrecognized token #");
    assert_eq!(describe(LexError::Escape('n')), "cannot escape char n");
    assert_eq!(describe(LexError::Indentation), "Indentation must be a multiple of 4");
}

#[test]
fn an_integer_that_is_too_large_has_no_token() {
    let large = "170141183460469231731687303715884105728";
    assert!(!PartialToken::LiteralFloat(String::from(large)).has_token(None));
    assert_eq!(tokenize(large), Err(String::from("a number cannot be read")));
    let largest = "170141183460469231731687303715884105727";
    let piece = PartialToken::LiteralFloat(String::from(largest));
    assert!(piece.has_token(None));
    assert_eq!(piece.to_token(None), Token::LiteralInteger(i128::MAX));
    assert!(!PartialToken::LiteralFloat(String::from("1.5")).has_token(None));
    assert_eq!(
        PartialToken::LiteralFloat(String::from("1.5")).to_token(Some(float(1.5))),
        Token::LiteralFloat(float(1.5))
    );
}
