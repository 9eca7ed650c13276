use calculator::chars::{is_digit, is_letter, is_name_char, is_number_char, is_sign, is_whitespace, significant_chars};
use calculator::lexer::{read_number, LexError, Lexer};
use calculator::literal::{is_decimal_text, Literal};
use calculator::token::{Operator, Token};

fn number(text: &str) -> Token {
    Token::Number(Literal::new(text).unwrap())
}

fn variable(name: &str) -> Token {
    Token::Variable(name.to_string())
}

fn tokens_of(input: &str) -> Result<Vec<Token>, LexError> {
    let mut lexer = Lexer::scan(input)?;
    let mut out = Vec::new();
    loop {
        match lexer.next() {
            Token::EndOfInput => return Ok(out),
            token => out.push(token),
        }
    }
}

#[test]
fn lexer_output() {
    let input = "--5*((-1.0 + -22) * _a1_3) - bc2 / c";
    println!("{:?}", Lexer::scan(input));
}

#[test]
fn lexer_output_is_the_bare_sign() {
    let input = "--5*((-1.0 + -22) * _a1_3) - bc2 / c";
    assert_eq!(tokens_of(input), Err(LexError::InvalidNumber("-".to_string())));
}

#[test]
fn character_classes() {
    assert!(is_letter('a') && is_letter('z') && is_letter('A') && is_letter('Z') && is_letter('_'));
    assert!(!is_letter('0') && !is_letter('-') && !is_letter('\u{e9}') && !is_letter('[') && !is_letter('`'));
    assert!(is_digit('0') && is_digit('9') && !is_digit('a') && !is_digit('/') && !is_digit(':'));
    assert!(is_name_char('a') && is_name_char('_') && is_name_char('7') && !is_name_char('.'));
    assert!(is_number_char('5') && is_number_char('.') && !is_number_char('-') && !is_number_char('e'));
    assert!(is_sign('+') && is_sign('-') && !is_sign('*'));
    for c in [' ', '\t', '\n', '\x0C', '\r'] {
        assert!(is_whitespace(c));
        assert!(c.is_ascii_whitespace());
    }
    assert!(!is_whitespace('\x0B') && !is_whitespace('a') && !is_whitespace('\u{a0}'));
}

#[test]
fn character_classes_agree_with_std() {
    for code in 0u32..0x300 {
        let c = char::from_u32(code).unwrap();
        assert_eq!(is_whitespace(c), c.is_ascii_whitespace());
        assert_eq!(is_digit(c), c.is_ascii_digit());
        assert_eq!(is_letter(c), c.is_ascii_alphabetic() || c == '_');
    }
}

#[test]
fn whitespace_is_removed_everywhere() {
    assert_eq!(significant_chars(" 1 2\t+\n3\r\x0C"), vec!['1', '2', '+', '3']);
    assert_eq!(significant_chars(""), Vec::<char>::new());
    assert_eq!(significant_chars("   "), Vec::<char>::new());
    assert_eq!(significant_chars("a\u{a0}b"), vec!['a', '\u{a0}', 'b']);
}

#[test]
fn decimal_literals() {
    for good in ["5", "5.", "-5", "+5", "1.0", "-1.0", "-.5", "+.5", "007", "0.000", "-0"] {
        assert!(is_decimal_text(good), "{good}");
        assert_eq!(Literal::new(good).unwrap().text(), good);
        assert!(good.parse::<f64>().is_ok(), "{good}");
    }
    for bad in ["", "-", "+", ".", "-.", "1.2.3", "1..", "--5", "5-", "1e5", "5 ", "a", "1+1", "\u{663}"] {
        assert!(!is_decimal_text(bad), "{bad}");
        assert!(Literal::new(bad).is_none(), "{bad}");
    }
}

#[test]
fn literal_validity_agrees_with_float_parsing() {
    let alphabet = ['+', '-', '.', '0', '7'];
    let mut texts = vec![String::new()];
    for _ in 0..5 {
        let mut longer = Vec::new();
        for text in &texts {
            for c in alphabet {
                let mut t = text.clone();
                t.push(c);
                longer.push(t);
            }
        }
        for text in &longer {
            assert_eq!(is_decimal_text(text), text.parse::<f64>().is_ok(), "{text}");
        }
        texts = longer;
    }
}

#[test]
fn literal_clone_keeps_the_text() {
    let literal = Literal::new("-12.5").unwrap();
    assert_eq!(literal.clone(), literal);
    assert_eq!(literal.clone().text(), "-12.5");
}

#[test]
fn single_tokens() {
    assert_eq!(tokens_of("("), Ok(vec![Token::LeftParen]));
    assert_eq!(tokens_of(")"), Ok(vec![Token::RightParen]));
    assert_eq!(tokens_of("*"), Ok(vec![Token::Operator(Operator::Mul)]));
    assert_eq!(tokens_of("/"), Ok(vec![Token::Operator(Operator::Div)]));
    assert_eq!(tokens_of("%"), Ok(vec![Token::Operator(Operator::Rem)]));
    assert_eq!(tokens_of("^"), Ok(vec![Token::Operator(Operator::Pow)]));
    assert_eq!(tokens_of("42"), Ok(vec![number("42")]));
    assert_eq!(tokens_of("x"), Ok(vec![variable("x")]));
    assert_eq!(tokens_of(""), Ok(vec![]));
    assert_eq!(tokens_of(" \t\n"), Ok(vec![]));
}

#[test]
fn literal_alone_is_one_number_token() {
    for n in ["5", "-5", "+5", "3.25", "-3.25", "10.", "-.5", "000"] {
        assert_eq!(tokens_of(n), Ok(vec![number(n)]), "{n}");
    }
}

#[test]
fn sign_after_operand_is_binary() {
    assert_eq!(
        tokens_of("1-2"),
        Ok(vec![number("1"), Token::Operator(Operator::Sub), number("2")])
    );
    assert_eq!(
        tokens_of("a+2"),
        Ok(vec![variable("a"), Token::Operator(Operator::Add), number("2")])
    );
    assert_eq!(
        tokens_of("_-2"),
        Ok(vec![variable("_"), Token::Operator(Operator::Sub), number("2")])
    );
    assert_eq!(
        tokens_of("(1)-2"),
        Ok(vec![
            Token::LeftParen,
            number("1"),
            Token::RightParen,
            Token::Operator(Operator::Sub),
            number("2")
        ])
    );
}

#[test]
fn sign_after_decimal_point_starts_a_number() {
    assert_eq!(tokens_of("1.-2"), Ok(vec![number("1."), number("-2")]));
}

#[test]
fn sign_elsewhere_starts_a_number() {
    assert_eq!(tokens_of("-2"), Ok(vec![number("-2")]));
    assert_eq!(tokens_of("(-2"), Ok(vec![Token::LeftParen, number("-2")]));
    assert_eq!(
        tokens_of("1*-2"),
        Ok(vec![number("1"), Token::Operator(Operator::Mul), number("-2")])
    );
    assert_eq!(
        tokens_of("1 + -22"),
        Ok(vec![number("1"), Token::Operator(Operator::Add), number("-22")])
    );
    assert_eq!(
        tokens_of("1++2"),
        Ok(vec![number("1"), Token::Operator(Operator::Add), number("+2")])
    );
}

#[test]
fn lookback_skips_whitespace() {
    assert_eq!(
        tokens_of("1 \t - 2"),
        Ok(vec![number("1"), Token::Operator(Operator::Sub), number("2")])
    );
    assert_eq!(tokens_of("- 2"), Ok(vec![number("-2")]));
    assert_eq!(tokens_of("1 2"), Ok(vec![number("12")]));
}

#[test]
fn unary_sign_chaining() {
    assert_eq!(tokens_of("--5"), Err(LexError::InvalidNumber("-".to_string())));
    assert_eq!(tokens_of("+-5"), Err(LexError::InvalidNumber("+".to_string())));
    assert_eq!(
        tokens_of("-5-5"),
        Ok(vec![number("-5"), Token::Operator(Operator::Sub), number("5")])
    );
    assert_eq!(
        tokens_of("5--5"),
        Ok(vec![number("5"), Token::Operator(Operator::Sub), number("-5")])
    );
}

#[test]
fn sign_before_a_non_digit_fails() {
    assert_eq!(tokens_of("-a"), Err(LexError::InvalidNumber("-".to_string())));
    assert_eq!(tokens_of("-(1)"), Err(LexError::InvalidNumber("-".to_string())));
    assert_eq!(tokens_of("+"), Err(LexError::InvalidNumber("+".to_string())));
    assert_eq!(tokens_of("2*(+)"), Err(LexError::InvalidNumber("+".to_string())));
    assert_eq!(tokens_of("-."), Err(LexError::InvalidNumber("-.".to_string())));
}

#[test]
fn numbers_take_every_digit_and_point() {
    assert_eq!(tokens_of("1.2.3"), Err(LexError::InvalidNumber("1.2.3".to_string())));
    assert_eq!(tokens_of("1..+2"), Err(LexError::InvalidNumber("1..".to_string())));
    assert_eq!(tokens_of("-1.2.3"), Err(LexError::InvalidNumber("-1.2.3".to_string())));
    assert_eq!(tokens_of("12.5x"), Ok(vec![number("12.5"), variable("x")]));
}

#[test]
fn names_take_letters_digits_and_underscores() {
    assert_eq!(tokens_of("_a1_3"), Ok(vec![variable("_a1_3")]));
    assert_eq!(tokens_of("bc2/c"), Ok(vec![
        variable("bc2"),
        Token::Operator(Operator::Div),
        variable("c")
    ]));
    assert_eq!(tokens_of("x.5"), Err(LexError::InvalidChar('.')));
    assert_eq!(tokens_of("2x3"), Ok(vec![number("2"), variable("x3")]));
}

#[test]
fn invalid_character() {
    assert_eq!(tokens_of("3+@"), Err(LexError::InvalidChar('@')));
    assert_eq!(tokens_of("#"), Err(LexError::InvalidChar('#')));
    assert_eq!(tokens_of("1 = 1"), Err(LexError::InvalidChar('=')));
    assert_eq!(tokens_of("\u{e9}"), Err(LexError::InvalidChar('\u{e9}')));
    assert_eq!(tokens_of(".5"), Err(LexError::InvalidChar('.')));
}

#[test]
fn first_error_from_the_left_wins() {
    assert_eq!(tokens_of("1.2.3 @"), Err(LexError::InvalidNumber("1.2.3".to_string())));
    assert_eq!(tokens_of("@ 1.2.3"), Err(LexError::InvalidChar('@')));
}

#[test]
fn whitespace_does_not_change_tokens() {
    let plain = tokens_of("(2+3)*-4.5/x_1");
    for spaced in [" (2+3)*-4.5/x_1", "( 2 + 3 ) * - 4 . 5 / x _ 1", "(2+3)\t*\n-4.5\r/\x0Cx_1  "] {
        assert_eq!(tokens_of(spaced), plain);
    }
    assert_eq!(tokens_of("1 + @"), tokens_of("1+@"));
    assert_eq!(tokens_of("- - 5"), tokens_of("--5"));
}

#[test]
fn a_longer_expression() {
    assert_eq!(
        tokens_of("5*((-1.0 + -22) * _a1_3) - bc2 / c"),
        Ok(vec![
            number("5"),
            Token::Operator(Operator::Mul),
            Token::LeftParen,
            Token::LeftParen,
            number("-1.0"),
            Token::Operator(Operator::Add),
            number("-22"),
            Token::RightParen,
            Token::Operator(Operator::Mul),
            variable("_a1_3"),
            Token::RightParen,
            Token::Operator(Operator::Sub),
            variable("bc2"),
            Token::Operator(Operator::Div),
            variable("c"),
        ])
    );
}

#[test]
fn read_number_extends_the_buffer() {
    let chars: Vec<char> = "12.5+3".chars().collect();
    let mut i = 1;
    let mut buf = String::from("1");
    let literal = read_number(&chars, &mut i, &mut buf).unwrap();
    assert_eq!(i, 4);
    assert_eq!(buf, "12.5");
    assert_eq!(literal.text(), "12.5");

    let mut i = 4;
    let mut buf = String::from("-");
    assert_eq!(
        read_number(&chars, &mut i, &mut buf),
        Err(LexError::InvalidNumber("-".to_string()))
    );
    assert_eq!(i, 4);
    assert_eq!(buf, "-");

    let mut i = 6;
    let mut buf = String::from("9");
    assert_eq!(read_number(&chars, &mut i, &mut buf).unwrap().text(), "9");
    assert_eq!(i, 6);

    let mut i = 60;
    let mut buf = String::from("+.5");
    assert_eq!(read_number(&chars, &mut i, &mut buf).unwrap().text(), "+.5");
    assert_eq!(i, 60);
    assert_eq!(buf, "+.5");
}

#[test]
fn next_hands_out_end_of_input_for_ever() {
    let mut lexer = Lexer::scan("1+").unwrap();
    assert_eq!(lexer.next(), number("1"));
    assert_eq!(lexer.next(), Token::Operator(Operator::Add));
    assert_eq!(lexer.next(), Token::EndOfInput);
    assert_eq!(lexer.next(), Token::EndOfInput);
}

#[test]
fn new_keeps_the_order() {
    let mut lexer = Lexer::new(vec![number("1"), Token::LeftParen, variable("q")]);
    assert_eq!(lexer.next(), number("1"));
    assert_eq!(lexer.next(), Token::LeftParen);
    assert_eq!(lexer.next(), variable("q"));
    assert_eq!(lexer.next(), Token::EndOfInput);
}

#[test]
fn token_clone_is_equal() {
    for token in [number("-1.5"), variable("ab"), Token::Operator(Operator::Pow), Token::LeftParen, Token::RightParen, Token::EndOfInput] {
        assert_eq!(token.clone(), token);
    }
}
