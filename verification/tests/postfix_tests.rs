use calculator::lexer::Lexer;
use calculator::literal::Literal;
use calculator::token::{Associativity, OpInfo, Operator, Token};

fn number(text: &str) -> Token {
    Token::Number(Literal::new(text).unwrap())
}

fn variable(name: &str) -> Token {
    Token::Variable(name.to_string())
}

fn op(symbol: char) -> Token {
    Token::Operator(Operator::from_symbol(symbol).unwrap())
}

/// Writes a token sequence out, one symbol per token, for short comparisons.
fn show(tokens: &[Token]) -> String {
    let mut out = Vec::new();
    for token in tokens {
        out.push(match token {
            Token::Variable(name) => name.clone(),
            Token::Number(literal) => literal.text().to_string(),
            Token::Operator(op) => op.symbol().to_string(),
            Token::LeftParen => "(".to_string(),
            Token::RightParen => ")".to_string(),
            Token::EndOfInput => "$".to_string(),
        });
    }
    out.join(" ")
}

fn postfix_of(input: &str) -> String {
    show(&Lexer::scan(input).unwrap().into_rpn())
}

#[test]
fn operator_table() {
    for c in ['+', '-'] {
        assert_eq!(OpInfo::of(c), OpInfo { precedence: 10, associativity: Associativity::Left });
    }
    for c in ['*', '/', '%'] {
        assert_eq!(OpInfo::of(c), OpInfo { precedence: 20, associativity: Associativity::Left });
    }
    assert_eq!(OpInfo::of('^'), OpInfo { precedence: 30, associativity: Associativity::Right });
    assert_eq!(OpInfo::of('('), OpInfo { precedence: 0, associativity: Associativity::Left });
    assert_eq!(OpInfo::of('x'), OpInfo::default());
    assert_eq!(Associativity::default(), Associativity::Left);
}

#[test]
fn should_pop_by_precedence_then_associativity() {
    let add = OpInfo::of('+');
    let mul = OpInfo::of('*');
    let pow = OpInfo::of('^');
    assert!(mul.should_pop(add));
    assert!(pow.should_pop(mul));
    assert!(pow.should_pop(add));
    assert!(!add.should_pop(mul));
    assert!(!mul.should_pop(pow));
    assert!(add.should_pop(OpInfo::of('-')));
    assert!(mul.should_pop(OpInfo::of('%')));
    assert!(OpInfo::of('/').should_pop(mul));
    assert!(!pow.should_pop(pow));
}

#[test]
fn operator_symbols_round_trip() {
    let all = [
        (Operator::Add, '+'),
        (Operator::Sub, '-'),
        (Operator::Mul, '*'),
        (Operator::Div, '/'),
        (Operator::Rem, '%'),
        (Operator::Pow, '^'),
    ];
    for (op, symbol) in all {
        assert_eq!(op.symbol(), symbol);
        assert_eq!(Operator::from_symbol(symbol), Some(op));
        assert_eq!(op.divides(), symbol == '/' || symbol == '%');
    }
    for c in ['(', ')', '0', 'a', ' ', '.', '='] {
        assert_eq!(Operator::from_symbol(c), None);
    }
}

#[test]
fn operands_go_straight_to_the_output() {
    assert_eq!(postfix_of("5"), "5");
    assert_eq!(postfix_of("x"), "x");
    assert_eq!(postfix_of("1 x 2"), "1 x2");
    assert_eq!(postfix_of(""), "");
}

#[test]
fn higher_precedence_on_the_stack_is_popped() {
    assert_eq!(postfix_of("2*3+4"), "2 3 * 4 +");
    assert_eq!(postfix_of("2^3*4"), "2 3 ^ 4 *");
    assert_eq!(postfix_of("2^3*4+5"), "2 3 ^ 4 * 5 +");
}

#[test]
fn every_yielding_operator_is_popped() {
    assert_eq!(postfix_of("1+2*3^4-5"), "1 2 3 4 ^ * + 5 -");
    assert_eq!(postfix_of("1*2^3+4"), "1 2 3 ^ * 4 +");
}

#[test]
fn equal_precedence_groups_to_the_left() {
    assert_eq!(postfix_of("8/4/2"), "8 4 / 2 /");
    assert_eq!(postfix_of("8-4+2"), "8 4 - 2 +");
    assert_eq!(postfix_of("8*4%2"), "8 4 * 2 %");
}

#[test]
fn power_groups_to_the_right() {
    assert_eq!(postfix_of("2^3^2"), "2 3 2 ^ ^");
}

#[test]
fn parentheses_are_used_up() {
    assert_eq!(postfix_of("(2+3)*4"), "2 3 + 4 *");
    assert_eq!(postfix_of("((2))"), "2");
    assert_eq!(postfix_of("(a+b)*(c-d)"), "a b + c d - *");
    assert_eq!(postfix_of("2*(3+4)"), "2 3 4 + *");
}

#[test]
fn closing_parenthesis_stops_at_the_nearest_opening_one() {
    assert_eq!(postfix_of("(1+(2*3))"), "1 2 3 * +");
    assert_eq!(postfix_of("(1*(2+3)"), "1 2 3 + ( *");
}

#[test]
fn what_is_left_on_the_stack_follows_in_push_order() {
    assert_eq!(postfix_of("2+3*4"), "2 3 4 + *");
    assert_eq!(postfix_of("1+2*3^4"), "1 2 3 4 + * ^");
}

#[test]
fn unmatched_closing_parenthesis_empties_the_stack() {
    assert_eq!(postfix_of("1+2)"), "1 2 +");
    assert_eq!(postfix_of(")"), "");
    assert_eq!(postfix_of("1+2)*3"), "1 2 + 3 *");
}

#[test]
fn unmatched_opening_parenthesis_comes_out_at_the_end() {
    assert_eq!(postfix_of("(1+2"), "1 2 ( +");
    assert_eq!(postfix_of("("), "(");
    assert_eq!(postfix_of("1*(2"), "1 2 * (");
}

#[test]
fn opening_parenthesis_shields_the_stack() {
    assert_eq!(postfix_of("2^(3+4)"), "2 3 4 + ^");
    assert_eq!(postfix_of("2*(3+4)-5"), "2 3 4 + * 5 -");
}

#[test]
fn hand_made_tokens() {
    let lexer = Lexer::new(vec![number("1"), op('+'), variable("x"), op('*'), number("-2.5"), op('-'), number("3")]);
    assert_eq!(show(&lexer.into_rpn()), "1 x -2.5 * + 3 -");
}

#[test]
fn a_stored_end_of_input_ends_the_conversion() {
    let lexer = Lexer::new(vec![number("1"), op('+'), number("2"), Token::EndOfInput, op('*'), number("3")]);
    assert_eq!(show(&lexer.into_rpn()), "1 2 +");
}

#[test]
fn into_rpn_converts_what_is_left() {
    let mut lexer = Lexer::scan("1+2*3").unwrap();
    assert_eq!(lexer.next(), number("1"));
    assert_eq!(lexer.next(), op('+'));
    assert_eq!(show(&lexer.into_rpn()), "2 3 *");
}
