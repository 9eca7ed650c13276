//! A calculator core: a tokenizer, an infix-to-postfix converter and a
//! postfix evaluator for arithmetic expressions, with machine-checked
//! contracts.
//!
//! A line of text goes through `lexer::Lexer::scan`, then
//! `lexer::Lexer::into_rpn`, then `eval::eval`. The library holds no
//! floating-point numbers: a number token carries its literal, and the
//! evaluator carries values as bit patterns and leaves converting and
//! arithmetic to its caller.

/// Character classes and whitespace removal.
pub mod chars;
/// The postfix evaluator.
pub mod eval;
/// What holds of the three stages together.
pub mod laws;
/// The tokenizer.
pub mod lexer;
/// Decimal literals.
pub mod literal;
/// The infix-to-postfix converter.
pub mod postfix;
/// Operators, the operator table, tokens.
pub mod token;
