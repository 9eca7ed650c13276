//! What holds of the tokenizer, the converter and the evaluator together.
use crate::chars::{is_digit_spec, is_number_char_spec, is_sign_spec, is_whitespace_spec, strip_whitespace};
use crate::eval::{evaluate, run, Value};
use crate::lexer::{lex_from, lexeme, lexeme_end, number_run, tokenize, LexErrorModel};
use crate::literal::is_decimal;
use crate::postfix::{close_paren, make_room, shunt, to_postfix};
use crate::token::{Operator, TokenModel};
use vstd::prelude::*;

verus! {

/// A text without whitespace is its own stripped form.
pub proof fn lemma_strip_without_whitespace(text: Seq<char>)
    requires
        forall|i: int| 0 <= i < text.len() ==> !is_whitespace_spec(#[trigger] text[i]),
    ensures
        strip_whitespace(text) == text,
    decreases text.len(),
{
    reveal(Seq::filter);
    if text.len() > 0 {
        lemma_strip_without_whitespace(text.drop_last());
        assert(text.drop_last().push(text.last()) =~= text);
    }
}

/// Where only digits and decimal points follow, the run of them reaches the end.
pub proof fn lemma_number_run_to_end(s: Seq<char>, i: int)
    requires
        0 <= i <= s.len(),
        forall|k: int| i <= k < s.len() ==> is_number_char_spec(#[trigger] s[k]),
    ensures
        number_run(s, i) == s.len() - i,
    decreases s.len() - i,
{
    if i < s.len() {
        lemma_number_run_to_end(s, i + 1);
    }
}

/// A decimal literal that starts with a digit or a sign, standing alone, is
/// one number token; the converter leaves that token as it is; and the
/// evaluator gives the literal's value.
pub proof fn lemma_literal_evaluates_to_itself(
    n: Seq<char>,
    convert: spec_fn(Seq<char>) -> Value,
    apply: spec_fn(Value, Operator, Value) -> Value,
)
    requires
        is_decimal(n),
        n.len() > 0 ==> is_digit_spec(n[0]) || is_sign_spec(n[0]),
    ensures
        tokenize(n) == Ok::<Seq<TokenModel>, LexErrorModel>(seq![TokenModel::Number(n)]),
        to_postfix(seq![TokenModel::Number(n)]) == seq![TokenModel::Number(n)],
        evaluate(seq![TokenModel::Number(n)], convert, apply) == Ok::<Value, crate::eval::EvalError>(
            convert(n),
        ),
{
    let token = TokenModel::Number(n);
    let one = seq![token];
    // The tokenizer.
    assert(n.len() > 0) by {
        if n.len() == 0 {
            assert(crate::literal::digit_count(n) == 0);
        }
    }
    lemma_strip_without_whitespace(n);
    lemma_number_run_to_end(n, 1);
    assert(lexeme_end(n, 0) == n.len());
    assert(n.subrange(0, n.len() as int) =~= n);
    assert(lexeme(n, 0) == Ok::<TokenModel, LexErrorModel>(token));
    assert(lex_from(n, n.len() as int) == Ok::<Seq<TokenModel>, LexErrorModel>(Seq::empty()));
    assert(one + Seq::<TokenModel>::empty() =~= one);
    // The converter.
    let none = Seq::<TokenModel>::empty();
    assert(one.drop_first() =~= none);
    assert(none.push(token) =~= one);
    assert(shunt(none, none, one) == one + none);
    assert(shunt(one, none, none) == shunt(none, none, one));
    // The evaluator.
    let stack = Seq::<Value>::empty().push(convert(n));
    assert(run(none, stack, convert, apply) == Ok::<Value, crate::eval::EvalError>(convert(n)));
    assert(run(one, Seq::<Value>::empty(), convert, apply) == run(none, stack, convert, apply));
}

/// Whitespace changes nothing: a text with one more ASCII whitespace
/// character, put in at any place, gives the tokens, or the error, of the
/// text without it.
pub proof fn lemma_whitespace_is_ignored(text: Seq<char>, at: int, space: char)
    requires
        0 <= at <= text.len(),
        is_whitespace_spec(space),
    ensures
        tokenize(text.insert(at, space)) == tokenize(text),
{
    let keep = |c: char| !is_whitespace_spec(c);
    let head = text.take(at);
    let tail = text.skip(at);
    let gap = seq![space];
    assert(text.insert(at, space) =~= head + gap + tail);
    assert(head + tail =~= text);
    Seq::filter_distributes_over_add(head + gap, tail, keep);
    Seq::filter_distributes_over_add(head, gap, keep);
    Seq::filter_distributes_over_add(head, tail, keep);
    assert(gap.filter(keep) =~= Seq::<char>::empty()) by {
        reveal_with_fuel(Seq::filter, 2);
        assert(gap.drop_last() =~= Seq::<char>::empty());
    }
    assert(head.filter(keep) + Seq::<char>::empty() =~= head.filter(keep));
}

/// Texts that differ in whitespace only tokenize alike.
pub proof fn lemma_tokens_depend_on_stripped_text(a: Seq<char>, b: Seq<char>)
    requires
        strip_whitespace(a) == strip_whitespace(b),
    ensures
        tokenize(a) == tokenize(b),
{
}

/// What a tokenizer may store: never the end-of-input mark, and as a number
/// only a decimal literal.
pub open spec fn is_stored(token: TokenModel) -> bool {
    match token {
        TokenModel::EndOfInput => false,
        TokenModel::Number(text) => is_decimal(text),
        _ => true,
    }
}

/// Every token that the tokenizer gives from `i` on may be stored.
pub proof fn lemma_lexed_tokens_are_stored(s: Seq<char>, i: int)
    requires
        0 <= i,
    ensures
        lex_from(s, i) matches Ok(tokens) ==> forall|k: int|
            0 <= k < tokens.len() ==> is_stored(#[trigger] tokens[k]),
    decreases s.len() - i,
{
    if i < s.len() {
        if let Ok(token) = lexeme(s, i) {
            crate::lexer::lemma_number_run_bound(s, i + 1);
            crate::lexer::lemma_name_run_bound(s, i + 1);
            lemma_lexed_tokens_are_stored(s, lexeme_end(s, i));
            if let Ok(rest) = lex_from(s, lexeme_end(s, i)) {
                let tokens = seq![token] + rest;
                assert forall|k: int| 0 <= k < tokens.len() implies is_stored(
                    #[trigger] tokens[k],
                ) by {
                    if k > 0 {
                        assert(tokens[k] == rest[k - 1]);
                    }
                }
            }
        }
    }
}

/// The tokens of a text hold no end-of-input mark, and every number among
/// them is a decimal literal.
pub proof fn lemma_tokens_are_stored(text: Seq<char>)
    ensures
        tokenize(text) matches Ok(tokens) ==> forall|k: int|
            0 <= k < tokens.len() ==> is_stored(#[trigger] tokens[k]),
{
    lemma_lexed_tokens_are_stored(strip_whitespace(text), 0);
}

/// What the converter may put out: anything but a closing parenthesis and
/// the end-of-input mark.
pub open spec fn is_output(token: TokenModel) -> bool {
    !(token is RightParen) && !(token is EndOfInput)
}

/// Whether every token of `tokens` may be put out.
pub open spec fn all_output(tokens: Seq<TokenModel>) -> bool {
    forall|k: int| 0 <= k < tokens.len() ==> is_output(#[trigger] tokens[k])
}

proof fn lemma_close_paren_keeps_output(stack: Seq<TokenModel>, out: Seq<TokenModel>)
    requires
        all_output(stack),
        all_output(out),
    ensures
        all_output(close_paren(stack, out).0),
        all_output(close_paren(stack, out).1),
    decreases stack.len(),
{
    if stack.len() > 0 && !(stack.last() is LeftParen) {
        lemma_close_paren_keeps_output(stack.drop_last(), out.push(stack.last()));
    }
}

proof fn lemma_make_room_keeps_output(
    stack: Seq<TokenModel>,
    out: Seq<TokenModel>,
    incoming: Operator,
)
    requires
        all_output(stack),
        all_output(out),
    ensures
        all_output(make_room(stack, out, incoming).0),
        all_output(make_room(stack, out, incoming).1),
    decreases stack.len(),
{
    if stack.len() > 0 && crate::postfix::yields_to(stack.last(), incoming) {
        lemma_make_room_keeps_output(stack.drop_last(), out.push(stack.last()), incoming);
    }
}

proof fn lemma_shunt_keeps_output(
    tokens: Seq<TokenModel>,
    stack: Seq<TokenModel>,
    out: Seq<TokenModel>,
)
    requires
        all_output(stack),
        all_output(out),
    ensures
        all_output(shunt(tokens, stack, out)),
    decreases tokens.len(),
{
    if tokens.len() > 0 {
        let rest = tokens.drop_first();
        match tokens[0] {
            TokenModel::Number(_) => lemma_shunt_keeps_output(rest, stack, out.push(tokens[0])),
            TokenModel::Variable(_) => lemma_shunt_keeps_output(rest, stack, out.push(tokens[0])),
            TokenModel::LeftParen => lemma_shunt_keeps_output(rest, stack.push(tokens[0]), out),
            TokenModel::RightParen => {
                lemma_close_paren_keeps_output(stack, out);
                let (s, o) = close_paren(stack, out);
                lemma_shunt_keeps_output(rest, s, o);
            },
            TokenModel::Operator(op) => {
                lemma_make_room_keeps_output(stack, out, op);
                let (s, o) = make_room(stack, out, op);
                lemma_shunt_keeps_output(rest, s.push(tokens[0]), o);
            },
            TokenModel::EndOfInput => {},
        }
    }
}

/// A postfix sequence holds no closing parenthesis and no end-of-input
/// mark, whatever was converted. (An opening parenthesis that was never
/// closed does come out.)
pub proof fn lemma_postfix_has_no_closing_parenthesis(tokens: Seq<TokenModel>)
    ensures
        all_output(to_postfix(tokens)),
{
    lemma_shunt_keeps_output(tokens, Seq::empty(), Seq::empty());
}

} // verus!
