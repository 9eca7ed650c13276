//! The converter: tokens in infix order to tokens in postfix order, by the
//! shunting-yard method.
use crate::lexer::Lexer;
use crate::token::{models, OpInfo, Operator, Token, TokenModel};
use vstd::prelude::*;

verus! {

/// Whether `top`, on top of the operator stack, leaves it before the
/// operator `incoming` enters: only an operator does, and only one that
/// binds tighter, or as tight while grouping to the left.
pub open spec fn yields_to(top: TokenModel, incoming: Operator) -> bool {
    match top {
        TokenModel::Operator(op) => OpInfo::of_spec(op.symbol_spec()).should_pop_spec(
            OpInfo::of_spec(incoming.symbol_spec()),
        ),
        _ => false,
    }
}

/// Stack and output after a closing parenthesis: the stack is popped into
/// the output down to the nearest opening parenthesis, which is dropped. A
/// stack without one is emptied.
pub open spec fn close_paren(stack: Seq<TokenModel>, out: Seq<TokenModel>) -> (
    Seq<TokenModel>,
    Seq<TokenModel>,
)
    decreases stack.len(),
{
    if stack.len() == 0 {
        (stack, out)
    } else if stack.last() is LeftParen {
        (stack.drop_last(), out)
    } else {
        close_paren(stack.drop_last(), out.push(stack.last()))
    }
}

/// Stack and output once every operator on top of the stack that yields to
/// `incoming` has moved to the output.
pub open spec fn make_room(
    stack: Seq<TokenModel>,
    out: Seq<TokenModel>,
    incoming: Operator,
) -> (Seq<TokenModel>, Seq<TokenModel>)
    decreases stack.len(),
{
    if stack.len() > 0 && yields_to(stack.last(), incoming) {
        make_room(stack.drop_last(), out.push(stack.last()), incoming)
    } else {
        (stack, out)
    }
}

/// The postfix sequence that `tokens` give, started with operator stack
/// `stack` and output `out`. At the end of the tokens, or at an `EndOfInput`
/// among them, what is left on the stack follows the output, bottom first.
pub open spec fn shunt(
    tokens: Seq<TokenModel>,
    stack: Seq<TokenModel>,
    out: Seq<TokenModel>,
) -> Seq<TokenModel>
    decreases tokens.len(),
{
    if tokens.len() == 0 {
        out + stack
    } else {
        let rest = tokens.drop_first();
        match tokens[0] {
            TokenModel::Number(_) => shunt(rest, stack, out.push(tokens[0])),
            TokenModel::Variable(_) => shunt(rest, stack, out.push(tokens[0])),
            TokenModel::LeftParen => shunt(rest, stack.push(tokens[0]), out),
            TokenModel::RightParen => {
                let (s, o) = close_paren(stack, out);
                shunt(rest, s, o)
            },
            TokenModel::Operator(op) => {
                let (s, o) = make_room(stack, out, op);
                shunt(rest, s.push(tokens[0]), o)
            },
            TokenModel::EndOfInput => out + stack,
        }
    }
}

/// The postfix form of `tokens`.
pub open spec fn to_postfix(tokens: Seq<TokenModel>) -> Seq<TokenModel> {
    shunt(tokens, Seq::empty(), Seq::empty())
}

proof fn lemma_models_push(tokens: Seq<Token>, token: Token)
    ensures
        models(tokens.push(token)) == models(tokens).push(token@),
{
    assert(models(tokens.push(token)) =~= models(tokens).push(token@));
}

proof fn lemma_models_drop_last(tokens: Seq<Token>)
    requires
        tokens.len() > 0,
    ensures
        models(tokens.drop_last()) == models(tokens).drop_last(),
        models(tokens).last() == tokens.last()@,
{
    assert(models(tokens.drop_last()) =~= models(tokens).drop_last());
}

impl Lexer {
    /// Converts the tokens still to come to postfix order. This never
    /// fails: parentheses that do not match are put up with.
    ///
    /// Numbers and names go to the output as they come. An opening
    /// parenthesis goes on the operator stack. A closing one empties the
    /// stack into the output down to the nearest opening one. An operator
    /// first sends every operator that yields to it from the top of the
    /// stack to the output, then goes on the stack itself. At the end the
    /// stack follows the output, bottom first.
    pub fn into_rpn(self) -> (rpn: Vec<Token>)
        ensures
            models(rpn@) == to_postfix(self@),
    {
        let mut lexer = self;
        let mut op_stack: Vec<Token> = Vec::new();
        let mut rpn: Vec<Token> = Vec::new();
        let ghost goal = to_postfix(self@);
        proof {
            assert(models(op_stack@) =~= Seq::<TokenModel>::empty());
            assert(models(rpn@) =~= Seq::<TokenModel>::empty());
        }
        loop
            invariant_except_break
                shunt(lexer@, models(op_stack@), models(rpn@)) == goal,
            ensures
                models(rpn@) == goal,
            decreases lexer@.len(),
        {
            let ghost before = lexer@;
            let token = lexer.next();
            proof {
                if before.len() > 0 {
                    assert(before[0] == token@);
                }
            }
            match token {
                Token::Number(literal) => {
                    proof {
                        lemma_models_push(rpn@, Token::Number(literal));
                    }
                    rpn.push(Token::Number(literal));
                },
                Token::Variable(name) => {
                    proof {
                        lemma_models_push(rpn@, Token::Variable(name));
                    }
                    rpn.push(Token::Variable(name));
                },
                Token::LeftParen => {
                    proof {
                        lemma_models_push(op_stack@, Token::LeftParen);
                    }
                    op_stack.push(Token::LeftParen);
                },
                Token::RightParen => {
                    let ghost target = close_paren(models(op_stack@), models(rpn@));
                    loop
                        invariant_except_break
                            close_paren(models(op_stack@), models(rpn@)) == target,
                        ensures
                            (models(op_stack@), models(rpn@)) == target,
                        decreases op_stack@.len(),
                    {
                        proof {
                            if op_stack@.len() > 0 {
                                lemma_models_drop_last(op_stack@);
                                lemma_models_push(rpn@, op_stack@.last());
                            }
                        }
                        match op_stack.pop() {
                            None => {
                                break ;
                            },
                            Some(top) => match top {
                                Token::LeftParen => {
                                    break ;
                                },
                                other => {
                                    rpn.push(other);
                                },
                            },
                        }
                    }
                },
                Token::Operator(incoming) => {
                    let ghost target = make_room(models(op_stack@), models(rpn@), incoming);
                    loop
                        invariant_except_break
                            make_room(models(op_stack@), models(rpn@), incoming) == target,
                        ensures
                            (models(op_stack@), models(rpn@)) == target,
                        decreases op_stack@.len(),
                    {
                        proof {
                            if op_stack@.len() > 0 {
                                lemma_models_drop_last(op_stack@);
                                lemma_models_push(rpn@, op_stack@.last());
                            }
                        }
                        let yields = op_stack.len() > 0 && match &op_stack[op_stack.len() - 1] {
                            Token::Operator(top) => OpInfo::of(top.symbol()).should_pop(
                                OpInfo::of(incoming.symbol()),
                            ),
                            _ => false,
                        };
                        if !yields {
                            break ;
                        }
                        let top = op_stack.pop().unwrap();
                        rpn.push(top);
                    }
                    proof {
                        lemma_models_push(op_stack@, Token::Operator(incoming));
                    }
                    op_stack.push(Token::Operator(incoming));
                },
                Token::EndOfInput => {
                    proof {
                        assert(models(rpn@ + op_stack@) =~= models(rpn@) + models(op_stack@));
                    }
                    rpn.append(&mut op_stack);
                    break ;
                },
            }
        }
        rpn
    }
}

} // verus!
