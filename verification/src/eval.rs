//! The evaluator: a stack machine over postfix tokens.
//!
//! The machine decides; it does no arithmetic. For each token it says what
//! is to be done, and whoever drives it converts literals to values and
//! applies operators, in double-precision arithmetic, and hands the results
//! back.
use crate::literal::is_decimal;
use crate::token::{models, Operator, Token, TokenModel};
use vstd::prelude::*;

verus! {

/// A double-precision number, held as its IEEE 754 bit pattern.
#[derive(Clone, Copy, Debug, PartialEq, Eq, Structural)]
pub struct Value {
    pub bits: u64,
}

impl Value {
    /// Zero of either sign: every bit but the sign bit is clear.
    pub open spec fn is_zero_spec(self) -> bool {
        self.bits == 0 || self.bits == 0x8000_0000_0000_0000
    }

    /// Whether the value is zero, of either sign.
    #[verifier::when_used_as_spec(is_zero_spec)]
    pub fn is_zero(self) -> (r: bool)
        ensures
            r == self.is_zero_spec(),
    {
        self.bits == 0 || self.bits == 0x8000_0000_0000_0000
    }
}

/// Why a postfix sequence has no value.
#[derive(Clone, Copy, Debug, PartialEq, Eq, Structural)]
pub enum EvalError {
    /// An operator found fewer than two operands, or no value was left at the end.
    MalformedExpression,
    /// A division or a remainder by zero, with its operands.
    DivisionByZero { lhs: Value, op: Operator, rhs: Value },
}

/// What is to be done after a token has been handed to the machine.
#[derive(Clone, Copy, Debug, PartialEq, Eq, Structural)]
pub enum Step {
    /// Nothing: go on to the next token.
    Next,
    /// The token is a number: convert its literal, `push` the value, go on.
    Load,
    /// Compute `lhs op rhs`, `push` the result, go on.
    Apply { lhs: Value, op: Operator, rhs: Value },
    /// Stop: the expression has no value.
    Fail(EvalError),
}

/// Value stack and step after `token` has met the stack `stack`.
///
/// A number leaves the stack to its driver. An operator takes its right
/// operand from the top and its left operand from below it; it fails, and
/// leaves the stack alone, where there are no two, or where it divides by
/// zero. Every other token is passed over.
pub open spec fn step_of(stack: Seq<Value>, token: TokenModel) -> (Seq<Value>, Step) {
    match token {
        TokenModel::Number(_) => (stack, Step::Load),
        TokenModel::Operator(op) => {
            if stack.len() < 2 {
                (stack, Step::Fail(EvalError::MalformedExpression))
            } else {
                let rhs = stack[stack.len() - 1];
                let lhs = stack[stack.len() - 2];
                if op.divides_spec() && rhs.is_zero_spec() {
                    (stack, Step::Fail(EvalError::DivisionByZero { lhs, op, rhs }))
                } else {
                    (stack.take(stack.len() - 2), Step::Apply { lhs, op, rhs })
                }
            }
        },
        _ => (stack, Step::Next),
    }
}

/// The result that a value stack stands for once the tokens are used up:
/// its bottom value, whatever lies above it.
pub open spec fn result_of(stack: Seq<Value>) -> Result<Value, EvalError> {
    if stack.len() == 0 {
        Err(EvalError::MalformedExpression)
    } else {
        Ok(stack[0])
    }
}

/// The result of driving the machine over `postfix` from the stack `stack`,
/// where `convert` gives the value of a literal and `apply` the result of an
/// operator.
pub open spec fn run(
    postfix: Seq<TokenModel>,
    stack: Seq<Value>,
    convert: spec_fn(Seq<char>) -> Value,
    apply: spec_fn(Value, Operator, Value) -> Value,
) -> Result<Value, EvalError>
    decreases postfix.len(),
{
    if postfix.len() == 0 {
        result_of(stack)
    } else {
        let rest = postfix.drop_first();
        let (kept, step) = step_of(stack, postfix[0]);
        match step {
            Step::Next => run(rest, kept, convert, apply),
            Step::Load => run(rest, kept.push(convert(postfix[0]->Number_0)), convert, apply),
            Step::Apply { lhs, op, rhs } => run(
                rest,
                kept.push(apply(lhs, op, rhs)),
                convert,
                apply,
            ),
            Step::Fail(e) => Err(e),
        }
    }
}

/// The value of a postfix sequence under `convert` and `apply`.
pub open spec fn evaluate(
    postfix: Seq<TokenModel>,
    convert: spec_fn(Seq<char>) -> Value,
    apply: spec_fn(Value, Operator, Value) -> Value,
) -> Result<Value, EvalError> {
    run(postfix, Seq::empty(), convert, apply)
}

/// The stack machine.
#[derive(Debug)]
pub struct Evaluator {
    stack: Vec<Value>,
}

impl View for Evaluator {
    type V = Seq<Value>;

    /// The value stack, bottom first.
    closed spec fn view(&self) -> Seq<Value> {
        self.stack@
    }
}

impl Evaluator {
    /// A machine with an empty stack.
    pub fn new() -> (r: Evaluator)
        ensures
            r@ == Seq::<Value>::empty(),
    {
        Evaluator { stack: Vec::new() }
    }

    /// Hands the next token to the machine.
    pub fn step(&mut self, token: &Token) -> (r: Step)
        ensures
            (final(self)@, r) == step_of(old(self)@, token@),
    {
        match token {
            Token::Number(_) => Step::Load,
            Token::Operator(op) => {
                let n = self.stack.len();
                if n < 2 {
                    return Step::Fail(EvalError::MalformedExpression);
                }
                let rhs = self.stack[n - 1];
                let lhs = self.stack[n - 2];
                if op.divides() && rhs.is_zero() {
                    Step::Fail(EvalError::DivisionByZero { lhs, op: *op, rhs })
                } else {
                    let ghost before = self.stack@;
                    self.stack.pop();
                    self.stack.pop();
                    proof {
                        assert(self.stack@ =~= before.take(before.len() - 2));
                    }
                    Step::Apply { lhs, op: *op, rhs }
                }
            },
            _ => Step::Next,
        }
    }

    /// Puts a value on the stack: a converted literal after `Step::Load`,
    /// an operator's result after `Step::Apply`.
    pub fn push(&mut self, value: Value)
        ensures
            final(self)@ == old(self)@.push(value),
    {
        self.stack.push(value);
    }

    /// The result, once every token has been handed over.
    pub fn finish(&self) -> (r: Result<Value, EvalError>)
        ensures
            r == result_of(self@),
    {
        if self.stack.len() == 0 {
            Err(EvalError::MalformedExpression)
        } else {
            Ok(self.stack[0])
        }
    }
}

/// Whether the conversion `convert` computes the function `f` of a literal's text.
pub open spec fn converts_as<C: Fn(&str) -> Value>(
    convert: C,
    f: spec_fn(Seq<char>) -> Value,
) -> bool {
    forall|text: &str, value: Value| #[trigger]
        convert.ensures((text,), value) ==> value == f(text@)
}

/// Whether the arithmetic `apply` computes the function `f` of two operands
/// and an operator.
pub open spec fn applies_as<A: Fn(Value, Operator, Value) -> Value>(
    apply: A,
    f: spec_fn(Value, Operator, Value) -> Value,
) -> bool {
    forall|lhs: Value, op: Operator, rhs: Value, value: Value| #[trigger]
        apply.ensures((lhs, op, rhs), value) ==> value == f(lhs, op, rhs)
}

/// Evaluates a postfix sequence, with `convert` for the value of a literal
/// and `apply` for the arithmetic. `apply` is never asked to divide by zero.
pub fn eval<C: Fn(&str) -> Value, A: Fn(Value, Operator, Value) -> Value>(
    rpn_expr: Vec<Token>,
    convert: C,
    apply: A,
) -> (r: Result<Value, EvalError>)
    requires
        forall|text: &str| is_decimal(text@) ==> #[trigger] convert.requires((text,)),
        forall|lhs: Value, op: Operator, rhs: Value|
            !(op.divides_spec() && rhs.is_zero_spec()) ==> #[trigger] apply.requires(
                (lhs, op, rhs),
            ),
    ensures
        forall|cf: spec_fn(Seq<char>) -> Value, af: spec_fn(Value, Operator, Value) -> Value|
            converts_as(convert, cf) && applies_as(apply, af) ==> r == #[trigger] evaluate(
                models(rpn_expr@),
                cf,
                af,
            ),
{
    let ghost all = models(rpn_expr@);
    let mut machine = Evaluator::new();
    let mut i: usize = 0;
    proof {
        assert(all.skip(0) =~= all);
    }
    while i < rpn_expr.len()
        invariant
            i <= rpn_expr@.len(),
            all == models(rpn_expr@),
            forall|text: &str| is_decimal(text@) ==> #[trigger] convert.requires((text,)),
            forall|lhs: Value, op: Operator, rhs: Value|
                !(op.divides_spec() && rhs.is_zero_spec()) ==> #[trigger] apply.requires(
                    (lhs, op, rhs),
                ),
            forall|cf: spec_fn(Seq<char>) -> Value, af: spec_fn(Value, Operator, Value) -> Value|
                converts_as(convert, cf) && applies_as(apply, af) ==> #[trigger] run(
                    all.skip(i as int),
                    machine@,
                    cf,
                    af,
                ) == evaluate(all, cf, af),
        decreases rpn_expr@.len() - i,
    {
        let ghost stack = machine@;
        let ghost tail = all.skip(i as int);
        proof {
            assert(tail[0] == rpn_expr@[i as int]@);
            assert(tail.drop_first() =~= all.skip(i + 1));
        }
        match machine.step(&rpn_expr[i]) {
            Step::Next => {},
            Step::Load => {
                match &rpn_expr[i] {
                    Token::Number(literal) => {
                        let value = convert(literal.text());
                        machine.push(value);
                    },
                    _ => {},
                }
            },
            Step::Apply { lhs, op, rhs } => {
                let value = apply(lhs, op, rhs);
                machine.push(value);
            },
            Step::Fail(e) => {
                proof {
                    assert forall|
                        cf: spec_fn(Seq<char>) -> Value,
                        af: spec_fn(Value, Operator, Value) -> Value,
                    | converts_as(convert, cf) && applies_as(apply, af) implies Err::<
                        Value,
                        EvalError,
                    >(e) == #[trigger] evaluate(all, cf, af) by {
                        assert(run(tail, stack, cf, af) == evaluate(all, cf, af));
                    }
                }
                return Err(e);
            },
        }
        i += 1;
        proof {
            assert forall|
                cf: spec_fn(Seq<char>) -> Value,
                af: spec_fn(Value, Operator, Value) -> Value,
            | converts_as(convert, cf) && applies_as(apply, af) implies #[trigger] run(
                all.skip(i as int),
                machine@,
                cf,
                af,
            ) == evaluate(all, cf, af) by {
                assert(run(tail, stack, cf, af) == evaluate(all, cf, af));
            }
        }
    }
    proof {
        assert(all.skip(i as int) =~= Seq::<TokenModel>::empty());
        assert forall|
            cf: spec_fn(Seq<char>) -> Value,
            af: spec_fn(Value, Operator, Value) -> Value,
        | converts_as(convert, cf) && applies_as(apply, af) implies result_of(machine@)
            == #[trigger] evaluate(all, cf, af) by {
            assert(run(all.skip(i as int), machine@, cf, af) == evaluate(all, cf, af));
        }
    }
    machine.finish()
}

} // verus!
