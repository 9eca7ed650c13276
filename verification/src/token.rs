//! Operators, the operator table, and tokens.
use crate::literal::Literal;
use vstd::prelude::*;

verus! {

/// A binary operator of the expression language.
#[derive(Clone, Copy, Debug, PartialEq, Eq, Structural)]
pub enum Operator {
    Add,
    Sub,
    Mul,
    Div,
    Rem,
    Pow,
}

impl Operator {
    /// The operator that a character denotes, if any.
    pub open spec fn from_symbol_spec(c: char) -> Option<Operator> {
        if c == '+' {
            Some(Operator::Add)
        } else if c == '-' {
            Some(Operator::Sub)
        } else if c == '*' {
            Some(Operator::Mul)
        } else if c == '/' {
            Some(Operator::Div)
        } else if c == '%' {
            Some(Operator::Rem)
        } else if c == '^' {
            Some(Operator::Pow)
        } else {
            None
        }
    }

    /// The character that denotes the operator.
    pub open spec fn symbol_spec(self) -> char {
        match self {
            Operator::Add => '+',
            Operator::Sub => '-',
            Operator::Mul => '*',
            Operator::Div => '/',
            Operator::Rem => '%',
            Operator::Pow => '^',
        }
    }

    /// Whether the operator fails on a zero right-hand operand.
    pub open spec fn divides_spec(self) -> bool {
        self == Operator::Div || self == Operator::Rem
    }

    /// The operator that `c` denotes, if any.
    #[verifier::when_used_as_spec(from_symbol_spec)]
    pub fn from_symbol(c: char) -> (r: Option<Operator>)
        ensures
            r == Operator::from_symbol_spec(c),
    {
        if c == '+' {
            Some(Operator::Add)
        } else if c == '-' {
            Some(Operator::Sub)
        } else if c == '*' {
            Some(Operator::Mul)
        } else if c == '/' {
            Some(Operator::Div)
        } else if c == '%' {
            Some(Operator::Rem)
        } else if c == '^' {
            Some(Operator::Pow)
        } else {
            None
        }
    }

    /// The character that denotes the operator.
    #[verifier::when_used_as_spec(symbol_spec)]
    pub fn symbol(self) -> (r: char)
        ensures
            r == self.symbol_spec(),
            Operator::from_symbol_spec(r) == Some(self),
    {
        match self {
            Operator::Add => '+',
            Operator::Sub => '-',
            Operator::Mul => '*',
            Operator::Div => '/',
            Operator::Rem => '%',
            Operator::Pow => '^',
        }
    }

    /// Whether the operator fails on a zero right-hand operand.
    #[verifier::when_used_as_spec(divides_spec)]
    pub fn divides(self) -> (r: bool)
        ensures
            r == self.divides_spec(),
    {
        match self {
            Operator::Div => true,
            Operator::Rem => true,
            _ => false,
        }
    }
}

/// How operators of equal precedence group.
#[derive(Clone, Copy, Debug, PartialEq, Eq, Structural)]
pub enum Associativity {
    Left,
    Right,
}

impl Default for Associativity {
    fn default() -> (r: Associativity)
        ensures
            r == Associativity::Left,
    {
        Associativity::Left
    }
}

/// What the converter needs to know of an operator.
#[derive(Clone, Copy, Debug, PartialEq, Eq, Structural)]
pub struct OpInfo {
    pub precedence: u32,
    pub associativity: Associativity,
}

impl Default for OpInfo {
    fn default() -> (r: OpInfo)
        ensures
            r == (OpInfo { precedence: 0, associativity: Associativity::Left }),
    {
        OpInfo { precedence: 0, associativity: Associativity::Left }
    }
}

impl OpInfo {
    /// The operator table: additive operators bind loosest, then the
    /// multiplicative ones, then the power operator, which alone groups to
    /// the right. Any other character gets the default descriptor.
    pub open spec fn of_spec(op: char) -> OpInfo {
        if op == '+' || op == '-' {
            OpInfo { precedence: 10, associativity: Associativity::Left }
        } else if op == '*' || op == '/' || op == '%' {
            OpInfo { precedence: 20, associativity: Associativity::Left }
        } else if op == '^' {
            OpInfo { precedence: 30, associativity: Associativity::Right }
        } else {
            OpInfo { precedence: 0, associativity: Associativity::Left }
        }
    }

    /// Whether an operator with this descriptor, on top of the stack, leaves
    /// the stack before an incoming operator with descriptor `other` enters.
    pub open spec fn should_pop_spec(&self, other: OpInfo) -> bool {
        self.precedence > other.precedence || (self.precedence == other.precedence
            && self.associativity == Associativity::Left)
    }

    /// Looks an operator symbol up in the operator table.
    #[verifier::when_used_as_spec(of_spec)]
    pub fn of(op: char) -> (r: OpInfo)
        ensures
            r == OpInfo::of_spec(op),
    {
        match op {
            '+' | '-' => OpInfo { precedence: 10, associativity: Associativity::Left },
            '*' | '/' | '%' => OpInfo { precedence: 20, associativity: Associativity::Left },
            '^' => OpInfo { precedence: 30, associativity: Associativity::Right },
            _ => OpInfo::default(),
        }
    }

    /// Whether this operator, on top of the stack, leaves it before `other` enters.
    #[verifier::when_used_as_spec(should_pop_spec)]
    pub fn should_pop(&self, other: OpInfo) -> (r: bool)
        ensures
            r == self.should_pop_spec(other),
    {
        self.precedence > other.precedence || (self.precedence == other.precedence
            && self.associativity == Associativity::Left)
    }
}

/// One lexical unit of an expression.
#[derive(Debug, PartialEq)]
pub enum Token {
    /// A name. It is recognised and carried along, never looked up.
    Variable(String),
    /// A decimal literal, with its sign if it has one.
    Number(Literal),
    /// A binary operator.
    Operator(Operator),
    LeftParen,
    RightParen,
    /// What a token source hands out once it is exhausted.
    EndOfInput,
}

/// The mathematical value of a token: names and literals as character
/// sequences.
pub enum TokenModel {
    Variable(Seq<char>),
    Number(Seq<char>),
    Operator(Operator),
    LeftParen,
    RightParen,
    EndOfInput,
}

impl View for Token {
    type V = TokenModel;

    open spec fn view(&self) -> TokenModel {
        match self {
            Token::Variable(name) => TokenModel::Variable(name@),
            Token::Number(literal) => TokenModel::Number(literal@),
            Token::Operator(op) => TokenModel::Operator(*op),
            Token::LeftParen => TokenModel::LeftParen,
            Token::RightParen => TokenModel::RightParen,
            Token::EndOfInput => TokenModel::EndOfInput,
        }
    }
}

impl Clone for Token {
    fn clone(&self) -> (r: Token)
        ensures
            r@ == self@,
    {
        match self {
            Token::Variable(name) => Token::Variable(name.clone()),
            Token::Number(literal) => Token::Number(literal.clone()),
            Token::Operator(op) => Token::Operator(*op),
            Token::LeftParen => Token::LeftParen,
            Token::RightParen => Token::RightParen,
            Token::EndOfInput => Token::EndOfInput,
        }
    }
}

/// The values of a sequence of tokens, in order.
pub open spec fn models(tokens: Seq<Token>) -> Seq<TokenModel> {
    tokens.map_values(|t: Token| t@)
}

} // verus!
