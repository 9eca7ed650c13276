//! The tokenizer: text to tokens.
use crate::chars::{
    is_digit, is_digit_spec, is_letter, is_letter_spec, is_name_char, is_name_char_spec,
    is_number_char, is_number_char_spec, is_sign_spec, significant_chars, strip_whitespace,
};
use crate::literal::{is_decimal, Literal};
use crate::token::{models, Operator, Token, TokenModel};
use vstd::prelude::*;

verus! {

/// `String::push` of the standard library: the character is appended, and
/// what was there stays.
pub assume_specification[ String::push ](s: &mut String, ch: char)
    ensures
        final(s)@ == old(s)@.push(ch),
;

/// Why a text is no sequence of tokens.
#[derive(Debug, PartialEq)]
pub enum LexError {
    /// A character that starts no token.
    InvalidChar(char),
    /// A run of sign, digits and decimal points that is no decimal literal.
    InvalidNumber(String),
}

/// The mathematical value of a `LexError`.
pub enum LexErrorModel {
    InvalidChar(char),
    InvalidNumber(Seq<char>),
}

impl View for LexError {
    type V = LexErrorModel;

    open spec fn view(&self) -> LexErrorModel {
        match self {
            LexError::InvalidChar(c) => LexErrorModel::InvalidChar(*c),
            LexError::InvalidNumber(text) => LexErrorModel::InvalidNumber(text@),
        }
    }
}

impl Clone for LexError {
    fn clone(&self) -> (r: LexError)
        ensures
            r@ == self@,
    {
        match self {
            LexError::InvalidChar(c) => LexError::InvalidChar(*c),
            LexError::InvalidNumber(text) => LexError::InvalidNumber(text.clone()),
        }
    }
}

/// The length of the longest run of digits and decimal points that starts at `i`.
pub open spec fn number_run(s: Seq<char>, i: int) -> nat
    decreases s.len() - i,
{
    if 0 <= i < s.len() && is_number_char_spec(s[i]) {
        1 + number_run(s, i + 1)
    } else {
        0
    }
}

/// The length of the longest run of letters, underscores and digits that starts at `i`.
pub open spec fn name_run(s: Seq<char>, i: int) -> nat
    decreases s.len() - i,
{
    if 0 <= i < s.len() && is_name_char_spec(s[i]) {
        1 + name_run(s, i + 1)
    } else {
        0
    }
}

/// The longest run of digits and decimal points that starts at `i`; none
/// starts past the end.
pub open spec fn number_text(s: Seq<char>, i: int) -> Seq<char> {
    if 0 <= i <= s.len() {
        s.subrange(i, i + number_run(s, i))
    } else {
        Seq::empty()
    }
}

/// Whether a sign at `i` is a binary operator: it is one exactly when the
/// character just before it is a digit, a letter, an underscore or a closing
/// parenthesis. At the start, and after anything else, it is the sign of a number.
pub open spec fn sign_is_binary(s: Seq<char>, i: int) -> bool {
    i > 0 && (is_digit_spec(s[i - 1]) || is_letter_spec(s[i - 1]) || s[i - 1] == ')')
}

/// Whether a number starts at `i`: with a digit, or with a sign that is no
/// binary operator.
pub open spec fn starts_number(s: Seq<char>, i: int) -> bool {
    is_digit_spec(s[i]) || (is_sign_spec(s[i]) && !sign_is_binary(s, i))
}

/// Where the lexeme that starts at `i` ends. Numbers and names are as long
/// as they can be; everything else is one character.
pub open spec fn lexeme_end(s: Seq<char>, i: int) -> int {
    if starts_number(s, i) {
        i + 1 + number_run(s, i + 1)
    } else if is_letter_spec(s[i]) {
        i + 1 + name_run(s, i + 1)
    } else {
        i + 1
    }
}

/// The token that the lexeme at `i` stands for, or why it stands for none.
pub open spec fn lexeme(s: Seq<char>, i: int) -> Result<TokenModel, LexErrorModel> {
    let c = s[i];
    let text = s.subrange(i, lexeme_end(s, i));
    if c == '(' {
        Ok(TokenModel::LeftParen)
    } else if c == ')' {
        Ok(TokenModel::RightParen)
    } else if starts_number(s, i) {
        if is_decimal(text) {
            Ok(TokenModel::Number(text))
        } else {
            Err(LexErrorModel::InvalidNumber(text))
        }
    } else if Operator::from_symbol_spec(c) is Some {
        Ok(TokenModel::Operator(Operator::from_symbol_spec(c).unwrap()))
    } else if is_letter_spec(c) {
        Ok(TokenModel::Variable(text))
    } else {
        Err(LexErrorModel::InvalidChar(c))
    }
}

/// `head` followed by the tokens of `tail`, or the error of `tail`.
pub open spec fn prepend(
    head: Seq<TokenModel>,
    tail: Result<Seq<TokenModel>, LexErrorModel>,
) -> Result<Seq<TokenModel>, LexErrorModel> {
    match tail {
        Ok(rest) => Ok(head + rest),
        Err(e) => Err(e),
    }
}

/// The tokens of `s` from `i` on, where `s` holds no whitespace: lexeme by
/// lexeme from left to right, up to the first one that stands for no token.
pub open spec fn lex_from(s: Seq<char>, i: int) -> Result<Seq<TokenModel>, LexErrorModel>
    decreases s.len() - i,
{
    if i < 0 || i >= s.len() {
        Ok(Seq::empty())
    } else {
        proof {
            lemma_number_run_bound(s, i + 1);
            lemma_name_run_bound(s, i + 1);
        }
        match lexeme(s, i) {
            Ok(token) => prepend(seq![token], lex_from(s, lexeme_end(s, i))),
            Err(e) => Err(e),
        }
    }
}

/// What a text tokenizes to. Whitespace goes first, wherever it stands.
pub open spec fn tokenize(text: Seq<char>) -> Result<Seq<TokenModel>, LexErrorModel> {
    lex_from(strip_whitespace(text), 0)
}

/// A run of number characters ends inside the sequence.
pub proof fn lemma_number_run_bound(s: Seq<char>, i: int)
    requires
        0 <= i <= s.len(),
    ensures
        i + number_run(s, i) <= s.len(),
    decreases s.len() - i,
{
    if i < s.len() && is_number_char_spec(s[i]) {
        lemma_number_run_bound(s, i + 1);
    }
}

/// A run of name characters ends inside the sequence.
pub proof fn lemma_name_run_bound(s: Seq<char>, i: int)
    requires
        0 <= i <= s.len(),
    ensures
        i + name_run(s, i) <= s.len(),
    decreases s.len() - i,
{
    if i < s.len() && is_name_char_spec(s[i]) {
        lemma_name_run_bound(s, i + 1);
    }
}

/// Appends to `buf` the run of digits and decimal points that starts at
/// `*i`, moves `*i` past it, and reads what `buf` then holds as a literal.
/// At or past the end of `chars` there is no such run.
pub fn read_number(chars: &[char], i: &mut usize, buf: &mut String) -> (r: Result<
    Literal,
    LexError,
>)
    ensures
        *final(i) == *old(i) + number_run(chars@, *old(i) as int),
        final(buf)@ == old(buf)@ + number_text(chars@, *old(i) as int),
        match r {
            Ok(literal) => is_decimal(final(buf)@) && literal@ == final(buf)@,
            Err(e) => !is_decimal(final(buf)@) && e@ == LexErrorModel::InvalidNumber(
                final(buf)@,
            ),
        },
{
    let ghost start = *i as int;
    let ghost before = buf@;
    proof {
        if start <= chars@.len() {
            lemma_number_run_bound(chars@, start);
            assert(chars@.subrange(start, start) =~= Seq::<char>::empty());
        }
        assert(before + Seq::<char>::empty() =~= before);
    }
    while *i < chars.len() && is_number_char(chars[*i])
        invariant
            start <= *i,
            start <= chars@.len() ==> *i <= chars@.len(),
            *i + number_run(chars@, *i as int) == start + number_run(chars@, start),
            buf@ == before + if start <= chars@.len() {
                chars@.subrange(start, *i as int)
            } else {
                Seq::<char>::empty()
            },
        decreases chars@.len() - *i,
    {
        let next = chars[*i];
        proof {
            lemma_number_run_bound(chars@, *i + 1);
            assert(chars@.subrange(start, *i + 1) =~= chars@.subrange(start, *i as int).push(
                next,
            ));
            assert((before + chars@.subrange(start, *i as int)).push(next) =~= before
                + chars@.subrange(start, *i as int).push(next));
        }
        buf.push(next);
        *i += 1;
    }
    match Literal::new(buf.as_str()) {
        Some(literal) => Ok(literal),
        None => Err(LexError::InvalidNumber(buf.clone())),
    }
}

/// The tokens of `tokens`, last first.
fn reversed(tokens: Vec<Token>) -> (r: Vec<Token>)
    ensures
        r@ == tokens@.reverse(),
{
    let mut tokens = tokens;
    let mut out: Vec<Token> = Vec::new();
    let ghost all = tokens@;
    while tokens.len() > 0
        invariant
            tokens@ == all.take(tokens@.len() as int),
            out@.len() + tokens@.len() == all.len(),
            forall|k: int| 0 <= k < out@.len() ==> out@[k] == all[all.len() - 1 - k],
        decreases tokens@.len(),
    {
        let token = tokens.pop().unwrap();
        out.push(token);
    }
    assert(out@ =~= all.reverse());
    out
}

/// A source of tokens that hands them out from left to right.
#[derive(Debug)]
pub struct Lexer {
    tokens: Vec<Token>,
}

impl View for Lexer {
    type V = Seq<TokenModel>;

    /// The tokens still to come, in the order in which `next` hands them out.
    closed spec fn view(&self) -> Seq<TokenModel> {
        models(self.tokens@.reverse())
    }
}

impl Lexer {
    /// A source that hands out `tokens`, first to last.
    pub fn new(tokens: Vec<Token>) -> (r: Lexer)
        ensures
            r@ == models(tokens@),
    {
        proof {
            assert(tokens@.reverse().reverse() =~= tokens@);
        }
        Lexer { tokens: reversed(tokens) }
    }

    /// Tokenizes `input`: gives a source of its tokens, in order, or the
    /// first lexeme from the left that stands for none.
    ///
    /// Whitespace is dropped first. Parentheses and `* / % ^` are tokens of
    /// one character. A `+` or `-` is an operator after a digit, a letter, an
    /// underscore or `)`, and otherwise starts a number. A number takes every
    /// digit and decimal point that follows, and must be a decimal literal. A
    /// name starts with a letter or an underscore and takes every letter,
    /// digit and underscore that follows. Nothing else starts a token.
    pub fn scan(input: &str) -> (r: Result<Lexer, LexError>)
        ensures
            match r {
                Ok(lexer) => tokenize(input@) == Ok::<Seq<TokenModel>, LexErrorModel>(lexer@),
                Err(e) => tokenize(input@) == Err::<Seq<TokenModel>, LexErrorModel>(e@),
            },
    {
        let chars = significant_chars(input);
        let ghost s = chars@;
        let mut tokens: Vec<Token> = Vec::new();
        let mut i: usize = 0;
        proof {
            assert(models(tokens@) + lex_from(s, 0)->Ok_0 =~= lex_from(s, 0)->Ok_0);
        }
        while i < chars.len()
            invariant
                s == chars@,
                s == strip_whitespace(input@),
                i <= s.len(),
                lex_from(s, 0) == prepend(models(tokens@), lex_from(s, i as int)),
            decreases s.len() - i,
        {
            let mut buf = String::new();
            let this = chars[i];
            let ghost start = i as int;
            let ghost done = models(tokens@);
            proof {
                lemma_number_run_bound(s, start + 1);
                lemma_name_run_bound(s, start + 1);
                assert(s.subrange(start, start + 1) =~= seq![this]);
                assert(Seq::<char>::empty().push(this) =~= seq![this]);
            }
            i += 1;
            match this {
                '(' => {
                    tokens.push(Token::LeftParen);
                },
                ')' => {
                    tokens.push(Token::RightParen);
                },
                '*' | '/' | '^' | '%' => {
                    tokens.push(Token::Operator(Operator::from_symbol(this).unwrap()));
                },
                '+' | '-' => {
                    if i > 1 && (is_digit(chars[i - 2]) || is_letter(chars[i - 2]) || chars[i
                        - 2] == ')') {
                        tokens.push(Token::Operator(Operator::from_symbol(this).unwrap()));
                    } else {
                        buf.push(this);
                        match read_number(chars.as_slice(), &mut i, &mut buf) {
                            Ok(literal) => {
                                proof {
                                    assert(buf@ =~= s.subrange(start, i as int));
                                }
                                tokens.push(Token::Number(literal));
                            },
                            Err(e) => {
                                proof {
                                    assert(buf@ =~= s.subrange(start, i as int));
                                }
                                return Err(e);
                            },
                        }
                    }
                },
                _ => {
                    if is_digit(this) {
                        buf.push(this);
                        match read_number(chars.as_slice(), &mut i, &mut buf) {
                            Ok(literal) => {
                                proof {
                                    assert(buf@ =~= s.subrange(start, i as int));
                                }
                                tokens.push(Token::Number(literal));
                            },
                            Err(e) => {
                                proof {
                                    assert(buf@ =~= s.subrange(start, i as int));
                                }
                                return Err(e);
                            },
                        }
                    } else if is_letter(this) {
                        buf.push(this);
                        while i < chars.len() && is_name_char(chars[i])
                            invariant
                                s == chars@,
                                0 <= start < i <= s.len(),
                                i + name_run(s, i as int) == start + 1 + name_run(s, start + 1),
                                buf@ == s.subrange(start, i as int),
                            decreases s.len() - i,
                        {
                            let next = chars[i];
                            proof {
                                lemma_name_run_bound(s, i + 1);
                                assert(s.subrange(start, i + 1) =~= s.subrange(
                                    start,
                                    i as int,
                                ).push(next));
                            }
                            buf.push(next);
                            i += 1;
                        }
                        tokens.push(Token::Variable(buf));
                    } else {
                        return Err(LexError::InvalidChar(this));
                    }
                },
            }
            proof {
                let token = lexeme(s, start)->Ok_0;
                assert(i == lexeme_end(s, start));
                assert(models(tokens@) =~= done.push(token));
                match lex_from(s, i as int) {
                    Ok(rest) => {
                        assert(done + (seq![token] + rest) =~= done.push(token) + rest);
                    },
                    Err(_) => {},
                }
            }
        }
        proof {
            assert(models(tokens@) + Seq::<TokenModel>::empty() =~= models(tokens@));
            assert(tokens@.reverse().reverse() =~= tokens@);
        }
        Ok(Lexer { tokens: reversed(tokens) })
    }

    /// Hands out the next token, or `EndOfInput` once none is left.
    pub fn next(&mut self) -> (r: Token)
        ensures
            old(self)@.len() > 0 ==> r@ == old(self)@[0] && final(self)@ == old(self)@.drop_first(),
            old(self)@.len() == 0 ==> r@ == TokenModel::EndOfInput && final(self)@ == old(self)@,
    {
        let ghost before = self.tokens@;
        match self.tokens.pop() {
            Some(token) => {
                proof {
                    assert(models(self.tokens@.reverse()) =~= models(
                        before.reverse(),
                    ).drop_first());
                }
                token
            },
            None => Token::EndOfInput,
        }
    }
}

} // verus!
