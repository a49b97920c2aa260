//! Lexical symbols of an infix expression and their classification.

use vstd::prelude::*;
use vstd::string::StringExecFns;

verus! {

/// One lexical symbol of an infix arithmetic expression: one of the four
/// binary operators, a parenthesis, or a single-letter identifier.
#[derive(Clone, Copy, Debug, PartialEq, Eq)]
pub enum Token {
    Add,
    Sub,
    Mul,
    Div,
    Open,
    Close,
    Ident(char),
}

/// The three ways a conversion can fail.
#[derive(Clone, Copy, Debug, PartialEq, Eq)]
pub enum ConvError {
    /// A character that is not whitespace, an operator, a parenthesis or an
    /// ASCII letter was encountered.
    InvalidCharacter(char),
    /// A `(` was still on the operator stack when the input ended.
    UnmatchedOpenParen,
    /// A `)` was seen with no matching `(` on the operator stack.
    UnmatchedCloseParen,
}

/// ASCII whitespace: space, tab, line feed, form feed, carriage return.
pub open spec fn is_ascii_ws(c: char) -> bool {
    c == ' ' || c == '\t' || c == '\n' || c == '\x0C' || c == '\r'
}

/// ASCII letter, upper or lower case.
pub open spec fn is_ascii_letter(c: char) -> bool {
    (65 <= c as u32 && c as u32 <= 90) || (97 <= c as u32 && c as u32 <= 122)
}

/// Classification of one non-whitespace character; `None` means invalid.
pub open spec fn spec_classify(c: char) -> Option<Token> {
    if c == '+' {
        Some(Token::Add)
    } else if c == '-' {
        Some(Token::Sub)
    } else if c == '*' {
        Some(Token::Mul)
    } else if c == '/' {
        Some(Token::Div)
    } else if c == '(' {
        Some(Token::Open)
    } else if c == ')' {
        Some(Token::Close)
    } else if is_ascii_letter(c) {
        Some(Token::Ident(c))
    } else {
        None
    }
}

/// Binding strength of a token: multiplicative operators bind tighter than
/// additive ones; everything else ranks lowest and is never popped by a
/// precedence comparison.
pub open spec fn spec_precedence(t: Token) -> nat {
    match t {
        Token::Mul | Token::Div => 2,
        Token::Add | Token::Sub => 1,
        _ => 0,
    }
}

/// The single-character rendering of a token that may reach the output
/// sequence (an operator or an identifier; parentheses never reach it).
pub open spec fn spec_token_char(t: Token) -> char {
    match t {
        Token::Add => '+',
        Token::Sub => '-',
        Token::Mul => '*',
        Token::Div => '/',
        Token::Ident(c) => c,
        Token::Open => ' ',
        Token::Close => ' ',
    }
}

/// The message reported for an invalid character.
pub open spec fn invalid_char_message(c: char) -> Seq<char> {
    "invalid char is found: "@ + seq![c]
}

/// True of the tokens that may legally sit on the operator stack.
pub open spec fn is_stack_token(t: Token) -> bool {
    t is Open || is_operator(t)
}

/// True of the four binary operators.
pub open spec fn is_operator(t: Token) -> bool {
    t is Add || t is Sub || t is Mul || t is Div
}

/// Whether `c` is ASCII whitespace.
pub fn is_whitespace_char(c: char) -> (b: bool)
    ensures
        b == is_ascii_ws(c),
{
    c == ' ' || c == '\t' || c == '\n' || c == '\x0C' || c == '\r'
}

impl Token {
    /// Classifies one non-whitespace character, or reports it as invalid.
    pub fn from_char(c: char) -> (r: Result<Token, String>)
        ensures
            match spec_classify(c) {
                Some(t) => r == Ok::<Token, String>(t),
                None => r matches Err(m) && m@ == invalid_char_message(c),
            },
    {
        if c == '+' {
            Ok(Token::Add)
        } else if c == '-' {
            Ok(Token::Sub)
        } else if c == '*' {
            Ok(Token::Mul)
        } else if c == '/' {
            Ok(Token::Div)
        } else if c == '(' {
            Ok(Token::Open)
        } else if c == ')' {
            Ok(Token::Close)
        } else {
            let u = c as u32;
            if (65 <= u && u <= 90) || (97 <= u && u <= 122) {
                Ok(Token::Ident(c))
            } else {
                let mut m = String::new();
                m.append("invalid char is found: ");
                m.append(char_string(c).as_str());
                proof {
                    assert(m@ =~= invalid_char_message(c));
                }
                Err(m)
            }
        }
    }

    /// Renders a token as the character that stands for it in the output, or
    /// reports the error that surfacing this token in the output signals.
    pub fn to_char(self) -> (r: Result<char, String>)
        ensures
            match self {
                Token::Open => r matches Err(m) && m@ == "close paren is not found"@,
                Token::Close => r matches Err(m) && m@ == "invalid token is found"@,
                _ => r == Ok::<char, String>(spec_token_char(self)),
            },
    {
        match self {
            Token::Add => Ok('+'),
            Token::Sub => Ok('-'),
            Token::Mul => Ok('*'),
            Token::Div => Ok('/'),
            Token::Ident(c) => Ok(c),
            Token::Open => Err("close paren is not found".to_owned()),
            Token::Close => Err("invalid token is found".to_owned()),
        }
    }

    /// Numeric rank consulted when deciding whether a stacked operator is
    /// popped before a new one is pushed.
    pub fn precedence(&self) -> (p: usize)
        ensures
            p == spec_precedence(*self),
    {
        match self {
            Token::Mul | Token::Div => 2,
            Token::Add | Token::Sub => 1,
            _ => 0,
        }
    }
}

/// Relies on `char`'s `ToString` (through its `Display`): the returned string
/// holds exactly that one character.
#[verifier::external_body]
pub(crate) fn char_string(c: char) -> (r: String)
    ensures
        r@ == seq![c],
{
    c.to_string()
}

} // verus!
