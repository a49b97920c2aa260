//! Mathematical model of the shunting-yard conversion: a state machine over
//! an operator stack and an output sequence, driven one character at a time.

use vstd::prelude::*;

use crate::token::ConvError;
use crate::token::Token;
use crate::token::is_ascii_ws;
use crate::token::spec_classify;
use crate::token::spec_precedence;
use crate::token::spec_token_char;

verus! {

/// Pops the stack until a `(` is found and discards it, emitting each popped
/// operator; fails with `UnmatchedCloseParen` when the stack runs out first.
/// This is the effect of reading one `)`.
pub open spec fn pop_until_open(stack: Seq<Token>, out: Seq<char>) -> Result<
    (Seq<Token>, Seq<char>),
    ConvError,
>
    decreases stack.len(),
{
    if stack.len() == 0 {
        Err(ConvError::UnmatchedCloseParen)
    } else if stack.last() is Open {
        Ok((stack.drop_last(), out))
    } else {
        pop_until_open(stack.drop_last(), out.push(spec_token_char(stack.last())))
    }
}

/// Pops and emits stacked tokens as long as their precedence is at least `p`
/// (left-associativity: equal precedence still pops). A `(` on top ranks 0
/// and therefore always stops the popping.
pub open spec fn pop_while_ge(stack: Seq<Token>, out: Seq<char>, p: nat) -> (Seq<Token>, Seq<char>)
    decreases stack.len(),
{
    if stack.len() > 0 && p <= spec_precedence(stack.last()) {
        pop_while_ge(stack.drop_last(), out.push(spec_token_char(stack.last())), p)
    } else {
        (stack, out)
    }
}

/// Empties the stack into the output at end of input, most recently pushed
/// token first; a leftover `(` fails with `UnmatchedOpenParen`.
pub open spec fn drain(stack: Seq<Token>, out: Seq<char>) -> Result<Seq<char>, ConvError>
    decreases stack.len(),
{
    if stack.len() == 0 {
        Ok(out)
    } else if stack.last() is Open {
        Err(ConvError::UnmatchedOpenParen)
    } else {
        drain(stack.drop_last(), out.push(spec_token_char(stack.last())))
    }
}

/// Runs the converter over `input` from the state `(stack, out)`, skipping
/// whitespace and applying one transition per classified character. Returns
/// the end-of-input state, or the first error raised on the way.
pub open spec fn scan(input: Seq<char>, stack: Seq<Token>, out: Seq<char>) -> Result<
    (Seq<Token>, Seq<char>),
    ConvError,
>
    decreases input.len(),
{
    if input.len() == 0 {
        Ok((stack, out))
    } else {
        let c = input.first();
        let rest = input.drop_first();
        if is_ascii_ws(c) {
            scan(rest, stack, out)
        } else {
            match spec_classify(c) {
                None => Err(ConvError::InvalidCharacter(c)),
                Some(Token::Open) => scan(rest, stack.push(Token::Open), out),
                Some(Token::Close) => match pop_until_open(stack, out) {
                    Ok(so) => scan(rest, so.0, so.1),
                    Err(e) => Err(e),
                },
                Some(Token::Ident(x)) => scan(rest, stack, out.push(x)),
                Some(op) => {
                    let so = pop_while_ge(stack, out, spec_precedence(op));
                    scan(rest, so.0.push(op), so.1)
                },
            }
        }
    }
}

/// The whole conversion of one input: scan every character from empty stack
/// and empty output, then drain what is left on the stack.
pub open spec fn spec_convert(input: Seq<char>) -> Result<Seq<char>, ConvError> {
    match scan(input, Seq::empty(), Seq::empty()) {
        Ok(so) => drain(so.0, so.1),
        Err(e) => Err(e),
    }
}

/// The formatter's result: the output symbols joined by single spaces.
pub open spec fn join_with_spaces(out: Seq<char>) -> Seq<char>
    decreases out.len(),
{
    if out.len() == 0 {
        Seq::empty()
    } else if out.len() == 1 {
        seq![out[0]]
    } else {
        join_with_spaces(out.drop_last()) + seq![' ', out.last()]
    }
}

/// True when every token of `stack` may legally sit on the operator stack:
/// only operators and `(` are ever pushed.
pub open spec fn wf_stack(stack: Seq<Token>) -> bool {
    forall|k: int| 0 <= k < stack.len() ==> crate::token::is_stack_token(#[trigger] stack[k])
}

} // verus!
