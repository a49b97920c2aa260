//! Infix-to-postfix conversion by the shunting-yard algorithm.
//!
//! The input is an infix arithmetic expression over single-letter
//! identifiers, the four binary operators `+ - * /`, and parentheses. The
//! result is the same symbols reordered into postfix (Reverse Polish)
//! notation and joined by single spaces; malformed input is reported as an
//! error value. `machine` holds the mathematical model that the executable
//! code is proved against, `laws` the properties proved of that model.

use vstd::prelude::*;
use vstd::string::StrSliceExecFns;

pub mod laws;
pub mod machine;
pub mod token;

pub use token::ConvError;
pub use token::Token;

use crate::machine::drain;
use crate::machine::join_with_spaces;
use crate::machine::pop_until_open;
use crate::machine::pop_while_ge;
use crate::machine::scan;
use crate::machine::spec_convert;
use crate::machine::wf_stack;
use crate::token::char_string;
use crate::token::invalid_char_message;
use crate::token::is_whitespace_char;
use crate::token::spec_classify;
use crate::token::spec_precedence;

verus! {

/// Joins the output symbols into one space-separated string; an empty
/// sequence yields the empty string.
pub fn join_tokens(tokens: &Vec<char>) -> (r: String)
    ensures
        r@ == join_with_spaces(tokens@),
{
    let mut result = String::new();
    let mut j: usize = 0;
    while j < tokens.len()
        invariant
            j <= tokens@.len(),
            result@ == join_with_spaces(tokens@.take(j as int)),
        decreases tokens@.len() - j,
    {
        proof {
            reveal_strlit(" ");
            assert(tokens@.take(j as int + 1).drop_last() =~= tokens@.take(j as int));
        }
        if j > 0 {
            result.append(" ");
        }
        result.append(char_string(tokens[j]).as_str());
        proof {
            assert(result@ =~= join_with_spaces(tokens@.take(j as int + 1)));
        }
        j += 1;
    }
    proof {
        assert(tokens@.take(tokens@.len() as int) =~= tokens@);
    }
    result
}

/// Converts one infix expression to postfix notation.
///
/// On success the result is the postfix symbols joined by single spaces (an
/// input of nothing but whitespace gives the empty string). On failure the
/// result is the message of the first error the left-to-right scan meets: an
/// invalid character, a `)` with no `(` to match it, or — detected only once
/// the whole input has been read — a `(` with no `)`.
pub fn convert(source: String) -> (r: Result<String, String>)
    ensures
        match spec_convert(source@) {
            Ok(out) => r matches Ok(s) && s@ == join_with_spaces(out),
            Err(ConvError::InvalidCharacter(c)) => r matches Err(m) && m@
                == invalid_char_message(c),
            Err(ConvError::UnmatchedOpenParen) => r matches Err(m) && m@
                == "close paren is not found"@,
            Err(ConvError::UnmatchedCloseParen) => r matches Err(m) && m@
                == "open paren is not found"@,
        },
{
    let n = source.as_str().unicode_len();
    let mut stack: Vec<Token> = Vec::new();
    let mut tokens: Vec<char> = Vec::new();
    let mut i: usize = 0;

    proof {
        assert(source@.skip(0) =~= source@);
    }

    while i < n
        invariant
            i <= n,
            n as nat == source@.len(),
            wf_stack(stack@),
            scan(source@, Seq::<Token>::empty(), Seq::<char>::empty()) == scan(
                source@.skip(i as int),
                stack@,
                tokens@,
            ),
        decreases n - i,
    {
        let ghost rem = source@.skip(i as int);
        let ghost pre_stack = stack@;
        let ghost pre_toks = tokens@;
        let c = source.as_str().get_char(i);
        proof {
            assert(rem.first() == c);
            assert(rem.drop_first() =~= source@.skip(i as int + 1));
        }

        if is_whitespace_char(c) {
            i += 1;
            continue;
        }

        let current = match Token::from_char(c) {
            Ok(t) => t,
            Err(m) => {
                return Err(m);
            },
        };

        match current {
            Token::Open => {
                stack.push(Token::Open);
            },
            Token::Close => {
                loop
                    invariant_except_break
                        pop_until_open(pre_stack, pre_toks) == pop_until_open(stack@, tokens@),
                    invariant
                        wf_stack(stack@),
                        i < n,
                        n as nat == source@.len(),
                        rem == source@.skip(i as int),
                        c == rem.first(),
                        !crate::token::is_ascii_ws(c),
                        spec_classify(c) == Some(Token::Close),
                        scan(source@, Seq::<Token>::empty(), Seq::<char>::empty()) == scan(
                            rem,
                            pre_stack,
                            pre_toks,
                        ),
                    ensures
                        pop_until_open(pre_stack, pre_toks) == Ok::<
                            (Seq<Token>, Seq<char>),
                            ConvError,
                        >((stack@, tokens@)),
                        wf_stack(stack@),
                    decreases stack@.len(),
                {
                    match stack.pop() {
                        Some(Token::Open) => {
                            break;
                        },
                        Some(top) => {
                            match top.to_char() {
                                Ok(ch) => tokens.push(ch),
                                Err(m) => {
                                    return Err(m);
                                },
                            }
                        },
                        None => {
                            return Err("open paren is not found".to_owned());
                        },
                    }
                }
            },
            Token::Ident(x) => {
                tokens.push(x);
            },
            _ => {
                let p = current.precedence();
                loop
                    invariant_except_break
                        pop_while_ge(pre_stack, pre_toks, spec_precedence(current)) == pop_while_ge(
                            stack@,
                            tokens@,
                            spec_precedence(current),
                        ),
                    invariant
                        wf_stack(stack@),
                        p == spec_precedence(current),
                        1 <= p,
                    ensures
                        pop_while_ge(pre_stack, pre_toks, spec_precedence(current)) == (
                        stack@,
                        tokens@,
                        ),
                        wf_stack(stack@),
                    decreases stack@.len(),
                {
                    let ghost head_stack = stack@;
                    match stack.pop() {
                        Some(top) => {
                            if p <= top.precedence() {
                                match top.to_char() {
                                    Ok(ch) => tokens.push(ch),
                                    Err(m) => {
                                        return Err(m);
                                    },
                                }
                            } else {
                                stack.push(top);
                                proof {
                                    assert(stack@ =~= head_stack);
                                }
                                break;
                            }
                        },
                        None => {
                            break;
                        },
                    }
                }
                stack.push(current);
            },
        }

        i += 1;
    }

    proof {
        assert(source@.skip(n as int) =~= Seq::<char>::empty());
    }

    let ghost scanned_stack = stack@;
    let ghost scanned_toks = tokens@;
    proof {
        assert(spec_convert(source@) == drain(scanned_stack, scanned_toks));
    }

    loop
        invariant_except_break
            drain(scanned_stack, scanned_toks) == drain(stack@, tokens@),
        invariant
            wf_stack(stack@),
            spec_convert(source@) == drain(scanned_stack, scanned_toks),
        ensures
            drain(scanned_stack, scanned_toks) == Ok::<Seq<char>, ConvError>(tokens@),
        decreases stack@.len(),
    {
        match stack.pop() {
            Some(top) => {
                match top.to_char() {
                    Ok(ch) => tokens.push(ch),
                    Err(m) => {
                        return Err(m);
                    },
                }
            },
            None => {
                break;
            },
        }
    }

    Ok(join_tokens(&tokens))
}

} // verus!
