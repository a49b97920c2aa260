//! Properties proved of the conversion model: how the scan composes, that
//! whitespace never matters, and when each of the three errors is raised.

use vstd::prelude::*;

use crate::machine::drain;
use crate::machine::pop_until_open;
use crate::machine::pop_while_ge;
use crate::machine::scan;
use crate::machine::spec_convert;
use crate::token::ConvError;
use crate::token::Token;
use crate::token::is_ascii_letter;
use crate::token::is_ascii_ws;
use crate::token::spec_classify;
use crate::token::spec_precedence;

verus! {

/// `input` with every ASCII whitespace character removed.
pub open spec fn strip_ws(input: Seq<char>) -> Seq<char>
    decreases input.len(),
{
    if input.len() == 0 {
        Seq::empty()
    } else if is_ascii_ws(input.first()) {
        strip_ws(input.drop_first())
    } else {
        seq![input.first()] + strip_ws(input.drop_first())
    }
}

/// True when some `(` sits on the stack.
pub open spec fn has_open(stack: Seq<Token>) -> bool {
    exists|k: int| 0 <= k < stack.len() && stack[k] is Open
}

/// Continues a scan over `b` from wherever `r` left off, passing an error
/// through unchanged.
pub open spec fn scan_then(
    r: Result<(Seq<Token>, Seq<char>), ConvError>,
    b: Seq<char>,
) -> Result<(Seq<Token>, Seq<char>), ConvError> {
    match r {
        Ok(so) => scan(b, so.0, so.1),
        Err(e) => Err(e),
    }
}

/// Scanning a concatenation scans the first part and continues over the
/// second from the state the first part reached; an error met in the first
/// part is the error of the whole.
pub proof fn lemma_scan_append(a: Seq<char>, b: Seq<char>, stack: Seq<Token>, out: Seq<char>)
    ensures
        scan(a + b, stack, out) == scan_then(scan(a, stack, out), b),
    decreases a.len(),
{
    if a.len() == 0 {
        assert(a + b =~= b);
    } else {
        let c = a.first();
        let rest = a.drop_first();
        assert((a + b).first() == c);
        assert((a + b).drop_first() =~= rest + b);
        if is_ascii_ws(c) {
            lemma_scan_append(rest, b, stack, out);
        } else {
            match spec_classify(c) {
                None => {},
                Some(Token::Open) => {
                    lemma_scan_append(rest, b, stack.push(Token::Open), out);
                },
                Some(Token::Close) => {
                    match pop_until_open(stack, out) {
                        Ok(so) => {
                            lemma_scan_append(rest, b, so.0, so.1);
                        },
                        Err(_) => {},
                    }
                },
                Some(Token::Ident(x)) => {
                    lemma_scan_append(rest, b, stack, out.push(x));
                },
                Some(op) => {
                    let so = pop_while_ge(stack, out, spec_precedence(op));
                    lemma_scan_append(rest, b, so.0.push(op), so.1);
                },
            }
        }
    }
}

/// The scan acts only on the non-whitespace characters.
pub proof fn lemma_scan_strip_ws(input: Seq<char>, stack: Seq<Token>, out: Seq<char>)
    ensures
        scan(input, stack, out) == scan(strip_ws(input), stack, out),
    decreases input.len(),
{
    if input.len() == 0 {
    } else {
        let c = input.first();
        let rest = input.drop_first();
        if is_ascii_ws(c) {
            lemma_scan_strip_ws(rest, stack, out);
        } else {
            let s = seq![c] + strip_ws(rest);
            assert(s.first() == c);
            assert(s.drop_first() =~= strip_ws(rest));
            match spec_classify(c) {
                None => {},
                Some(Token::Open) => {
                    lemma_scan_strip_ws(rest, stack.push(Token::Open), out);
                },
                Some(Token::Close) => {
                    match pop_until_open(stack, out) {
                        Ok(so) => {
                            lemma_scan_strip_ws(rest, so.0, so.1);
                        },
                        Err(_) => {},
                    }
                },
                Some(Token::Ident(x)) => {
                    lemma_scan_strip_ws(rest, stack, out.push(x));
                },
                Some(op) => {
                    let so = pop_while_ge(stack, out, spec_precedence(op));
                    lemma_scan_strip_ws(rest, so.0.push(op), so.1);
                },
            }
        }
    }
}

/// Whitespace insensitivity: two inputs that agree once every ASCII space or
/// tab (or other whitespace) is removed convert to the same result, so
/// inserting extra whitespace between tokens never changes the outcome.
pub proof fn lemma_whitespace_insensitive(a: Seq<char>, b: Seq<char>)
    requires
        strip_ws(a) == strip_ws(b),
    ensures
        spec_convert(a) == spec_convert(b),
{
    lemma_scan_strip_ws(a, Seq::<Token>::empty(), Seq::<char>::empty());
    lemma_scan_strip_ws(b, Seq::<Token>::empty(), Seq::<char>::empty());
}

/// Reading a `)` fails — with `UnmatchedCloseParen` and nothing else —
/// exactly when no `(` sits anywhere on the stack.
pub proof fn lemma_pop_until_open_err(stack: Seq<Token>, out: Seq<char>)
    ensures
        pop_until_open(stack, out) is Err <==> !has_open(stack),
        pop_until_open(stack, out) is Err ==> pop_until_open(stack, out) == Err::<
            (Seq<Token>, Seq<char>),
            ConvError,
        >(ConvError::UnmatchedCloseParen),
    decreases stack.len(),
{
    if stack.len() == 0 {
        assert(!has_open(stack));
    } else if stack.last() is Open {
        assert(stack[stack.len() - 1] is Open);
        assert(has_open(stack));
    } else {
        lemma_pop_until_open_err(
            stack.drop_last(),
            out.push(crate::token::spec_token_char(stack.last())),
        );
        assert(has_open(stack.drop_last()) ==> has_open(stack)) by {
            if has_open(stack.drop_last()) {
                let k = choose|k: int|
                    0 <= k < stack.drop_last().len() && stack.drop_last()[k] is Open;
                assert(stack[k] is Open);
            }
        }
        assert(has_open(stack) ==> has_open(stack.drop_last())) by {
            if has_open(stack) {
                let k = choose|k: int| 0 <= k < stack.len() && stack[k] is Open;
                assert(k < stack.len() - 1);
                assert(stack.drop_last()[k] is Open);
            }
        }
    }
}

/// Draining the stack at end of input fails — with `UnmatchedOpenParen` and
/// nothing else — exactly when a `(` is left somewhere on the stack.
pub proof fn lemma_drain_err(stack: Seq<Token>, out: Seq<char>)
    ensures
        drain(stack, out) is Err <==> has_open(stack),
        drain(stack, out) is Err ==> drain(stack, out) == Err::<Seq<char>, ConvError>(
            ConvError::UnmatchedOpenParen,
        ),
    decreases stack.len(),
{
    if stack.len() == 0 {
        assert(!has_open(stack));
    } else if stack.last() is Open {
        assert(stack[stack.len() - 1] is Open);
        assert(has_open(stack));
    } else {
        lemma_drain_err(stack.drop_last(), out.push(crate::token::spec_token_char(stack.last())));
        assert(has_open(stack.drop_last()) ==> has_open(stack)) by {
            if has_open(stack.drop_last()) {
                let k = choose|k: int|
                    0 <= k < stack.drop_last().len() && stack.drop_last()[k] is Open;
                assert(stack[k] is Open);
            }
        }
        assert(has_open(stack) ==> has_open(stack.drop_last())) by {
            if has_open(stack) {
                let k = choose|k: int| 0 <= k < stack.len() && stack[k] is Open;
                assert(k < stack.len() - 1);
                assert(stack.drop_last()[k] is Open);
            }
        }
    }
}

/// The scan itself never raises `UnmatchedOpenParen`: a surplus `(` is
/// detected only after the whole input has been read, never eagerly.
pub proof fn lemma_scan_not_unmatched_open(input: Seq<char>, stack: Seq<Token>, out: Seq<char>)
    ensures
        scan(input, stack, out) != Err::<(Seq<Token>, Seq<char>), ConvError>(
            ConvError::UnmatchedOpenParen,
        ),
    decreases input.len(),
{
    if input.len() == 0 {
    } else {
        let c = input.first();
        let rest = input.drop_first();
        if is_ascii_ws(c) {
            lemma_scan_not_unmatched_open(rest, stack, out);
        } else {
            match spec_classify(c) {
                None => {},
                Some(Token::Open) => {
                    lemma_scan_not_unmatched_open(rest, stack.push(Token::Open), out);
                },
                Some(Token::Close) => {
                    lemma_pop_until_open_err(stack, out);
                    match pop_until_open(stack, out) {
                        Ok(so) => {
                            lemma_scan_not_unmatched_open(rest, so.0, so.1);
                        },
                        Err(_) => {},
                    }
                },
                Some(Token::Ident(x)) => {
                    lemma_scan_not_unmatched_open(rest, stack, out.push(x));
                },
                Some(op) => {
                    let so = pop_while_ge(stack, out, spec_precedence(op));
                    lemma_scan_not_unmatched_open(rest, so.0.push(op), so.1);
                },
            }
        }
    }
}

/// A surplus of `(` is reported as `UnmatchedOpenParen`: when the scan of
/// the whole input completes and a `(` remains on the stack, that is the
/// result of the conversion.
pub proof fn lemma_unmatched_open(input: Seq<char>)
    requires
        scan(input, Seq::<Token>::empty(), Seq::<char>::empty()) matches Ok(so) && has_open(so.0),
    ensures
        spec_convert(input) == Err::<Seq<char>, ConvError>(ConvError::UnmatchedOpenParen),
{
    let so = scan(input, Seq::<Token>::empty(), Seq::<char>::empty())->Ok_0;
    lemma_drain_err(so.0, so.1);
}

/// A `)` that no unmatched `(` precedes stops the conversion right there
/// with `UnmatchedCloseParen`, whatever characters follow it.
pub proof fn lemma_unmatched_close(a: Seq<char>, b: Seq<char>)
    requires
        scan(a, Seq::<Token>::empty(), Seq::<char>::empty()) matches Ok(so) && !has_open(so.0),
    ensures
        spec_convert(a + seq![')'] + b) == Err::<Seq<char>, ConvError>(
            ConvError::UnmatchedCloseParen,
        ),
{
    let so = scan(a, Seq::<Token>::empty(), Seq::<char>::empty())->Ok_0;
    let tail = seq![')'] + b;
    assert(a + seq![')'] + b =~= a + tail);
    lemma_scan_append(a, tail, Seq::<Token>::empty(), Seq::<char>::empty());
    assert(tail.first() == ')');
    lemma_pop_until_open_err(so.0, so.1);
}

/// An invalid character stops the conversion right there, reported by value,
/// whatever characters follow it: when the scan of everything before it
/// raised no error, the result is `InvalidCharacter` naming it.
pub proof fn lemma_invalid_char(a: Seq<char>, c: char, b: Seq<char>)
    requires
        scan(a, Seq::<Token>::empty(), Seq::<char>::empty()) is Ok,
        !is_ascii_ws(c),
        spec_classify(c) is None,
    ensures
        spec_convert(a + seq![c] + b) == Err::<Seq<char>, ConvError>(ConvError::InvalidCharacter(c)),
{
    let tail = seq![c] + b;
    assert(a + seq![c] + b =~= a + tail);
    lemma_scan_append(a, tail, Seq::<Token>::empty(), Seq::<char>::empty());
    assert(tail.first() == c);
}

/// Contrapositive reading of the same rule: a conversion that succeeds had
/// nothing but whitespace, letters, operators and parentheses in its input.
pub proof fn lemma_ok_implies_valid_chars(input: Seq<char>, k: int)
    requires
        spec_convert(input) is Ok,
        0 <= k < input.len(),
    ensures
        is_ascii_ws(input[k]) || spec_classify(input[k]) is Some,
{
    lemma_scan_ok_valid(input, Seq::<Token>::empty(), Seq::<char>::empty(), k);
}

/// A scan that completes met no invalid character on its way.
pub proof fn lemma_scan_ok_valid(input: Seq<char>, stack: Seq<Token>, out: Seq<char>, k: int)
    requires
        scan(input, stack, out) is Ok,
        0 <= k < input.len(),
    ensures
        is_ascii_ws(input[k]) || spec_classify(input[k]) is Some,
    decreases input.len(),
{
    let c = input.first();
    let rest = input.drop_first();
    if k == 0 {
    } else {
        assert(rest[k - 1] == input[k]);
        if is_ascii_ws(c) {
            lemma_scan_ok_valid(rest, stack, out, k - 1);
        } else {
            match spec_classify(c) {
                None => {},
                Some(Token::Open) => {
                    lemma_scan_ok_valid(rest, stack.push(Token::Open), out, k - 1);
                },
                Some(Token::Close) => {
                    match pop_until_open(stack, out) {
                        Ok(so) => {
                            lemma_scan_ok_valid(rest, so.0, so.1, k - 1);
                        },
                        Err(_) => {},
                    }
                },
                Some(Token::Ident(x)) => {
                    lemma_scan_ok_valid(rest, stack, out.push(x), k - 1);
                },
                Some(op) => {
                    let so = pop_while_ge(stack, out, spec_precedence(op));
                    lemma_scan_ok_valid(rest, so.0.push(op), so.1, k - 1);
                },
            }
        }
    }
}

/// Popping by precedence never uncovers a `(` that was not already there.
pub proof fn lemma_pop_while_ge_no_open(stack: Seq<Token>, out: Seq<char>, p: nat)
    requires
        !has_open(stack),
    ensures
        !has_open(pop_while_ge(stack, out, p).0),
    decreases stack.len(),
{
    if stack.len() > 0 && p <= spec_precedence(stack.last()) {
        assert(!has_open(stack.drop_last())) by {
            if has_open(stack.drop_last()) {
                let k = choose|k: int|
                    0 <= k < stack.drop_last().len() && stack.drop_last()[k] is Open;
                assert(stack[k] is Open);
            }
        }
        lemma_pop_while_ge_no_open(
            stack.drop_last(),
            out.push(crate::token::spec_token_char(stack.last())),
            p,
        );
    }
}

/// Scanning input that holds no parenthesis, from a stack that holds no
/// `(`, completes and leaves no `(` behind.
pub proof fn lemma_scan_no_parens(input: Seq<char>, stack: Seq<Token>, out: Seq<char>)
    requires
        forall|k: int|
            0 <= k < input.len() ==> is_ascii_ws(#[trigger] input[k]) || (spec_classify(input[k])
                matches Some(t) && !(t is Open) && !(t is Close)),
        !has_open(stack),
    ensures
        scan(input, stack, out) is Ok,
        !has_open(scan(input, stack, out)->Ok_0.0),
    decreases input.len(),
{
    if input.len() == 0 {
    } else {
        let c = input.first();
        let rest = input.drop_first();
        assert(forall|k: int|
            0 <= k < rest.len() ==> is_ascii_ws(#[trigger] rest[k]) || (spec_classify(rest[k])
                matches Some(t) && !(t is Open) && !(t is Close))) by {
            assert(forall|k: int| 0 <= k < rest.len() ==> rest[k] == input[k + 1]);
        }
        if is_ascii_ws(c) {
            lemma_scan_no_parens(rest, stack, out);
        } else {
            match spec_classify(c) {
                None => {
                    assert(false);
                },
                Some(Token::Open) => {
                    assert(false);
                },
                Some(Token::Close) => {
                    assert(false);
                },
                Some(Token::Ident(x)) => {
                    lemma_scan_no_parens(rest, stack, out.push(x));
                },
                Some(op) => {
                    let so = pop_while_ge(stack, out, spec_precedence(op));
                    lemma_pop_while_ge_no_open(stack, out, spec_precedence(op));
                    assert(!has_open(so.0.push(op))) by {
                        if has_open(so.0.push(op)) {
                            let k = choose|k: int|
                                0 <= k < so.0.push(op).len() && so.0.push(op)[k] is Open;
                            assert(k < so.0.len());
                            assert(so.0[k] is Open);
                        }
                    }
                    lemma_scan_no_parens(rest, so.0.push(op), so.1);
                },
            }
        }
    }
}

/// An input of nothing but identifiers and operators — no parentheses —
/// always converts successfully: the conversion is resolved by precedence
/// and left-associativity alone, and no error of any kind can arise.
pub proof fn lemma_no_parens_ok(input: Seq<char>)
    requires
        forall|k: int|
            0 <= k < input.len() ==> is_ascii_ws(#[trigger] input[k]) || (spec_classify(input[k])
                matches Some(t) && !(t is Open) && !(t is Close)),
    ensures
        spec_convert(input) is Ok,
{
    assert(!has_open(Seq::<Token>::empty()));
    lemma_scan_no_parens(input, Seq::<Token>::empty(), Seq::<char>::empty());
    let so = scan(input, Seq::<Token>::empty(), Seq::<char>::empty())->Ok_0;
    lemma_drain_err(so.0, so.1);
}

/// A single identifier converts to itself, unchanged.
pub proof fn lemma_single_identifier(c: char)
    requires
        is_ascii_letter(c),
    ensures
        spec_convert(seq![c]) == Ok::<Seq<char>, ConvError>(seq![c]),
{
    let s = seq![c];
    assert(s.first() == c);
    assert(s.drop_first() =~= Seq::<char>::empty());
    assert(!is_ascii_ws(c)) by {
        assert(' ' as u32 == 32 && '\t' as u32 == 9 && '\n' as u32 == 10 && '\x0C' as u32 == 12
            && '\r' as u32 == 13);
    }
    assert(spec_classify(c) == Some(Token::Ident(c))) by {
        assert('+' as u32 == 43 && '-' as u32 == 45 && '*' as u32 == 42 && '/' as u32 == 47 && '('
            as u32 == 40 && ')' as u32 == 41);
    }
    assert(Seq::<char>::empty().push(c) =~= seq![c]);
    assert(scan(s.drop_first(), Seq::<Token>::empty(), seq![c]) == Ok::<
        (Seq<Token>, Seq<char>),
        ConvError,
    >((Seq::<Token>::empty(), seq![c])));
    assert(scan(s, Seq::<Token>::empty(), Seq::<char>::empty()) == Ok::<
        (Seq<Token>, Seq<char>),
        ConvError,
    >((Seq::<Token>::empty(), seq![c])));
}

} // verus!
