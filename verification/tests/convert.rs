use rpn_converter::convert;

#[test]
fn test_convert_success() {
    assert_eq!(
        convert("(a + b) * (c - d)".into()),
        Ok("a b + c d - *".into())
    );

    assert_eq!(
        convert("(a / (b * (c + d)))".into()),
        Ok("a b c d + * /".into())
    );
}

#[test]
fn test_convert_failure() {
    assert_eq!(
        convert("a + 1".into()),
        Err("invalid char is found: 1".into())
    );

    assert_eq!(
        convert("(a + b".into()),
        Err("close paren is not found".into())
    );

    assert_eq!(
        convert("a + b)".into()),
        Err("open paren is not found".into())
    );
}

#[test]
fn test_precedence_without_parens() {
    assert_eq!(convert("a + b * c".into()), Ok("a b c * +".into()));
    assert_eq!(convert("a * b + c".into()), Ok("a b * c +".into()));
}

#[test]
fn test_left_associativity() {
    assert_eq!(convert("a - b + c".into()), Ok("a b - c +".into()));
    assert_eq!(convert("a / b / c".into()), Ok("a b / c /".into()));
}

#[test]
fn test_single_identifier() {
    assert_eq!(convert("a".into()), Ok("a".into()));
}

#[test]
fn test_empty_and_whitespace_only() {
    assert_eq!(convert("".into()), Ok("".into()));
    assert_eq!(convert("  \t  ".into()), Ok("".into()));
}

#[test]
fn test_whitespace_insensitivity() {
    assert_eq!(convert("a+b*c".into()), convert(" a  +\tb *  c ".into()));
    assert_eq!(convert("(a+b)*c".into()), convert("( a + b ) * c".into()));
}

#[test]
fn test_invalid_char_after_valid_tokens() {
    assert_eq!(
        convert("a + b # c".into()),
        Err("invalid char is found: #".into())
    );
}

#[test]
fn test_unmatched_parens_variants() {
    assert_eq!(convert("((a)".into()), Err("close paren is not found".into()));
    assert_eq!(convert("(".into()), Err("close paren is not found".into()));
    assert_eq!(convert(")".into()), Err("open paren is not found".into()));
    assert_eq!(
        convert("(a) ) b".into()),
        Err("open paren is not found".into())
    );
}

#[test]
fn test_nested_parens_with_precedence() {
    assert_eq!(convert("(a + b) / c".into()), Ok("a b + c /".into()));
    assert_eq!(convert("a * (b - c)".into()), Ok("a b c - *".into()));
}
