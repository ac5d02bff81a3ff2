//! Lexer tests

use zkir_llvm::parser::lexer::{tokenize, Lexer, Token};

#[test]
fn test_lexer_basic() {
    let input = "define i32 @main() { ret i32 0 }";
    let mut lexer = Lexer::new(input);

    assert!(matches!(lexer.next(), Some(Ok((_, Token::Define, _)))));
    assert!(matches!(lexer.next(), Some(Ok((_, Token::IntType(32), _)))));
    assert!(matches!(
        lexer.next(),
        Some(Ok((_, Token::GlobalIdent(_), _)))
    ));
}

#[test]
fn test_lexer_identifiers() {
    let input = "@global %local %123";
    let mut lexer = Lexer::new(input);

    if let Some(Ok((_, Token::GlobalIdent(s), _))) = lexer.next() {
        assert_eq!(s, "@global");
    }

    if let Some(Ok((_, Token::LocalIdent(s), _))) = lexer.next() {
        assert_eq!(s, "%local");
    }

    if let Some(Ok((_, Token::NumericIdent(s), _))) = lexer.next() {
        assert_eq!(s, "%123");
    }
}

#[test]
fn test_lexer_rejects_unknown_input() {
    // Lexing is total: unrecognized input yields an error, never a hang.
    let r = tokenize("$");
    assert!(r.is_err());
    assert_eq!(r.unwrap_err().offset, 0);
}

#[test]
fn test_lexer_comments_and_whitespace() {
    let toks = tokenize("; a comment\n  define ; trailing\n ptr").unwrap();
    assert_eq!(toks.len(), 2);
    assert!(matches!(toks[0].1, Token::Define));
    assert!(matches!(toks[1].1, Token::Ptr));
}

#[test]
fn test_lexer_integers() {
    let toks = tokenize("42 -7").unwrap();
    assert!(matches!(toks[0].1, Token::Integer(42)));
    assert!(matches!(toks[1].1, Token::Integer(-7)));
}

#[test]
fn test_lexer_integer_overflow_is_error() {
    assert!(tokenize("99999999999999999999").is_err());
}

#[test]
fn test_lexer_empty_input() {
    let toks = tokenize("").unwrap();
    assert_eq!(toks.len(), 0);
}

#[test]
fn test_lexer_min_integer() {
    let toks = tokenize("-9223372036854775808").unwrap();
    assert!(matches!(toks[0].1, Token::Integer(i64::MIN)));
}
