//! Parser unit tests

use zkir_llvm::ir::Type;
use zkir_llvm::parser;

#[test]
fn test_parse_simple_function() {
    let source = r#"
        define i32 @add(i32 %a, i32 %b) {
        entry:
            %result = add i32 %a, %b
            ret i32 %result
        }
    "#;

    let result = parser::parse(source);
    assert!(result.is_ok(), "Failed to parse: {:?}", result.err());

    let module = result.unwrap();
    assert_eq!(module.functions().len(), 1);

    let func = &module.functions()[0];
    assert_eq!(func.name(), "add");
    assert_eq!(func.ret_ty(), &Type::Int(32));
    assert_eq!(func.params().len(), 2);
}

#[test]
fn test_parse_void_function() {
    let source = r#"
        define void @noop() {
        entry:
            ret void
        }
    "#;

    let result = parser::parse(source);
    assert!(result.is_ok());

    let module = result.unwrap();
    let func = &module.functions()[0];
    assert_eq!(func.ret_ty(), &Type::Void);
}

#[test]
fn test_parse_multiple_functions() {
    let source = r#"
        define i32 @add(i32 %a, i32 %b) {
        entry:
            %result = add i32 %a, %b
            ret i32 %result
        }

        define i32 @sub(i32 %a, i32 %b) {
        entry:
            %result = sub i32 %a, %b
            ret i32 %result
        }
    "#;

    let result = parser::parse(source);
    assert!(result.is_ok());

    let module = result.unwrap();
    assert_eq!(module.functions().len(), 2);
    assert_eq!(module.functions()[0].name(), "add");
    assert_eq!(module.functions()[1].name(), "sub");
}

#[test]
fn test_parse_types() {
    let source = r#"
        define i64 @test(i1 %a, i8 %b, i16 %c, i32 %d, i64 %e, ptr %p) {
        entry:
            ret i64 0
        }
    "#;

    let result = parser::parse(source);
    assert!(result.is_ok());

    let module = result.unwrap();
    let func = &module.functions()[0];

    assert_eq!(func.params().len(), 6);
    assert_eq!(func.params()[0].1, Type::Int(1));
    assert_eq!(func.params()[1].1, Type::Int(8));
    assert_eq!(func.params()[2].1, Type::Int(16));
    assert_eq!(func.params()[3].1, Type::Int(32));
    assert_eq!(func.params()[4].1, Type::Int(64));
    assert_eq!(func.params()[5].1, Type::Ptr);
}

#[test]
fn test_parse_empty_module() {
    let source = "";
    let result = parser::parse(source);
    assert!(result.is_ok());

    let module = result.unwrap();
    assert_eq!(module.functions().len(), 0);
}

#[test]
fn test_parse_with_comments() {
    let source = r#"
        ; This is a comment
        define i32 @add(i32 %a, i32 %b) { ; inline comment
        entry:
            ; Another comment
            %result = add i32 %a, %b
            ret i32 %result
        }
    "#;

    let result = parser::parse(source);
    assert!(result.is_ok());
}

#[test]
fn test_parse_deterministic() {
    // Parsing is a function of the input text alone.
    let source = r#"
        define i32 @id(i32 %x) {
        entry:
            ret i32 %x
        }
    "#;
    let a = parser::parse(source);
    let b = parser::parse(source);
    assert_eq!(a, b);
    let c = parser::parse("garbage $");
    let d = parser::parse("garbage $");
    assert_eq!(c, d);
}

#[test]
fn test_parse_lex_error() {
    let r = parser::parse("define $");
    assert!(matches!(r, Err(parser::ParseError::Lex { offset: 7 })));
}

#[test]
fn test_parse_unexpected_eof() {
    let r = parser::parse("define i32");
    assert!(r.is_err());
}

#[test]
fn test_parse_invalid_type() {
    let r = parser::parse("define float @f() { entry: ret void }");
    assert!(matches!(r, Err(parser::ParseError::InvalidType { .. })));
}

#[test]
fn test_parse_duplicate_label() {
    let source = r#"
        define void @f() {
        a:
            ret void
        a:
            ret void
        }
    "#;
    let r = parser::parse(source);
    assert!(matches!(r, Err(parser::ParseError::DuplicateLabel { .. })));
}

#[test]
fn test_parse_branches() {
    let source = r#"
        define i32 @max(i32 %a, i32 %b) {
        entry:
            %c = icmp sgt i32 %a, %b
            br i1 %c, label %ta, label %tb
        ta:
            ret i32 %a
        tb:
            ret i32 %b
        }
    "#;
    let module = parser::parse(source).expect("parse failed");
    let func = &module.functions()[0];
    assert_eq!(func.blocks().len(), 3);
    assert_eq!(func.blocks()[0].name(), "entry");
    assert_eq!(func.blocks()[1].name(), "ta");
    assert_eq!(func.blocks()[2].name(), "tb");
}

#[test]
fn test_parse_unexpected_token() {
    let r = parser::parse("define i32 @f() { entry: ret i32 , }");
    assert!(matches!(r, Err(parser::ParseError::UnexpectedToken { .. })));
}

#[test]
fn test_parse_bad_predicate() {
    let r = parser::parse("define i32 @f(i32 %a) { entry: %c = icmp foo i32 %a, 1 ret i32 %a }");
    assert!(r.is_err());
}

#[test]
fn test_parse_missing_paren() {
    let r = parser::parse("define i32 @f(i32 %a { entry: ret i32 %a }");
    assert!(r.is_err());
}
