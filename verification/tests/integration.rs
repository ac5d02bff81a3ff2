//! Integration tests - end-to-end translation

use zkir_llvm::{parser, translate};

#[test]
fn test_translate_simple_add() {
    let source = r#"
        define i32 @add(i32 %a, i32 %b) {
        entry:
            %result = add i32 %a, %b
            ret i32 %result
        }
    "#;

    // Parse
    let module = parser::parse(source).expect("Failed to parse");
    assert_eq!(module.functions().len(), 1);

    // Translate
    let program = translate::translate_module(&module, 0);
    assert!(program.is_ok());
}

#[test]
fn test_translate_empty_module() {
    let source = "";

    let module = parser::parse(source).expect("Failed to parse");
    let program = translate::translate_module(&module, 0).expect("Failed to translate");

    // Empty module should produce empty program
    assert_eq!(program.code.len(), 0);
}

#[test]
fn test_check_compatibility() {
    let source = r#"
        define i32 @test(i32 %a) {
        entry:
            ret i32 %a
        }
    "#;

    let module = parser::parse(source).expect("Failed to parse");
    let result = translate::check_module_compatibility(&module);

    assert!(result.is_ok(), "Compatibility check failed: {:?}", result.err());
}

#[test]
fn test_unsupported_type() {
    // Float types are not supported: the parser has no token for them, so
    // parsing fails before the compatibility check can run.
    let source = r#"
        define float @test(float %a) {
        entry:
            ret float %a
        }
    "#;

    let result = parser::parse(source);
    if let Ok(module) = result {
        assert!(translate::check_module_compatibility(&module).is_err());
    }
}

#[test]
fn test_translate_arithmetic() {
    let source = r#"
        define i32 @arithmetic(i32 %a, i32 %b) {
        entry:
            %sum = add i32 %a, %b
            %diff = sub i32 %sum, %b
            %prod = mul i32 %diff, 2
            ret i32 %prod
        }
    "#;

    let module = parser::parse(source).expect("Failed to parse");
    let program = translate::translate_module(&module, 0).expect("Failed to translate");

    // Should have generated some instructions
    assert!(program.code.len() > 0);
}

#[test]
fn test_translate_control_flow() {
    let source = r#"
        define i32 @max(i32 %a, i32 %b) {
        entry:
            %cmp = icmp sgt i32 %a, %b
            br i1 %cmp, label %return_a, label %return_b

        return_a:
            ret i32 %a

        return_b:
            ret i32 %b
        }
    "#;

    let module = parser::parse(source).expect("Failed to parse");
    let program = translate::translate_module(&module, 0).expect("Failed to translate");

    assert!(program.code.len() > 0);
}

#[test]
fn test_missing_terminator_rejected() {
    // Every translated block must end with exactly one terminator.
    let source = r#"
        define i32 @f() {
        entry:
            %r = add i32 1, 2
        }
    "#;
    let module = parser::parse(source).expect("Failed to parse");
    assert!(translate::translate_module(&module, 0).is_err());
}

#[test]
fn test_unsupported_width_rejected() {
    let source = r#"
        define void @f() {
        entry:
            %r = add i128 1, 2
            ret void
        }
    "#;
    let module = parser::parse(source).expect("Failed to parse");
    let r = translate::translate_module(&module, 0);
    assert!(matches!(r, Err(translate::TranslateError::UnsupportedWidth(128))));
}

#[test]
fn test_compat_rejects_odd_width() {
    // An i7 in a signature is caught at the compatibility check, before
    // translation.
    let source = r#"
        define i7 @odd(i7 %x) {
        entry:
            ret i7 %x
        }
    "#;
    let module = parser::parse(source).expect("Failed to parse");
    let r = translate::check_module_compatibility(&module);
    assert!(matches!(
        r,
        Err(translate::CompatError::UnsupportedReturnType { .. })
    ));
}

#[test]
fn test_undefined_value_rejected() {
    let source = r#"
        define i32 @f() {
        entry:
            %r = add i32 %missing, 1
            ret i32 %r
        }
    "#;
    let module = parser::parse(source).expect("Failed to parse");
    let r = translate::translate_module(&module, 0);
    assert!(matches!(r, Err(translate::TranslateError::UndefinedValue(_))));
}

#[test]
fn test_entry_offset_preserved() {
    let module = parser::parse("").expect("Failed to parse");
    let program = translate::translate_module(&module, 7).expect("Failed to translate");
    assert_eq!(program.entry, 7);
}
