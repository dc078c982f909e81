use hogtrace::ast::{AstExpr, AstStatement, BinaryOp, CaptureArgs, ProbePoint, Provider};
use hogtrace::error::ErrorKind;
use hogtrace::lexer::Lexer;
use hogtrace::parser::Parser;

fn parse_program_src(source: &str) -> hogtrace::ast::AstProgram {
    let lexer = Lexer::new(source);
    let mut parser = Parser::new(lexer);
    parser.parse_program().unwrap()
}

fn parse_expr_src(source: &str) -> AstExpr {
    let lexer = Lexer::new(source);
    let mut parser = Parser::new(lexer);
    parser.parse_expr().unwrap()
}

#[test]
fn test_parse_empty_program() {
    let ast = parse_program_src("");
    assert_eq!(ast.probes.len(), 0);
}

#[test]
fn test_parse_simple_probe() {
    let ast = parse_program_src("fn:myapp.test:entry { }");
    assert_eq!(ast.probes.len(), 1);
    let probe = &ast.probes[0];
    assert_eq!(probe.spec.provider, Provider::Fn);
    assert_eq!(probe.spec.module_function.to_text(), "myapp.test");
    assert!(matches!(probe.spec.probe_point, ProbePoint::Entry));
    assert!(probe.predicate.is_none());
    assert!(probe.body.is_empty());
}

#[test]
fn test_parse_py_provider_and_exit() {
    let ast = parse_program_src("py:mod.f:exit { }");
    let probe = &ast.probes[0];
    assert_eq!(probe.spec.provider, Provider::Py);
    assert!(matches!(probe.spec.probe_point, ProbePoint::Exit));
}

#[test]
fn test_parse_probe_point_offsets() {
    let ast = parse_program_src("fn:a:entry+3 { }\nfn:b:exit+7 { }");
    assert!(matches!(ast.probes[0].spec.probe_point, ProbePoint::EntryOffset(3)));
    assert!(matches!(ast.probes[1].spec.probe_point, ProbePoint::ExitOffset(7)));
}

#[test]
fn test_parse_wildcard_path() {
    let ast = parse_program_src("fn:myapp.*:entry { }");
    assert_eq!(ast.probes[0].spec.module_function.to_text(), "myapp.*");
}

#[test]
fn test_parse_probe_with_predicate() {
    let ast = parse_program_src("fn:t:entry / arg0 > 10 / { }");
    let probe = &ast.probes[0];
    assert!(probe.predicate.is_some());
    match probe.predicate.as_ref().unwrap() {
        AstExpr::Binary { op, .. } => assert_eq!(*op, BinaryOp::Gt),
        other => panic!("Expected binary predicate, got {:?}", other),
    }
}

#[test]
fn test_predicate_division_inside_parens() {
    // a '/' inside parentheses is division, not the predicate delimiter
    let ast = parse_program_src("fn:t:entry / (arg0 / 2) > 10 / { }");
    let probe = &ast.probes[0];
    match probe.predicate.as_ref().unwrap() {
        AstExpr::Binary { op, left, .. } => {
            assert_eq!(*op, BinaryOp::Gt);
            match left.as_ref() {
                AstExpr::Binary { op, .. } => assert_eq!(*op, BinaryOp::Div),
                other => panic!("Expected division on the left, got {:?}", other),
            }
        }
        other => panic!("Expected binary predicate, got {:?}", other),
    }
}

#[test]
fn test_parse_assignment_statement() {
    let ast = parse_program_src("fn:t:entry { $req.user_id = arg0; }");
    let probe = &ast.probes[0];
    assert_eq!(probe.body.len(), 1);
    match &probe.body[0] {
        AstStatement::Assignment { var, .. } => {
            assert!(!var.is_request);
            assert_eq!(var.field, "user_id");
        }
        other => panic!("Expected assignment, got {:?}", other),
    }
}

#[test]
fn test_parse_sample_statements() {
    let ast = parse_program_src("fn:t:entry { sample 10%; sample 1/10; }");
    let probe = &ast.probes[0];
    assert_eq!(probe.body.len(), 2);
    assert!(matches!(
        probe.body[0],
        AstStatement::Sample { spec: hogtrace::ast::SampleSpec::Percentage(10), .. }
    ));
    assert!(matches!(
        probe.body[1],
        AstStatement::Sample {
            spec: hogtrace::ast::SampleSpec::Ratio { numerator: 1, denominator: 10 },
            ..
        }
    ));
}

#[test]
fn test_parse_capture_positional_and_named() {
    let ast = parse_program_src("fn:t:entry { capture(a, b); send(x=1); }");
    let probe = &ast.probes[0];
    match &probe.body[0] {
        AstStatement::Capture { is_send, args, .. } => {
            assert!(!*is_send);
            match args {
                CaptureArgs::Positional(exprs) => assert_eq!(exprs.len(), 2),
                _ => panic!("Expected positional args"),
            }
        }
        other => panic!("Expected capture, got {:?}", other),
    }
    match &probe.body[1] {
        AstStatement::Capture { is_send, args, .. } => {
            assert!(*is_send);
            match args {
                CaptureArgs::Named(named) => {
                    assert_eq!(named.len(), 1);
                    assert_eq!(named[0].name, "x");
                }
                _ => panic!("Expected named args"),
            }
        }
        other => panic!("Expected send, got {:?}", other),
    }
}

#[test]
fn test_expression_precedence() {
    // 1 + 2 * 3 parses as 1 + (2 * 3)
    match parse_expr_src("1 + 2 * 3") {
        AstExpr::Binary { op, right, .. } => {
            assert_eq!(op, BinaryOp::Add);
            match *right {
                AstExpr::Binary { op, .. } => assert_eq!(op, BinaryOp::Mul),
                other => panic!("Expected mul on the right, got {:?}", other),
            }
        }
        other => panic!("Expected add at the top, got {:?}", other),
    }
}

#[test]
fn test_left_associativity() {
    // 10 - 3 - 2 parses as (10 - 3) - 2
    match parse_expr_src("10 - 3 - 2") {
        AstExpr::Binary { op, left, .. } => {
            assert_eq!(op, BinaryOp::Sub);
            match *left {
                AstExpr::Binary { op, .. } => assert_eq!(op, BinaryOp::Sub),
                other => panic!("Expected sub on the left, got {:?}", other),
            }
        }
        other => panic!("Expected sub at the top, got {:?}", other),
    }
}

#[test]
fn test_postfix_applies_after_unary() {
    // !a.b parses with the postfix access applied to the unary result
    match parse_expr_src("!a.b") {
        AstExpr::FieldAccess { object, field, .. } => {
            assert_eq!(field, "b");
            match *object {
                AstExpr::Unary { .. } => {}
                other => panic!("Expected unary under the access, got {:?}", other),
            }
        }
        other => panic!("Expected field access at the top, got {:?}", other),
    }
}

#[test]
fn test_parse_call_with_args() {
    match parse_expr_src("min(arg0, arg1, arg2)") {
        AstExpr::Call { function, args, .. } => {
            assert_eq!(function, "min");
            assert_eq!(args.len(), 3);
        }
        other => panic!("Expected call, got {:?}", other),
    }
}

#[test]
fn test_missing_semicolon_error() {
    let lexer = Lexer::new("fn:t:entry { $req.x = 1 }");
    let mut parser = Parser::new(lexer);
    let err = parser.parse_program().unwrap_err();
    assert!(err.suggestion.unwrap().contains("semicolon"));
}

#[test]
fn test_unclosed_brace_error() {
    let lexer = Lexer::new("fn:t:entry { capture(args);");
    let mut parser = Parser::new(lexer);
    let err = parser.parse_program().unwrap_err();
    assert_eq!(err.kind, ErrorKind::UnexpectedEof);
}

#[test]
fn test_invalid_provider_error() {
    let lexer = Lexer::new("zz:t:entry { }");
    let mut parser = Parser::new(lexer);
    let err = parser.parse_program().unwrap_err();
    assert_eq!(err.kind, ErrorKind::InvalidProbeSpec);
}

#[test]
fn test_parser_is_total_on_junk() {
    for src in [
        "fn",
        "fn:",
        "fn:a:entry /",
        "fn:a:entry { $req = 1; }",
        "@@@@",
        "fn:a:entry { capture(1,; }",
        "fn:a:entry / ( / { }",
    ] {
        let lexer = Lexer::new(src);
        let mut parser = Parser::new(lexer);
        let _ = parser.parse_program();
    }
}
