use hogtrace::compiler::Compiler;
use hogtrace::constant_pool::Constant;
use hogtrace::lexer::Lexer;
use hogtrace::opcodes::Opcode;
use hogtrace::parser::Parser;
use hogtrace::program::{FnTarget, ProbeSpec};

#[test]
fn test_compiler_new() {
    let compiler = Compiler::new();
    assert_eq!(compiler.constant_pool.len(), 0);
    assert_eq!(compiler.bytecode.len(), 0);
}

#[test]
fn test_add_constant_deduplication() {
    let mut compiler = Compiler::new();

    let idx1 = compiler.add_or_get_constant(Constant::Int(42)).unwrap();
    let idx2 = compiler.add_or_get_constant(Constant::Int(42)).unwrap();
    let idx3 = compiler.add_or_get_constant(Constant::Int(100)).unwrap();

    assert_eq!(idx1, idx2);
    assert_ne!(idx1, idx3);
    assert_eq!(compiler.constant_pool.len(), 2);
}

#[test]
fn test_add_constant_string_dedup() {
    let mut compiler = Compiler::new();

    let idx1 = compiler
        .add_or_get_constant(Constant::String("hello".to_string()))
        .unwrap();
    let idx2 = compiler
        .add_or_get_constant(Constant::String("hello".to_string()))
        .unwrap();
    let idx3 = compiler
        .add_or_get_constant(Constant::String("world".to_string()))
        .unwrap();

    assert_eq!(idx1, idx2);
    assert_ne!(idx1, idx3);
    assert_eq!(compiler.constant_pool.len(), 2);
}

#[test]
fn test_add_constant_identifier_dedup() {
    let mut compiler = Compiler::new();

    let idx1 = compiler
        .add_or_get_constant(Constant::Identifier("args".to_string()))
        .unwrap();
    let idx2 = compiler
        .add_or_get_constant(Constant::Identifier("args".to_string()))
        .unwrap();

    assert_eq!(idx1, idx2);
    assert_eq!(compiler.constant_pool.len(), 1);
}

#[test]
fn test_float_deduplication() {
    let mut compiler = Compiler::new();

    let idx1 = compiler
        .add_or_get_constant(Constant::Float((3.14f64).to_bits()))
        .unwrap();
    let idx2 = compiler
        .add_or_get_constant(Constant::Float((3.14f64).to_bits()))
        .unwrap();
    let idx3 = compiler
        .add_or_get_constant(Constant::Float((2.71f64).to_bits()))
        .unwrap();

    assert_eq!(idx1, idx2);
    assert_ne!(idx1, idx3);
    assert_eq!(compiler.constant_pool.len(), 2);
}

#[test]
fn test_bool_and_none_dedup() {
    let mut compiler = Compiler::new();

    let idx1 = compiler.add_or_get_constant(Constant::Bool(true)).unwrap();
    let idx2 = compiler.add_or_get_constant(Constant::Bool(true)).unwrap();
    let idx3 = compiler.add_or_get_constant(Constant::Bool(false)).unwrap();
    let idx4 = compiler.add_or_get_constant(Constant::NoneValue).unwrap();
    let idx5 = compiler.add_or_get_constant(Constant::NoneValue).unwrap();

    assert_eq!(idx1, idx2);
    assert_ne!(idx1, idx3);
    assert_eq!(idx4, idx5);
    assert_eq!(compiler.constant_pool.len(), 3);
}

#[test]
fn test_nan_constants_share_one_entry() {
    // the two NaNs share a bit pattern, so dedup collapses them
    let mut compiler = Compiler::new();
    let idx1 = compiler
        .add_or_get_constant(Constant::Float(f64::NAN.to_bits()))
        .unwrap();
    let idx2 = compiler
        .add_or_get_constant(Constant::Float(f64::NAN.to_bits()))
        .unwrap();
    // +0.0 and -0.0 differ by bit pattern, so they get distinct entries
    let idx3 = compiler
        .add_or_get_constant(Constant::Float((0.0f64).to_bits()))
        .unwrap();
    let idx4 = compiler
        .add_or_get_constant(Constant::Float((-0.0f64).to_bits()))
        .unwrap();
    assert_eq!(idx1, idx2);
    assert_ne!(idx3, idx4);
    assert_eq!(compiler.constant_pool.len(), 3);
}

fn compile_expr_helper(source: &str) -> (Vec<u8>, hogtrace::constant_pool::ConstantPool) {
    let lexer = Lexer::new(source);
    let mut parser = Parser::new(lexer);
    let expr = parser.parse_expr().unwrap();

    let mut compiler = Compiler::new();
    compiler.compile_expr(&expr).unwrap();

    (compiler.bytecode, compiler.constant_pool)
}

fn compile_stmt_helper(source: &str) -> (Vec<u8>, hogtrace::constant_pool::ConstantPool) {
    let lexer = Lexer::new(source);
    let mut parser = Parser::new(lexer);
    let stmt = parser.parse_statement().unwrap();

    let mut compiler = Compiler::new();
    compiler.compile_stmt(&stmt).unwrap();

    (compiler.bytecode, compiler.constant_pool)
}

#[test]
fn test_compile_int_literal() {
    let (bytecode, pool) = compile_expr_helper("42");

    assert_eq!(bytecode[0], Opcode::PushConst.as_u8());
    let idx = u16::from_le_bytes([bytecode[1], bytecode[2]]);
    let constant = pool.get(idx).unwrap();
    assert!(matches!(constant, Constant::Int(42)));
}

#[test]
fn test_compile_float_literal() {
    let (bytecode, pool) = compile_expr_helper("3.14");

    assert_eq!(bytecode[0], Opcode::PushConst.as_u8());
    let idx = u16::from_le_bytes([bytecode[1], bytecode[2]]);
    let constant = pool.get(idx).unwrap();
    if let Constant::Float(bits) = constant {
        assert!((f64::from_bits(*bits) - 3.14).abs() < 0.001);
    } else {
        panic!("Expected Float constant");
    }
}

#[test]
fn test_compile_string_literal() {
    let (bytecode, pool) = compile_expr_helper("\"hello\"");

    assert_eq!(bytecode[0], Opcode::PushConst.as_u8());
    let idx = u16::from_le_bytes([bytecode[1], bytecode[2]]);
    let constant = pool.get(idx).unwrap();
    assert!(matches!(constant, Constant::String(s) if s == "hello"));
}

#[test]
fn test_compile_bool_literal() {
    let (bytecode, pool) = compile_expr_helper("True");

    assert_eq!(bytecode[0], Opcode::PushConst.as_u8());
    let idx = u16::from_le_bytes([bytecode[1], bytecode[2]]);
    let constant = pool.get(idx).unwrap();
    assert!(matches!(constant, Constant::Bool(true)));
}

#[test]
fn test_compile_none_literal() {
    let (bytecode, pool) = compile_expr_helper("None");

    assert_eq!(bytecode[0], Opcode::PushConst.as_u8());
    let idx = u16::from_le_bytes([bytecode[1], bytecode[2]]);
    let constant = pool.get(idx).unwrap();
    assert!(matches!(constant, Constant::NoneValue));
}

#[test]
fn test_compile_variable() {
    let (bytecode, pool) = compile_expr_helper("args");

    assert_eq!(bytecode[0], Opcode::LoadVar.as_u8());
    let idx = u16::from_le_bytes([bytecode[1], bytecode[2]]);
    let constant = pool.get(idx).unwrap();
    assert!(matches!(constant, Constant::Identifier(s) if s == "args"));
}

#[test]
fn test_compile_request_var() {
    let (bytecode, pool) = compile_expr_helper("$req.user_id");

    assert_eq!(bytecode[0], Opcode::LoadVar.as_u8());
    let idx1 = u16::from_le_bytes([bytecode[1], bytecode[2]]);
    assert!(matches!(pool.get(idx1).unwrap(), Constant::Identifier(s) if s == "req"));

    assert_eq!(bytecode[3], Opcode::GetAttr.as_u8());
    let idx2 = u16::from_le_bytes([bytecode[4], bytecode[5]]);
    assert!(matches!(pool.get(idx2).unwrap(), Constant::FieldName(s) if s == "user_id"));
}

#[test]
fn test_compile_binary_add() {
    let (bytecode, _pool) = compile_expr_helper("1 + 2");

    assert_eq!(bytecode[0], Opcode::PushConst.as_u8());
    assert_eq!(bytecode[3], Opcode::PushConst.as_u8());
    assert_eq!(bytecode[6], Opcode::Add.as_u8());
}

#[test]
fn test_compile_comparison_ops() {
    let cases = [
        ("1 == 2", Opcode::Eq),
        ("1 != 2", Opcode::Ne),
        ("1 < 2", Opcode::Lt),
        ("1 > 2", Opcode::Gt),
        ("1 <= 2", Opcode::Le),
        ("1 >= 2", Opcode::Ge),
        ("10 - 3", Opcode::Sub),
        ("5 * 6", Opcode::Mul),
        ("12 / 4", Opcode::Div),
        ("10 % 3", Opcode::Mod),
        ("True && False", Opcode::And),
        ("True || False", Opcode::Or),
    ];
    for (src, op) in cases {
        let (bytecode, _pool) = compile_expr_helper(src);
        assert_eq!(bytecode[6], op.as_u8(), "source: {}", src);
    }
}

#[test]
fn test_compile_unary_not() {
    let (bytecode, _pool) = compile_expr_helper("!True");

    assert_eq!(bytecode[0], Opcode::PushConst.as_u8());
    assert_eq!(bytecode[3], Opcode::Not.as_u8());
}

#[test]
fn test_compile_field_access() {
    let (bytecode, pool) = compile_expr_helper("args.user");

    assert_eq!(bytecode[0], Opcode::LoadVar.as_u8());
    assert_eq!(bytecode[3], Opcode::GetAttr.as_u8());

    let idx = u16::from_le_bytes([bytecode[4], bytecode[5]]);
    assert!(matches!(pool.get(idx).unwrap(), Constant::FieldName(s) if s == "user"));
}

#[test]
fn test_compile_index_access() {
    let (bytecode, _pool) = compile_expr_helper("args[0]");

    assert_eq!(bytecode[0], Opcode::LoadVar.as_u8());
    assert_eq!(bytecode[3], Opcode::PushConst.as_u8());
    assert_eq!(bytecode[6], Opcode::GetItem.as_u8());
}

#[test]
fn test_compile_function_call_no_args() {
    let (bytecode, pool) = compile_expr_helper("timestamp()");

    assert_eq!(bytecode[0], Opcode::CallFunc.as_u8());
    let idx = u16::from_le_bytes([bytecode[1], bytecode[2]]);
    assert!(matches!(pool.get(idx).unwrap(), Constant::FunctionName(s) if s == "timestamp"));
    assert_eq!(bytecode[3], 0);
}

#[test]
fn test_compile_function_call_one_arg() {
    let (bytecode, pool) = compile_expr_helper("len(args)");

    assert_eq!(bytecode[0], Opcode::LoadVar.as_u8());
    assert_eq!(bytecode[3], Opcode::CallFunc.as_u8());

    let idx = u16::from_le_bytes([bytecode[4], bytecode[5]]);
    assert!(matches!(pool.get(idx).unwrap(), Constant::FunctionName(s) if s == "len"));
    assert_eq!(bytecode[6], 1);
}

#[test]
fn test_compile_complex_expr() {
    let (bytecode, _pool) = compile_expr_helper("(1 + 2) * 3");

    assert_eq!(bytecode[0], Opcode::PushConst.as_u8());
    assert_eq!(bytecode[3], Opcode::PushConst.as_u8());
    assert_eq!(bytecode[6], Opcode::Add.as_u8());
    assert_eq!(bytecode[7], Opcode::PushConst.as_u8());
    assert_eq!(bytecode[10], Opcode::Mul.as_u8());
}

#[test]
fn test_compile_assignment() {
    let (bytecode, pool) = compile_stmt_helper("$req.user_id = 42;");

    assert_eq!(bytecode[0], Opcode::PushConst.as_u8());
    assert_eq!(bytecode[3], Opcode::StoreVar.as_u8());

    let idx = u16::from_le_bytes([bytecode[4], bytecode[5]]);
    assert!(matches!(pool.get(idx).unwrap(), Constant::Identifier(s) if s == "req.user_id"));
}

#[test]
fn test_compile_capture_no_args() {
    let (bytecode, pool) = compile_stmt_helper("capture();");

    assert_eq!(bytecode[0], Opcode::CallFunc.as_u8());
    let idx = u16::from_le_bytes([bytecode[1], bytecode[2]]);
    assert!(matches!(pool.get(idx).unwrap(), Constant::FunctionName(s) if s == "capture"));
    assert_eq!(bytecode[3], 0);
    assert_eq!(bytecode[4], Opcode::Pop.as_u8());
}

#[test]
fn test_compile_capture_with_args() {
    let (bytecode, _pool) = compile_stmt_helper("capture(args, retval);");

    assert_eq!(bytecode[0], Opcode::LoadVar.as_u8());
    assert_eq!(bytecode[3], Opcode::LoadVar.as_u8());
    assert_eq!(bytecode[6], Opcode::CallFunc.as_u8());
    assert_eq!(bytecode[9], 2);
    assert_eq!(bytecode[10], Opcode::Pop.as_u8());
}

#[test]
fn test_sample_in_body_is_a_compile_error() {
    let lexer = Lexer::new("sample 10%;");
    let mut parser = Parser::new(lexer);
    let stmt = parser.parse_statement().unwrap();
    let mut compiler = Compiler::new();
    assert!(compiler.compile_stmt(&stmt).is_err());
}

fn compile_program(source: &str) -> hogtrace::program::Program {
    let lexer = Lexer::new(source);
    let mut parser = Parser::new(lexer);
    let ast = parser.parse_program().unwrap();
    let mut compiler = Compiler::new();
    compiler.compile(ast).unwrap()
}

#[test]
fn test_compile_simple_program() {
    let program = compile_program("fn:myapp.test:entry\n{\n    capture(args);\n}");

    assert_eq!(program.version, 1);
    assert_eq!(program.probes.len(), 1);
    assert_eq!(program.probes[0].id, "probe_0");
    assert!(program.probes[0].predicate.is_empty());
    assert!(!program.probes[0].body.is_empty());
}

#[test]
fn test_compile_program_with_predicate() {
    let program = compile_program("fn:myapp.test:entry\n/ arg0 > 10 /\n{\n    capture(args);\n}");

    assert_eq!(program.probes.len(), 1);
    assert!(!program.probes[0].predicate.is_empty());
    assert!(!program.probes[0].body.is_empty());
}

#[test]
fn test_compile_multiple_probes() {
    let program = compile_program(
        "fn:myapp.start:entry\n{\n    $req.start_time = timestamp();\n}\n\nfn:myapp.end:exit\n{\n    capture(retval);\n}",
    );

    assert_eq!(program.probes.len(), 2);
    assert_eq!(program.probes[0].id, "probe_0");
    assert_eq!(program.probes[1].id, "probe_1");
}

#[test]
fn test_compile_constant_pool_shared() {
    let program = compile_program(
        "fn:myapp.test1:entry\n{\n    capture(args);\n}\n\nfn:myapp.test2:entry\n{\n    capture(args);\n}",
    );

    assert!(program.constant_pool.len() < 10);
}

#[test]
fn test_constant_pool_deduplication_effectiveness() {
    let program = compile_program("fn:myapp.test:entry\n{\n    capture(args, args, args, args, args);\n}");

    assert_eq!(program.constant_pool.len(), 2);
}

#[test]
fn test_bytecode_with_predicate() {
    let program = compile_program("fn:myapp.test:entry\n/ arg0 > 10 /\n{\n    capture(args);\n}");

    let probe = &program.probes[0];

    assert_eq!(probe.predicate.len(), 7);
    assert_eq!(probe.predicate[0], Opcode::LoadVar.as_u8());
    assert_eq!(probe.predicate[3], Opcode::PushConst.as_u8());
    assert_eq!(probe.predicate[6], Opcode::Gt.as_u8());

    assert_eq!(probe.body.len(), 8);
    assert_eq!(probe.body[0], Opcode::LoadVar.as_u8());
    assert_eq!(probe.body[3], Opcode::CallFunc.as_u8());
    assert_eq!(probe.body[7], Opcode::Pop.as_u8());
}

#[test]
fn test_bytecode_complex_predicate() {
    let program =
        compile_program("fn:myapp.test:entry\n/ arg0 > 10 && arg1 != None /\n{\n    capture(args);\n}");

    let probe = &program.probes[0];

    assert_eq!(probe.predicate.len(), 15);
    assert_eq!(probe.predicate[0], Opcode::LoadVar.as_u8());
    assert_eq!(probe.predicate[3], Opcode::PushConst.as_u8());
    assert_eq!(probe.predicate[6], Opcode::Gt.as_u8());
    assert_eq!(probe.predicate[7], Opcode::LoadVar.as_u8());
    assert_eq!(probe.predicate[10], Opcode::PushConst.as_u8());
    assert_eq!(probe.predicate[13], Opcode::Ne.as_u8());
    assert_eq!(probe.predicate[14], Opcode::And.as_u8());
}

#[test]
fn test_bytecode_assignment() {
    let program = compile_program("fn:myapp.test:entry\n{\n    $req.user_id = 42;\n}");

    let probe = &program.probes[0];
    let bytecode = &probe.body;

    assert_eq!(bytecode.len(), 6);
    assert_eq!(bytecode[0], Opcode::PushConst.as_u8());
    assert_eq!(bytecode[3], Opcode::StoreVar.as_u8());
}

#[test]
fn test_bytecode_well_formed_opcodes() {
    // every opcode byte emitted sits below 0x61 and decodes
    let program = compile_program(
        "fn:myapp.users.create:entry\n/ arg0 > 100 && $req.authenticated /\n{\n    $req.user_id = arg0;\n    $req.timestamp = timestamp();\n    capture(args, retval);\n}",
    );
    for probe in &program.probes {
        for code in [&probe.predicate, &probe.body] {
            let mut i = 0;
            while i < code.len() {
                let op = Opcode::from_u8(code[i]).expect("valid opcode");
                assert!(code[i] < 0x61);
                let sz = op.operand_size();
                if matches!(
                    op,
                    Opcode::PushConst
                        | Opcode::LoadVar
                        | Opcode::StoreVar
                        | Opcode::GetAttr
                        | Opcode::SetAttr
                        | Opcode::CallFunc
                ) {
                    let idx = u16::from_le_bytes([code[i + 1], code[i + 2]]);
                    assert!((idx as usize) < program.constant_pool.len());
                }
                i += 1 + sz;
            }
        }
    }
}

#[test]
fn test_empty_probe_body() {
    let program = compile_program("fn:myapp.test:entry\n{\n}");

    let probe = &program.probes[0];
    assert_eq!(probe.body.len(), 0);
    assert_eq!(probe.predicate.len(), 0);
}

#[test]
fn test_probe_spec_conversion_entry() {
    let program = compile_program("fn:myapp.test.function:entry\n{\n    capture(args);\n}");

    let probe = &program.probes[0];
    match &probe.spec {
        ProbeSpec::Fn { specifier, target } => {
            assert_eq!(specifier, "myapp.test.function");
            assert_eq!(*target, FnTarget::Entry);
        }
    }
}

#[test]
fn test_probe_spec_conversion_exit() {
    let program = compile_program("fn:myapp.test:exit\n{\n    capture(retval);\n}");

    let probe = &program.probes[0];
    match &probe.spec {
        ProbeSpec::Fn { specifier, target } => {
            assert_eq!(specifier, "myapp.test");
            assert_eq!(*target, FnTarget::Exit);
        }
    }
}
