//! The surface-language front-ends: lexing, parsing and compilation to
//! bytecode.

use zvm::assembler;
use zvm::fhescript::{self, AstNode, BinaryOp, Token, ValueType};
use zvm::lang;
use zvm::typescript::{compile_program, parse_stackscript};
use zvm::value::Value;
use zvm::vm::{OpCode, VM};

#[test]
fn test_lex_basic_expression() {
    let input = "int x = 10 + 20;";
    let expected_tokens = vec![
        Token::IntKeyword,
        Token::Identifier("x".to_string()),
        Token::Assign,
        Token::Integer(10),
        Token::OpAdd,
        Token::Integer(20),
        Token::Semicolon,
    ];
    let result = fhescript::lex(input).unwrap();
    assert_eq!(result, expected_tokens);
}

#[test]
fn test_lex_function_declaration() {
    let input = "function max(a: int, b: int): int { if (a > b) { return a; } else { return b; } }";
    let expected_tokens = vec![
        Token::FunctionKeyword,
        Token::Identifier("max".to_string()),
        Token::LParen,
        Token::Identifier("a".to_string()),
        Token::Colon,
        Token::IntKeyword,
        Token::Comma,
        Token::Identifier("b".to_string()),
        Token::Colon,
        Token::IntKeyword,
        Token::RParen,
        Token::Colon,
        Token::IntKeyword,
        Token::LBrace,
        Token::IfKeyword,
        Token::LParen,
        Token::Identifier("a".to_string()),
        Token::OpGt,
        Token::Identifier("b".to_string()),
        Token::RParen,
        Token::LBrace,
        Token::ReturnKeyword,
        Token::Identifier("a".to_string()),
        Token::Semicolon,
        Token::RBrace,
        Token::ElseKeyword,
        Token::LBrace,
        Token::ReturnKeyword,
        Token::Identifier("b".to_string()),
        Token::Semicolon,
        Token::RBrace,
        Token::RBrace,
    ];
    let result = fhescript::lex(input).unwrap();
    assert_eq!(result, expected_tokens);
}

#[test]
fn test_parse_variable_declaration() {
    let tokens = vec![
        Token::IntKeyword,
        Token::Identifier("x".to_string()),
        Token::Assign,
        Token::Integer(42),
        Token::Semicolon,
    ];
    let expected_ast = vec![AstNode::VariableDeclaration {
        name: "x".to_string(),
        vtype: ValueType::Int,
        value: Box::new(AstNode::LiteralInt(42)),
    }];
    let result = fhescript::parse(&tokens).unwrap();
    assert_eq!(result, expected_ast);
}

#[test]
fn test_lex_rejects_unknown_byte() {
    assert!(fhescript::lex("int x = #;").is_err());
}

#[test]
fn test_lex_rejects_oversized_numeral() {
    assert!(fhescript::lex("int x = 99999999999;").is_err());
}

#[test]
fn test_fhescript_codegen_arithmetic() {
    let ast = vec![AstNode::BinaryExpr {
        left: Box::new(AstNode::LiteralInt(10)),
        operator: BinaryOp::Add,
        right: Box::new(AstNode::LiteralInt(20)),
    }];
    let expected_opcodes = vec![
        OpCode::Push(Value::Uint32(10)),
        OpCode::Push(Value::Uint32(20)),
        OpCode::Add,
    ];
    let result = fhescript::compile(&ast).unwrap();
    assert_eq!(result, expected_opcodes);
}

#[test]
fn test_fhescript_pipeline_runs() {
    let tokens = fhescript::lex("int x = 6 * 7;").unwrap();
    let ast = fhescript::parse(&tokens).unwrap();
    let code = fhescript::compile(&ast).unwrap();
    // the declaration's value lands in scratch slot 0
    let mut vm = VM::new();
    vm.execute(&code).unwrap();
    vm.execute(&[OpCode::Load(0)]).unwrap();
    assert_eq!(vm.pop().unwrap(), Value::Uint32(42));
}

#[test]
fn test_parser_with_ast2() {
    let code = "
            let a = 35;
            let a = a + 5;
            if (a > 25) {
                let a = a - 20;
            }
        ";
    let ast = parse_stackscript(code).unwrap();
    println!("{:?}", ast);

    match compile_program(&ast) {
        Ok(compiled_opcodes) => {
            compiled_opcodes.iter().for_each(|op| println!("{:?}", op));
        }
        Err(e) => {
            // conditional control flow has no straight-line compilation
            println!("{:?}", e);
        }
    }
}

#[test]
fn test_parser_with_ast() {
    let code = "
            let a = 10;
            let b = 20;
            let a = a + b;
            if (a > 25) {
                let a = a - 5;
            }
        ";
    let ast = parse_stackscript(code).unwrap();
    println!("{:?}", ast);

    match compile_program(&ast) {
        Ok(compiled_opcodes) => {
            compiled_opcodes.iter().for_each(|op| println!("{:?}", op));

            let mut vm = VM::new();
            let _ = vm.execute(&compiled_opcodes);

            if let Some(result) = vm.stack.last() {
                println!("Result of addition: {:?}", result);
            } else {
                println!("Error: Stack is empty.");
            }
        }
        Err(e) => {
            println!("{:?}", e);
        }
    }
}

#[test]
fn test_stackscript_straight_line_compiles_and_runs() {
    let code = "
            let a = 10;
            let b = 20;
            let c = a + b;
        ";
    let ast = parse_stackscript(code).unwrap();
    let compiled = compile_program(&ast).unwrap();
    let mut vm = VM::new();
    vm.execute(&compiled).unwrap();
    // c landed in the third scratch slot
    vm.execute(&[OpCode::Load(2)]).unwrap();
    assert_eq!(vm.pop().unwrap(), Value::Uint32(30));
}

#[test]
fn test_assemble_program() {
    let program = "
            push 10
            push 20
            add
            store 0
            load 0
            push 1
            add
        ";
    let expected = vec![
        OpCode::Push(Value::Uint32(10)),
        OpCode::Push(Value::Uint32(20)),
        OpCode::Add,
        OpCode::Store(0),
        OpCode::Load(0),
        OpCode::Push(Value::Uint32(1)),
        OpCode::Add,
    ];
    let compiled = assembler::compile(program);
    assert_eq!(compiled, expected);
}

#[test]
fn test_assemble_skips_unknown_lines() {
    let compiled = assembler::compile("jmp 3\npush 1\nfrobnicate\nadd");
    assert_eq!(
        compiled,
        vec![OpCode::Push(Value::Uint32(1)), OpCode::Add]
    );
}

#[test]
fn test_lang_parse_trait_and_class() {
    let source = "
            trait Shape {
                area(): uint32;
            }
            public class Square extends Shape {
                side: uint32 = 4;
                constructor(s: uint32) { let side: uint32 = s; }
                area(): uint32 { side * side; }
            }
        ";
    let program = lang::parse(source).unwrap();
    match program {
        lang::Program::Declarations(decls) => {
            assert_eq!(decls.len(), 2);
            assert!(matches!(decls[0], lang::Declaration::TraitDecl(_)));
            assert!(matches!(decls[1], lang::Declaration::ClassDecl(_)));
        }
    }
}

#[test]
fn test_lang_parse_rejects_garbage() {
    assert!(lang::parse("class {").is_err());
    assert!(lang::parse("trait T $").is_err());
}

#[test]
fn test_parser_facades_delegate() {
    let p = zvm::LanguageParser::parse("trait T { f(): bool; }").unwrap();
    match p {
        lang::Program::Declarations(ds) => assert_eq!(ds.len(), 1),
    }
    let s = zvm::typescript::StackScriptParser::parse("let a = 1;").unwrap();
    assert_eq!(s.len(), 1);
}
