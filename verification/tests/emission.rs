use tinyc::ast::{AstNode, BinaryOp};
use tinyc::codegen::{emit_asm, EmitError};
use tinyc::compiler::Compiler;
use tinyc::register::{Context, Register};
use tinyc::{compile_source, CompileError};

fn pipeline(source: &[u8]) -> Result<Vec<String>, CompileError> {
    compile_source(&source.to_vec())
}

#[test]
fn main_function_emits_entry_directive_and_exit_sequence() {
    let mut compiler = Compiler::new(b"main { return 0; }".to_vec());
    let tree = compiler.compile().unwrap();
    let function = match tree {
        AstNode::Program { mut declarations } => declarations.remove(0),
        _ => panic!("not a program"),
    };
    let mut lines: Vec<String> = Vec::new();
    emit_asm(&function, &mut lines, false, Context::User, Some(Register::Rdi)).unwrap();
    assert_eq!(lines, vec![".global _start", "_start:", "mov rdi, 0", "mov rax, 60", "syscall"]);
    assert!(!lines.iter().any(|line| line == "ret"));
}

#[test]
fn non_main_function_emits_label_move_and_ret() {
    let mut compiler = Compiler::new(b"g { return 5; }".to_vec());
    let tree = compiler.compile().unwrap();
    let function = match tree {
        AstNode::Program { mut declarations } => declarations.remove(0),
        _ => panic!("not a program"),
    };
    let mut lines: Vec<String> = Vec::new();
    emit_asm(&function, &mut lines, false, Context::User, Some(Register::Rdi)).unwrap();
    assert_eq!(lines, vec!["g:", "mov rdi, 5", "ret"]);
    assert!(!lines.iter().any(|line| line == "syscall"));
}

#[test]
fn whole_pipeline_for_main_inserts_directive_at_front() {
    let lines = pipeline(b"main { return 0; }").unwrap();
    assert_eq!(
        lines,
        vec![".global _start", ".section .text", "_start:", "mov rdi, 0", "mov rax, 60", "syscall"]
    );
}

#[test]
fn call_as_return_value_emits_exactly_the_call() {
    let lines = pipeline(b"f { return callee(); }").unwrap();
    assert_eq!(lines, vec![".section .text", "f:", "call callee", "ret"]);
}

#[test]
fn binary_operations_walk_the_user_register_succession() {
    let lines = pipeline(b"f { return 1 + 2; }").unwrap();
    assert_eq!(
        lines,
        vec![".section .text", "f:", "mov rdi, 1", "mov rsi, 2", "add rdi, rsi", "ret"]
    );
    let nested = pipeline(b"f { return 1 - 2 - 3; }").unwrap();
    assert_eq!(
        nested,
        vec![
            ".section .text",
            "f:",
            "mov rdi, 1",
            "mov rsi, 2",
            "mov rdx, 3",
            "sub rsi, rdx",
            "sub rdi, rsi",
            "ret"
        ]
    );
}

#[test]
fn exhausting_the_register_sequence_is_its_own_error() {
    let result = pipeline(b"f { return 1 - 2 - 3 - 4 - 5 - 6 - 7 - 8; }");
    assert_eq!(result, Err(CompileError::Emit(EmitError::OutOfRegisters)));
    assert_eq!(EmitError::OutOfRegisters.message(), "ran out of registers");
}

#[test]
fn parse_failure_produces_no_assembly_at_all() {
    let result = pipeline(b"main { return 1 }");
    assert!(matches!(result, Err(CompileError::Parse(_))));
}

#[test]
fn pipeline_is_idempotent_on_the_same_source() {
    let source = b"main { return 40 + 2; } helper { return other(); }";
    let first = pipeline(source).unwrap();
    let second = pipeline(source).unwrap();
    assert_eq!(first, second);
}

#[test]
fn missing_register_for_a_literal_is_the_allocator_error() {
    let node = AstNode::IntegerLiteral { value: 7 };
    let mut lines: Vec<String> = Vec::new();
    let result = emit_asm(&node, &mut lines, false, Context::User, None);
    assert_eq!(result, Err(EmitError::OutOfRegisters));
    assert!(lines.is_empty());
}

#[test]
fn negative_literal_values_render_with_a_sign() {
    let node = AstNode::BinaryOp {
        op: BinaryOp::Minus,
        lhs: Box::new(AstNode::IntegerLiteral { value: -8 }),
        rhs: Box::new(AstNode::IntegerLiteral { value: i32::MIN }),
    };
    let mut lines: Vec<String> = Vec::new();
    emit_asm(&node, &mut lines, false, Context::User, Some(Register::Rax)).unwrap();
    assert_eq!(lines, vec!["mov rax, -8", "mov rdi, -2147483648", "sub rax, rdi"]);
}

#[test]
fn register_mnemonics_are_exact() {
    assert_eq!(Register::Rax.to_string(), "rax");
    assert_eq!(Register::Rsp.to_string(), "rsp");
    assert_eq!(Register::R15.to_string(), "r15");
}

#[test]
fn register_succession_tables_match_the_calling_conventions() {
    assert_eq!(Register::Rax.next_available(Context::User), Some(Register::Rdi));
    assert_eq!(Register::Rdi.next_available(Context::User), Some(Register::Rsi));
    assert_eq!(Register::Rsi.next_available(Context::User), Some(Register::Rdx));
    assert_eq!(Register::Rdx.next_available(Context::User), Some(Register::Rcx));
    assert_eq!(Register::Rcx.next_available(Context::User), Some(Register::R8));
    assert_eq!(Register::R8.next_available(Context::User), Some(Register::R9));
    assert_eq!(Register::R9.next_available(Context::User), None);
    assert_eq!(Register::Rax.next_available(Context::Kernel), Some(Register::Rdi));
    assert_eq!(Register::Rdi.next_available(Context::Kernel), Some(Register::Rsi));
    assert_eq!(Register::Rsi.next_available(Context::Kernel), Some(Register::R10));
    assert_eq!(Register::R10.next_available(Context::Kernel), Some(Register::R8));
    assert_eq!(Register::R8.next_available(Context::Kernel), Some(Register::R9));
    assert_eq!(Register::R9.next_available(Context::Kernel), None);
    assert_eq!(Register::Rbp.next_available(Context::User), None);
}

#[test]
fn entry_directive_goes_to_the_very_front_even_when_main_comes_last() {
    let lines = pipeline(b"a { return 1; } main { return 0; }").unwrap();
    assert_eq!(
        lines,
        vec![
            ".global _start",
            ".section .text",
            "a:",
            "mov rdi, 1",
            "ret",
            "_start:",
            "mov rdi, 0",
            "mov rax, 60",
            "syscall"
        ]
    );
}

#[test]
fn kernel_context_walks_its_own_succession_table() {
    let node = AstNode::BinaryOp {
        op: BinaryOp::Minus,
        lhs: Box::new(AstNode::IntegerLiteral { value: 1 }),
        rhs: Box::new(AstNode::BinaryOp {
            op: BinaryOp::Minus,
            lhs: Box::new(AstNode::IntegerLiteral { value: 2 }),
            rhs: Box::new(AstNode::IntegerLiteral { value: 3 }),
        }),
    };
    let mut lines: Vec<String> = Vec::new();
    emit_asm(&node, &mut lines, false, Context::Kernel, Some(Register::Rax)).unwrap();
    assert_eq!(
        lines,
        vec!["mov rax, 1", "mov rdi, 2", "mov rsi, 3", "sub rdi, rsi", "sub rax, rdi"]
    );
}

#[test]
fn statements_emit_in_source_order() {
    let lines = pipeline(b"f { return 1; return 2; }").unwrap();
    assert_eq!(
        lines,
        vec![".section .text", "f:", "mov rdi, 1", "ret", "mov rdi, 2", "ret"]
    );
}
