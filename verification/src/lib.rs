//! A verified ahead-of-time compiler for a minimal source language:
//! integer literals, binary `+`/`-`, zero-argument calls, function
//! declarations and `return` statements, translated to Intel-syntax
//! x86-64 assembly text.
//!
//! The pipeline has three phases: the scanner turns raw bytes into
//! tokens on demand, the recursive-descent parser builds an abstract
//! syntax tree, and the code generator walks that tree emitting
//! assembly lines under a fixed register-succession policy.

use vstd::prelude::*;

pub mod token;
pub mod register;
pub mod text;
pub mod scanner;
pub mod ast;
pub mod compiler;
pub mod codegen;
pub mod laws;

verus! {

/// Why a compilation failed: a syntax error from the parser, or the
/// code generator's register-exhaustion error. The two tiers stay
/// distinct.
#[derive(Clone, Copy, Debug, PartialEq, Eq, Structural)]
pub enum CompileError {
    Parse(compiler::ParseError),
    Emit(codegen::EmitError),
}

/// What the whole pipeline yields on a source buffer: the program's
/// assembly lines, or the first error. Scanning, parsing and code
/// generation are all deterministic functions of the bytes, so this is
/// too.
pub open spec fn spec_pipeline(code: Seq<u8>) -> Result<Seq<Seq<char>>, CompileError> {
    match compiler::spec_compile(code) {
        Err(e) => Err(CompileError::Parse(e)),
        Ok(tree) => {
            let res = codegen::spec_emit(
                tree,
                Seq::empty(),
                false,
                register::Context::User,
                Some(register::Register::Rax),
            );
            match res.0 {
                Ok(_) => Ok(res.1),
                Err(e) => Err(CompileError::Emit(e)),
            }
        },
    }
}

/// The full front-to-back pipeline on one source buffer: scan and
/// parse the bytes, then generate assembly onto a fresh output. A
/// parse failure yields no assembly at all; a code-generation failure
/// is reported as its own tier.
pub fn compile_source(code: &Vec<u8>) -> (r: Result<Vec<String>, CompileError>)
    ensures
        match r {
            Ok(lines) => spec_pipeline(code@) == Ok::<Seq<Seq<char>>, CompileError>(
                codegen::lines_view(lines@),
            ),
            Err(e) => spec_pipeline(code@) == Err::<Seq<Seq<char>>, CompileError>(e),
        },
{
    let mut parser = compiler::Compiler::new(code.clone());
    let tree = match parser.compile() {
        Ok(tree) => tree,
        Err(e) => {
            return Err(CompileError::Parse(e));
        },
    };
    let mut lines: Vec<String> = Vec::new();
    proof {
        assert(codegen::lines_view(lines@) =~= Seq::<Seq<char>>::empty());
    }
    match codegen::emit_asm(
        &tree,
        &mut lines,
        false,
        register::Context::User,
        Some(register::Register::Rax),
    ) {
        Ok(_) => Ok(lines),
        Err(e) => Err(CompileError::Emit(e)),
    }
}

} // verus!
