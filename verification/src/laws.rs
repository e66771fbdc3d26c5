//! Laws that relate the phases: the shape of every accepted program,
//! the right-associativity of operator chains, the error owed when a
//! semicolon is missing, and the determinism of the whole pipeline.

use vstd::prelude::*;
use crate::ast::{AstS, BinaryOp};
use crate::compiler::{
    lemma_declaration_rest, spec_compile, spec_declaration, spec_declarations, spec_expression,
    spec_term, tok_text,
};
use crate::scanner::spec_tokens;
use crate::text::spec_digits_val;
use crate::token::{Token, TokenType};
use crate::{spec_pipeline, CompileError};

verus! {

/// Every declaration the declaration rule accepts is a function node.
pub proof fn lemma_declarations_are_functions(code: Seq<u8>, toks: Seq<Token>)
    ensures
        match spec_declarations(code, toks) {
            Ok(ds) => forall|i: int| 0 <= i < ds.len() ==> (#[trigger] ds[i]) is Function,
            Err(_) => true,
        },
    decreases toks.len(),
{
    if toks.len() > 0 {
        match spec_declaration(code, toks) {
            Err(_) => {},
            Ok(p) => {
                lemma_declaration_rest(code, toks);
                lemma_declarations_are_functions(code, p.1);
            },
        }
    }
}

/// An accepted compilation unit is a `Program` node whose declaration
/// list is exactly what the declaration rule yields over the source's
/// token sequence, one `Function` node per top-level definition, in
/// source order; its length is the number of those definitions.
pub proof fn lemma_program_declarations(code: Seq<u8>)
    ensures
        match spec_compile(code) {
            Ok(a) => {
                &&& a is Program
                &&& spec_declarations(code, spec_tokens(code, 0, 0)) == Ok::<Seq<AstS>, crate::compiler::ParseError>(
                    a->Program_declarations,
                )
                &&& forall|i: int|
                    0 <= i < a->Program_declarations.len() ==> (
                    #[trigger] a->Program_declarations[i]) is Function
            },
            Err(_) => true,
        },
{
    lemma_declarations_are_functions(code, spec_tokens(code, 0, 0));
}

/// Right-associativity: an expression of three integer literals joined
/// by two minus tokens parses as `a - (b - c)`, never as the
/// left-nested form.
pub proof fn lemma_expression_right_associative(
    code: Seq<u8>,
    a: Token,
    m1: Token,
    b: Token,
    m2: Token,
    c: Token,
)
    requires
        a.token_type == TokenType::Integer,
        b.token_type == TokenType::Integer,
        c.token_type == TokenType::Integer,
        m1.token_type == TokenType::Minus,
        m2.token_type == TokenType::Minus,
        spec_digits_val(tok_text(code, a)) <= i32::MAX,
        spec_digits_val(tok_text(code, b)) <= i32::MAX,
        spec_digits_val(tok_text(code, c)) <= i32::MAX,
    ensures
        spec_expression(code, seq![a, m1, b, m2, c]) == Ok::<(AstS, Seq<Token>), crate::compiler::ParseError>(
            (
                AstS::BinaryOp {
                    op: BinaryOp::Minus,
                    lhs: Box::new(
                        AstS::IntegerLiteral { value: spec_digits_val(tok_text(code, a)) },
                    ),
                    rhs: Box::new(
                        AstS::BinaryOp {
                            op: BinaryOp::Minus,
                            lhs: Box::new(
                                AstS::IntegerLiteral {
                                    value: spec_digits_val(tok_text(code, b)),
                                },
                            ),
                            rhs: Box::new(
                                AstS::IntegerLiteral {
                                    value: spec_digits_val(tok_text(code, c)),
                                },
                            ),
                        },
                    ),
                },
                Seq::<Token>::empty(),
            ),
        ),
{
    reveal_with_fuel(crate::compiler::spec_term, 4);
    reveal_with_fuel(crate::compiler::spec_expression, 4);
    let va = spec_digits_val(tok_text(code, a));
    let vb = spec_digits_val(tok_text(code, b));
    let vc = spec_digits_val(tok_text(code, c));
    let toks = seq![a, m1, b, m2, c];
    assert(toks.drop_first() =~= seq![m1, b, m2, c]);
    assert(seq![m1, b, m2, c].drop_first() =~= seq![b, m2, c]);
    assert(seq![b, m2, c].drop_first() =~= seq![m2, c]);
    assert(seq![m2, c].drop_first() =~= seq![c]);
    assert(seq![c].drop_first() =~= Seq::<Token>::empty());
    assert(spec_term(code, seq![c]) == Ok::<(AstS, Seq<Token>), crate::compiler::ParseError>(
        (AstS::IntegerLiteral { value: vc }, Seq::<Token>::empty()),
    ));
    assert(spec_term(code, seq![b, m2, c]) == Ok::<
        (AstS, Seq<Token>),
        crate::compiler::ParseError,
    >(
        (
            AstS::BinaryOp {
                op: BinaryOp::Minus,
                lhs: Box::new(AstS::IntegerLiteral { value: vb }),
                rhs: Box::new(AstS::IntegerLiteral { value: vc }),
            },
            Seq::<Token>::empty(),
        ),
    ));
}

/// A function body whose statement is not followed by a semicolon is
/// rejected with exactly the expected-semicolon error.
pub proof fn lemma_missing_semicolon(
    code: Seq<u8>,
    name: Token,
    lb: Token,
    ret: Token,
    lit: Token,
    rb: Token,
)
    requires
        name.token_type == TokenType::Identifier,
        lb.token_type == TokenType::BraceLeft,
        ret.token_type == TokenType::Return,
        lit.token_type == TokenType::Integer,
        rb.token_type == TokenType::BraceRight,
        spec_digits_val(tok_text(code, lit)) <= i32::MAX,
    ensures
        spec_declaration(code, seq![name, lb, ret, lit, rb]) == Err::<(AstS, Seq<Token>), crate::compiler::ParseError>(
            crate::compiler::ParseError::ExpectedSemicolon,
        ),
{
    let toks = seq![name, lb, ret, lit, rb];
    assert(toks.drop_first() =~= seq![lb, ret, lit, rb]);
    assert(seq![lb, ret, lit, rb].drop_first() =~= seq![ret, lit, rb]);
    assert(seq![ret, lit, rb].drop_first() =~= seq![lit, rb]);
    assert(seq![lit, rb].drop_first() =~= seq![rb]);
}

/// A parse failure yields no assembly at all: the pipeline's outcome
/// is the parse error itself, with no output beside it.
pub proof fn lemma_no_output_on_parse_error(code: Seq<u8>)
    ensures
        match spec_compile(code) {
            Ok(_) => true,
            Err(e) => spec_pipeline(code) == Err::<Seq<Seq<char>>, CompileError>(CompileError::Parse(e)),
        },
{
}

/// The pipeline is a pure function of the source bytes: no state is
/// carried between runs, so running it again on the same bytes gives
/// the identical outcome. Together with the contract of
/// `compile_source`, two executions on equal buffers return equal
/// assembly line for line.
pub proof fn lemma_pipeline_deterministic(first: Seq<u8>, second: Seq<u8>)
    requires
        first == second,
    ensures
        spec_pipeline(first) == spec_pipeline(second),
{
}

} // verus!
