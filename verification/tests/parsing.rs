use tinyc::ast::{AstNode, BinaryOp};
use tinyc::compiler::{Compiler, ParseError};
use tinyc::token::{Token, TokenType};

fn parse(source: &[u8]) -> Result<AstNode, ParseError> {
    let mut compiler = Compiler::new(source.to_vec());
    compiler.compile()
}

#[test]
fn parses_the_reference_function() {
    let tree = parse(b"f -> i32 { return 1 + 2; }").unwrap();
    let expected = AstNode::Program {
        declarations: vec![AstNode::Function {
            name: String::from("f"),
            statements: vec![AstNode::ReturnStatement {
                expression: Box::new(AstNode::BinaryOp {
                    op: BinaryOp::Plus,
                    lhs: Box::new(AstNode::IntegerLiteral { value: 1 }),
                    rhs: Box::new(AstNode::IntegerLiteral { value: 2 }),
                }),
            }],
        }],
    };
    assert_eq!(tree, expected);
}

#[test]
fn subtraction_chains_parse_right_associatively() {
    let tree = parse(b"main { return 1 - 2 - 3; }").unwrap();
    let expected = AstNode::Program {
        declarations: vec![AstNode::Function {
            name: String::from("main"),
            statements: vec![AstNode::ReturnStatement {
                expression: Box::new(AstNode::BinaryOp {
                    op: BinaryOp::Minus,
                    lhs: Box::new(AstNode::IntegerLiteral { value: 1 }),
                    rhs: Box::new(AstNode::BinaryOp {
                        op: BinaryOp::Minus,
                        lhs: Box::new(AstNode::IntegerLiteral { value: 2 }),
                        rhs: Box::new(AstNode::IntegerLiteral { value: 3 }),
                    }),
                }),
            }],
        }],
    };
    assert_eq!(tree, expected);
}

#[test]
fn declaration_count_matches_source_definitions_in_order() {
    let tree = parse(b"a { return 1; } b { return 2; } c { return 3; }").unwrap();
    match tree {
        AstNode::Program { declarations } => {
            assert_eq!(declarations.len(), 3);
            let names: Vec<String> = declarations
                .iter()
                .map(|declaration| match declaration {
                    AstNode::Function { name, .. } => name.clone(),
                    _ => panic!("top-level declaration is not a function"),
                })
                .collect();
            assert_eq!(names, vec!["a", "b", "c"]);
        }
        _ => panic!("compile did not produce a program node"),
    }
}

#[test]
fn empty_source_is_an_empty_program() {
    let tree = parse(b"").unwrap();
    assert_eq!(tree, AstNode::Program { declarations: vec![] });
}

#[test]
fn zero_argument_call_parses_by_name() {
    let tree = parse(b"f { return callee(); }").unwrap();
    let expected = AstNode::Program {
        declarations: vec![AstNode::Function {
            name: String::from("f"),
            statements: vec![AstNode::ReturnStatement {
                expression: Box::new(AstNode::Call { callee: String::from("callee") }),
            }],
        }],
    };
    assert_eq!(tree, expected);
}

#[test]
fn missing_semicolon_is_reported_as_expected_semicolon() {
    assert_eq!(parse(b"main { return 1 }"), Err(ParseError::ExpectedSemicolon));
}

#[test]
fn each_syntax_error_names_its_condition() {
    assert_eq!(parse(b"{"), Err(ParseError::InvalidDeclaration));
    assert_eq!(parse(b"f -> {"), Err(ParseError::ExpectedReturnType));
    assert_eq!(parse(b"f return"), Err(ParseError::ExpectedBraceLeft));
    assert_eq!(parse(b"f { x; }"), Err(ParseError::InvalidStatement));
    assert_eq!(parse(b"f { return ; }"), Err(ParseError::InvalidExpression));
    assert_eq!(parse(b"f { return g; }"), Err(ParseError::ExpectedParenLeft));
    assert_eq!(parse(b"f { return g(; }"), Err(ParseError::ExpectedParenRight));
}

#[test]
fn error_messages_name_what_was_expected() {
    assert_eq!(ParseError::ExpectedSemicolon.message(), "expected ';'");
    assert_eq!(ParseError::ExpectedBraceLeft.message(), "expected '{'");
    assert_eq!(ParseError::ExpectedParenLeft.message(), "expected '('");
    assert_eq!(ParseError::ExpectedParenRight.message(), "expected ')'");
    assert_eq!(ParseError::ExpectedReturnType.message(), "expected return type");
    assert_eq!(ParseError::InvalidDeclaration.message(), "invalid top-level declaration");
    assert_eq!(ParseError::InvalidStatement.message(), "invalid start of statement");
    assert_eq!(ParseError::InvalidExpression.message(), "invalid start of expression");
}

#[test]
fn out_of_range_diagnostic_names_the_offending_literal() {
    let source = b"f { return 2147483648; }".to_vec();
    let mut compiler = Compiler::new(source.clone());
    let err = compiler.compile().unwrap_err();
    assert_eq!(
        err.message_with_source(&source),
        "cannot parse integer from 2147483648: number too large to fit in a 32-bit signed integer"
    );
    assert_eq!(
        err.message(),
        "cannot parse integer: number too large to fit in a 32-bit signed integer"
    );
}

#[test]
fn diagnostics_against_the_wrong_source_fall_back_to_the_fixed_text() {
    let literal = Token { token_type: TokenType::Integer, line: 0, start: 90, length: 10 };
    let err = ParseError::IntegerOutOfRange { literal };
    assert_eq!(
        err.message_with_source(&b"short".to_vec()),
        "cannot parse integer: number too large to fit in a 32-bit signed integer"
    );
}

#[test]
fn integer_literals_at_the_boundary() {
    let tree = parse(b"f { return 2147483647; }").unwrap();
    let expected = AstNode::Program {
        declarations: vec![AstNode::Function {
            name: String::from("f"),
            statements: vec![AstNode::ReturnStatement {
                expression: Box::new(AstNode::IntegerLiteral { value: 2147483647 }),
            }],
        }],
    };
    assert_eq!(tree, expected);
    let literal = Token { token_type: TokenType::Integer, line: 0, start: 11, length: 10 };
    assert_eq!(
        parse(b"f { return 2147483648; }"),
        Err(ParseError::IntegerOutOfRange { literal })
    );
}

#[test]
fn arrow_annotation_is_parsed_and_discarded() {
    let with_annotation = parse(b"f -> u64 { return 1; }").unwrap();
    let without_annotation = parse(b"f { return 1; }").unwrap();
    assert_eq!(with_annotation, without_annotation);
}
