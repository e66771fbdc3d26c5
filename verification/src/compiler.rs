//! The parser: recursive descent with single-token lookahead and no
//! backtracking. It consumes the scanner's token sequence and builds
//! the syntax tree bottom-up; every failure aborts the whole
//! compilation with a descriptive error, first failure wins.
//!
//! The spec model is the grammar itself, written over the token
//! sequence: each `spec_*` rule consumes a prefix of the tokens and
//! yields the model of the node it builds, or the error the rule
//! reports. The binary-operator rule recurses into the whole
//! expression rule on its right-hand side, so chains of `+`/`-` parse
//! right-associatively.

use vstd::prelude::*;
use crate::ast::{AstNode, AstS, BinaryOp};
use crate::scanner::{lemma_scan_token_props, spec_scan_token, spec_tokens, token_wf, Scanner};
use crate::text::{
    ascii_string, bytes_of_span, chars_of_bytes, parse_i32_digits, span_is_ascii, spec_digits_val,
};
use crate::token::{Token, TokenType};

verus! {

/// The syntax-error conditions the parser reports. Each names what was
/// expected or what could not start the construct being parsed.
#[derive(Clone, Copy, Debug, PartialEq, Eq, Structural)]
pub enum ParseError {
    /// A top-level declaration did not begin with an identifier.
    InvalidDeclaration,
    /// An arrow was not followed by a return-type identifier.
    ExpectedReturnType,
    /// A function body did not begin with an opening brace.
    ExpectedBraceLeft,
    /// A statement was not followed by a semicolon.
    ExpectedSemicolon,
    /// A statement did not begin with the `return` keyword.
    InvalidStatement,
    /// An expression began with a token that cannot start one.
    InvalidExpression,
    /// A call's name was not followed by an opening parenthesis.
    ExpectedParenLeft,
    /// A call's opening parenthesis was not followed by a closing one.
    ExpectedParenRight,
    /// An integer literal does not fit in 32 signed bits; the token
    /// names the offending span of the source.
    IntegerOutOfRange { literal: Token },
}

/// The fixed part of each error's diagnostic text.
pub open spec fn spec_message(e: ParseError) -> Seq<char> {
    match e {
        ParseError::InvalidDeclaration => "invalid top-level declaration"@,
        ParseError::ExpectedReturnType => "expected return type"@,
        ParseError::ExpectedBraceLeft => "expected '{'"@,
        ParseError::ExpectedSemicolon => "expected ';'"@,
        ParseError::InvalidStatement => "invalid start of statement"@,
        ParseError::InvalidExpression => "invalid start of expression"@,
        ParseError::ExpectedParenLeft => "expected '('"@,
        ParseError::ExpectedParenRight => "expected ')'"@,
        ParseError::IntegerOutOfRange { .. } => "cannot parse integer: number too large to fit in a 32-bit signed integer"@,
    }
}

/// Whether a token's span lies inside `code` and holds ASCII bytes
/// only, so that its text can be quoted in a diagnostic.
pub open spec fn spec_span_quotable(code: Seq<u8>, t: Token) -> bool {
    &&& t.start + t.length <= code.len()
    &&& forall|i: int| t.start <= i < t.start + t.length ==> #[trigger] code[i] < 128
}

/// The full diagnostic for an error raised while parsing `code`: for
/// an out-of-range integer literal whose span can be quoted, the text
/// of the offending literal and the cause; otherwise the fixed text.
pub open spec fn spec_message_with_source(code: Seq<u8>, e: ParseError) -> Seq<char> {
    match e {
        ParseError::IntegerOutOfRange { literal } => if spec_span_quotable(code, literal) {
            "cannot parse integer from "@ + chars_of_bytes(tok_text(code, literal))
                + ": number too large to fit in a 32-bit signed integer"@
        } else {
            spec_message(e)
        },
        _ => spec_message(e),
    }
}

impl ParseError {
    /// A short description naming what was expected or what failed.
    pub fn message(&self) -> (r: &'static str)
        ensures
            r@ == spec_message(*self),
    {
        match *self {
            ParseError::InvalidDeclaration => "invalid top-level declaration",
            ParseError::ExpectedReturnType => "expected return type",
            ParseError::ExpectedBraceLeft => "expected '{'",
            ParseError::ExpectedSemicolon => "expected ';'",
            ParseError::InvalidStatement => "invalid start of statement",
            ParseError::InvalidExpression => "invalid start of expression",
            ParseError::ExpectedParenLeft => "expected '('",
            ParseError::ExpectedParenRight => "expected ')'",
            ParseError::IntegerOutOfRange { .. } => "cannot parse integer: number too large to fit in a 32-bit signed integer",
        }
    }

    /// The full diagnostic against the source that was being parsed:
    /// an out-of-range integer literal is reported as
    /// `cannot parse integer from <text>: <cause>`, naming the
    /// offending literal's text.
    pub fn message_with_source(&self, code: &Vec<u8>) -> (r: String)
        ensures
            r@ == spec_message_with_source(code@, *self),
    {
        match *self {
            ParseError::IntegerOutOfRange { literal } => {
                let n: usize = code.len();
                if literal.length <= n && literal.start <= n - literal.length && span_is_ascii(
                    code,
                    literal.start,
                    literal.length,
                ) {
                    let digits = bytes_of_span(code, literal.start, literal.length);
                    let mut s = "cannot parse integer from ".to_owned();
                    s.append(ascii_string(&digits).as_str());
                    s.append(": number too large to fit in a 32-bit signed integer");
                    proof {
                        assert(s@ =~= "cannot parse integer from "@ + chars_of_bytes(
                            tok_text(code@, literal),
                        ) + ": number too large to fit in a 32-bit signed integer"@);
                    }
                    s
                } else {
                    self.message().to_owned()
                }
            },
            _ => self.message().to_owned(),
        }
    }
}

/// The bytes a token's span refers to.
pub open spec fn tok_text(code: Seq<u8>, t: Token) -> Seq<u8> {
    code.subrange(t.start as int, t.start + t.length)
}

/// The primary rule: an integer literal, or a zero-argument call
/// written as an identifier followed by `(` `)`.
pub open spec fn spec_primary(code: Seq<u8>, toks: Seq<Token>) -> Result<
    (AstS, Seq<Token>),
    ParseError,
> {
    if toks.len() > 0 && toks[0].token_type == TokenType::Integer {
        let v = spec_digits_val(tok_text(code, toks[0]));
        if v <= i32::MAX {
            Ok((AstS::IntegerLiteral { value: v }, toks.drop_first()))
        } else {
            Err(ParseError::IntegerOutOfRange { literal: toks[0] })
        }
    } else if toks.len() > 0 && toks[0].token_type == TokenType::Identifier {
        let callee = chars_of_bytes(tok_text(code, toks[0]));
        let rest = toks.drop_first();
        if rest.len() > 0 && rest[0].token_type == TokenType::ParenLeft {
            let rest2 = rest.drop_first();
            if rest2.len() > 0 && rest2[0].token_type == TokenType::ParenRight {
                Ok((AstS::Call { callee }, rest2.drop_first()))
            } else {
                Err(ParseError::ExpectedParenRight)
            }
        } else {
            Err(ParseError::ExpectedParenLeft)
        }
    } else {
        Err(ParseError::InvalidExpression)
    }
}

/// The primary rule consumes at least one token when it succeeds.
pub proof fn lemma_primary_rest(code: Seq<u8>, toks: Seq<Token>)
    ensures
        match spec_primary(code, toks) {
            Ok(p) => p.1.len() < toks.len(),
            Err(_) => true,
        },
{
}

/// The term rule: a primary, optionally followed by `+` or `-` and a
/// whole expression on the right. The right operand being a full
/// expression makes operator chains right-associative.
pub open spec fn spec_term(code: Seq<u8>, toks: Seq<Token>) -> Result<
    (AstS, Seq<Token>),
    ParseError,
>
    decreases toks.len(), 0int,
{
    match spec_primary(code, toks) {
        Err(e) => Err(e),
        Ok(p) => {
            let lhs = p.0;
            let rest = p.1;
            if rest.len() > 0 && (rest[0].token_type == TokenType::Plus || rest[0].token_type
                == TokenType::Minus) {
                let op = if rest[0].token_type == TokenType::Plus {
                    BinaryOp::Plus
                } else {
                    BinaryOp::Minus
                };
                let rest2 = rest.drop_first();
                proof {
                    lemma_primary_rest(code, toks);
                }
                match spec_expression(code, rest2) {
                    Err(e) => Err(e),
                    Ok(r) => Ok(
                        (
                            AstS::BinaryOp { op, lhs: Box::new(lhs), rhs: Box::new(r.0) },
                            r.1,
                        ),
                    ),
                }
            } else {
                Ok((lhs, rest))
            }
        },
    }
}

/// The expression rule: exactly a term.
pub open spec fn spec_expression(code: Seq<u8>, toks: Seq<Token>) -> Result<
    (AstS, Seq<Token>),
    ParseError,
>
    decreases toks.len(), 1int,
{
    spec_term(code, toks)
}

/// The term and expression rules consume at least one token when they
/// succeed.
pub proof fn lemma_expression_rest(code: Seq<u8>, toks: Seq<Token>)
    ensures
        match spec_expression(code, toks) {
            Ok(p) => p.1.len() < toks.len(),
            Err(_) => true,
        },
        match spec_term(code, toks) {
            Ok(p) => p.1.len() < toks.len(),
            Err(_) => true,
        },
    decreases toks.len(),
{
    lemma_primary_rest(code, toks);
    match spec_primary(code, toks) {
        Err(_) => {},
        Ok(p) => {
            let rest = p.1;
            if rest.len() > 0 && (rest[0].token_type == TokenType::Plus || rest[0].token_type
                == TokenType::Minus) {
                lemma_expression_rest(code, rest.drop_first());
            }
        },
    }
}

/// The statement rule: `return` followed by an expression; the only
/// statement form.
pub open spec fn spec_statement(code: Seq<u8>, toks: Seq<Token>) -> Result<
    (AstS, Seq<Token>),
    ParseError,
> {
    if toks.len() > 0 && toks[0].token_type == TokenType::Return {
        match spec_expression(code, toks.drop_first()) {
            Err(e) => Err(e),
            Ok(r) => Ok((AstS::ReturnStatement { expression: Box::new(r.0) }, r.1)),
        }
    } else {
        Err(ParseError::InvalidStatement)
    }
}

/// The statement rule consumes at least one token when it succeeds.
pub proof fn lemma_statement_rest(code: Seq<u8>, toks: Seq<Token>)
    ensures
        match spec_statement(code, toks) {
            Ok(p) => p.1.len() < toks.len(),
            Err(_) => true,
        },
{
    if toks.len() > 0 && toks[0].token_type == TokenType::Return {
        lemma_expression_rest(code, toks.drop_first());
    }
}

/// The statement list of a function body: statements each followed by
/// `;`, until the closing brace, which is consumed.
pub open spec fn spec_statements(code: Seq<u8>, toks: Seq<Token>) -> Result<
    (Seq<AstS>, Seq<Token>),
    ParseError,
>
    decreases toks.len(),
{
    if toks.len() > 0 && toks[0].token_type == TokenType::BraceRight {
        Ok((Seq::empty(), toks.drop_first()))
    } else {
        match spec_statement(code, toks) {
            Err(e) => Err(e),
            Ok(p) => {
                let rest = p.1;
                if rest.len() > 0 && rest[0].token_type == TokenType::Semicolon {
                    let rest2 = rest.drop_first();
                    proof {
                        lemma_statement_rest(code, toks);
                    }
                    match spec_statements(code, rest2) {
                        Err(e) => Err(e),
                        Ok(pp) => Ok((seq![p.0] + pp.0, pp.1)),
                    }
                } else {
                    Err(ParseError::ExpectedSemicolon)
                }
            },
        }
    }
}

/// The statement list consumes at least one token when it succeeds.
pub proof fn lemma_statements_rest(code: Seq<u8>, toks: Seq<Token>)
    ensures
        match spec_statements(code, toks) {
            Ok(p) => p.1.len() < toks.len(),
            Err(_) => true,
        },
    decreases toks.len(),
{
    if toks.len() > 0 && toks[0].token_type == TokenType::BraceRight {
    } else {
        lemma_statement_rest(code, toks);
        match spec_statement(code, toks) {
            Err(_) => {},
            Ok(p) => {
                let rest = p.1;
                if rest.len() > 0 && rest[0].token_type == TokenType::Semicolon {
                    lemma_statements_rest(code, rest.drop_first());
                }
            },
        }
    }
}

/// The function rule: an optional `->` return-type annotation (parsed
/// and discarded), then a braced statement list.
pub open spec fn spec_function(code: Seq<u8>, toks: Seq<Token>, name: Seq<char>) -> Result<
    (AstS, Seq<Token>),
    ParseError,
> {
    let after_sig: Result<Seq<Token>, ParseError> = if toks.len() > 0 && toks[0].token_type
        == TokenType::Arrow {
        let rest = toks.drop_first();
        if rest.len() > 0 && rest[0].token_type == TokenType::Identifier {
            Ok(rest.drop_first())
        } else {
            Err(ParseError::ExpectedReturnType)
        }
    } else {
        Ok(toks)
    };
    match after_sig {
        Err(e) => Err(e),
        Ok(t1) => {
            if t1.len() > 0 && t1[0].token_type == TokenType::BraceLeft {
                match spec_statements(code, t1.drop_first()) {
                    Err(e) => Err(e),
                    Ok(p) => Ok((AstS::Function { name, statements: p.0 }, p.1)),
                }
            } else {
                Err(ParseError::ExpectedBraceLeft)
            }
        },
    }
}

/// The function rule never hands back more tokens than it was given.
pub proof fn lemma_function_rest(code: Seq<u8>, toks: Seq<Token>, name: Seq<char>)
    ensures
        match spec_function(code, toks, name) {
            Ok(p) => p.1.len() < toks.len(),
            Err(_) => true,
        },
{
    if toks.len() > 0 && toks[0].token_type == TokenType::Arrow {
        let rest = toks.drop_first();
        if rest.len() > 0 && rest[0].token_type == TokenType::Identifier {
            lemma_statements_rest(code, rest.drop_first().drop_first());
        }
    } else {
        lemma_statements_rest(code, toks.drop_first());
    }
}

/// The declaration rule: an identifier naming a function, then the
/// function rule.
pub open spec fn spec_declaration(code: Seq<u8>, toks: Seq<Token>) -> Result<
    (AstS, Seq<Token>),
    ParseError,
> {
    if toks.len() > 0 && toks[0].token_type == TokenType::Identifier {
        spec_function(code, toks.drop_first(), chars_of_bytes(tok_text(code, toks[0])))
    } else {
        Err(ParseError::InvalidDeclaration)
    }
}

/// The declaration rule consumes at least one token when it succeeds.
pub proof fn lemma_declaration_rest(code: Seq<u8>, toks: Seq<Token>)
    ensures
        match spec_declaration(code, toks) {
            Ok(p) => p.1.len() < toks.len(),
            Err(_) => true,
        },
{
    if toks.len() > 0 && toks[0].token_type == TokenType::Identifier {
        lemma_function_rest(code, toks.drop_first(), chars_of_bytes(tok_text(code, toks[0])));
    }
}

/// Declarations until the token sequence is exhausted.
pub open spec fn spec_declarations(code: Seq<u8>, toks: Seq<Token>) -> Result<
    Seq<AstS>,
    ParseError,
>
    decreases toks.len(),
{
    if toks.len() == 0 {
        Ok(Seq::empty())
    } else {
        match spec_declaration(code, toks) {
            Err(e) => Err(e),
            Ok(p) => {
                proof {
                    lemma_declaration_rest(code, toks);
                }
                match spec_declarations(code, p.1) {
                    Err(e) => Err(e),
                    Ok(ds) => Ok(seq![p.0] + ds),
                }
            },
        }
    }
}

/// A whole compilation unit: every declaration, wrapped in the root
/// `Program` node.
pub open spec fn spec_parse_program(code: Seq<u8>, toks: Seq<Token>) -> Result<AstS, ParseError> {
    match spec_declarations(code, toks) {
        Err(e) => Err(e),
        Ok(ds) => Ok(AstS::Program { declarations: ds }),
    }
}

/// What compiling a source buffer yields: the scanner's whole token
/// sequence, parsed as a program.
pub open spec fn spec_compile(code: Seq<u8>) -> Result<AstS, ParseError> {
    spec_parse_program(code, spec_tokens(code, 0, 0))
}

/// Statement models already built, prepended to the outcome of the
/// statement list still to be parsed.
pub open spec fn with_prefix_stmts(pre: Seq<AstS>, r: Result<(Seq<AstS>, Seq<Token>), ParseError>)
    -> Result<(Seq<AstS>, Seq<Token>), ParseError> {
    match r {
        Ok(p) => Ok((pre + p.0, p.1)),
        Err(e) => Err(e),
    }
}

/// Declaration models already built, prepended to the outcome of the
/// declarations still to be parsed.
pub open spec fn with_prefix_decls(pre: Seq<AstS>, r: Result<Seq<AstS>, ParseError>) -> Result<
    Seq<AstS>,
    ParseError,
> {
    match r {
        Ok(ds) => Ok(pre + ds),
        Err(e) => Err(e),
    }
}

/// The parser: holds the scanner and the two live token slots, the
/// single-token lookahead `current` and the token just consumed,
/// `previous`.
pub struct Compiler {
    pub scanner: Scanner,
    pub previous: Option<Token>,
    pub current: Option<Token>,
}

impl Compiler {
    /// The scanner is well formed and the lookahead token, when there
    /// is one, came from it.
    pub open spec fn wf(self) -> bool {
        &&& self.scanner.wf()
        &&& (self.current is Some ==> token_wf(self.scanner.code@, self.current->0))
    }

    /// The tokens not yet consumed: the lookahead, then everything the
    /// scanner has not yet scanned.
    pub open spec fn remaining(self) -> Seq<Token> {
        match self.current {
            Some(t) => seq![t] + spec_tokens(
                self.scanner.code@,
                self.scanner.current as int,
                self.scanner.line as int,
            ),
            None => Seq::empty(),
        }
    }

    /// A parser over `code`, with no token scanned yet.
    pub fn new(code: Vec<u8>) -> (c: Compiler)
        ensures
            c.wf(),
            c.scanner.code@ == code@,
            c.scanner.current == 0,
            c.scanner.line == 0,
            c.previous is None,
            c.current is None,
    {
        Compiler { scanner: Scanner::new(code), previous: None, current: None }
    }

    /// Shifts the lookahead into `previous` and pulls the next token
    /// from the scanner.
    fn advance(&mut self)
        requires
            old(self).wf(),
        ensures
            final(self).wf(),
            final(self).scanner.code@ == old(self).scanner.code@,
            final(self).previous == old(self).current,
            final(self).remaining() == spec_tokens(
                old(self).scanner.code@,
                old(self).scanner.current as int,
                old(self).scanner.line as int,
            ),
            old(self).current is Some ==> final(self).remaining() == old(
                self,
            ).remaining().drop_first(),
    {
        proof {
            lemma_scan_token_props(
                self.scanner.code@,
                self.scanner.current as int,
                self.scanner.line as int,
            );
        }
        self.previous = self.current;
        self.current = self.scanner.scan_token();
        proof {
            let code = old(self).scanner.code@;
            let pos = old(self).scanner.current as int;
            let line = old(self).scanner.line as int;
            let step = spec_scan_token(code, pos, line);
            if step.token is Some {
                assert(spec_tokens(code, pos, line) == seq![step.token->0] + spec_tokens(
                    code,
                    step.current,
                    step.line,
                ));
            }
            if old(self).current is Some {
                assert((seq![old(self).current->0] + spec_tokens(code, pos, line)).drop_first()
                    =~= spec_tokens(code, pos, line));
            }
        }
    }

    /// Consumes the lookahead and returns true exactly when it is a
    /// token of kind `token_type`.
    fn match_token(&mut self, token_type: TokenType) -> (r: bool)
        requires
            old(self).wf(),
        ensures
            final(self).wf(),
            final(self).scanner.code@ == old(self).scanner.code@,
            r == (old(self).remaining().len() > 0 && old(self).remaining()[0].token_type
                == token_type),
            r ==> final(self).previous == old(self).current && old(self).current == Some(
                old(self).remaining()[0],
            ) && final(self).remaining() == old(self).remaining().drop_first(),
            !r ==> *final(self) == *old(self),
    {
        proof {
            if old(self).current is Some {
                assert(old(self).remaining()[0] == old(self).current->0);
            }
        }
        if self.check_token(token_type) {
            self.advance();
            true
        } else {
            false
        }
    }

    /// Whether the lookahead is a token of kind `token_type`.
    fn check_token(&self, token_type: TokenType) -> (r: bool)
        ensures
            r == (self.current is Some && self.current->0.token_type == token_type),
    {
        match self.current {
            Some(t) => t.token_type == token_type,
            None => false,
        }
    }

    /// Parses one top-level declaration: a function introduced by its
    /// name.
    fn declaration(&mut self) -> (r: Result<AstNode, ParseError>)
        requires
            old(self).wf(),
        ensures
            final(self).wf(),
            final(self).scanner.code@ == old(self).scanner.code@,
            match r {
                Ok(node) => spec_declaration(old(self).scanner.code@, old(self).remaining())
                    == Ok::<(AstS, Seq<Token>), ParseError>((node@, final(self).remaining())),
                Err(e) => spec_declaration(old(self).scanner.code@, old(self).remaining())
                    == Err::<(AstS, Seq<Token>), ParseError>(e),
            },
    {
        if self.match_token(TokenType::Identifier) {
            let prev = self.previous.unwrap();
            let name = self.scanner.get_token_text(prev);
            self.function(name)
        } else {
            Err(ParseError::InvalidDeclaration)
        }
    }

    /// Parses a function after its name: the optional return-type
    /// annotation, then the braced statement list.
    fn function(&mut self, name: String) -> (r: Result<AstNode, ParseError>)
        requires
            old(self).wf(),
        ensures
            final(self).wf(),
            final(self).scanner.code@ == old(self).scanner.code@,
            match r {
                Ok(node) => spec_function(old(self).scanner.code@, old(self).remaining(), name@)
                    == Ok::<(AstS, Seq<Token>), ParseError>((node@, final(self).remaining())),
                Err(e) => spec_function(old(self).scanner.code@, old(self).remaining(), name@)
                    == Err::<(AstS, Seq<Token>), ParseError>(e),
            },
    {
        let ghost code = old(self).scanner.code@;
        if self.match_token(TokenType::Arrow) {
            if !self.match_token(TokenType::Identifier) {
                return Err(ParseError::ExpectedReturnType);
            }
        }
        if !self.match_token(TokenType::BraceLeft) {
            return Err(ParseError::ExpectedBraceLeft);
        }
        let ghost toks0 = self.remaining();
        let mut statements: Vec<AstNode> = Vec::new();
        proof {
            assert(statements@ =~= Seq::<AstNode>::empty());
            match spec_statements(code, toks0) {
                Ok(p) => {
                    assert(Seq::<AstS>::empty() + p.0 =~= p.0);
                },
                Err(_) => {},
            }
        }
        loop
            invariant_except_break
                self.wf(),
                code == old(self).scanner.code@,
                self.scanner.code@ == code,
                spec_function(code, old(self).remaining(), name@) == (match spec_statements(
                    code,
                    toks0,
                ) {
                    Ok(p) => Ok::<(AstS, Seq<Token>), ParseError>(
                        (AstS::Function { name: name@, statements: p.0 }, p.1),
                    ),
                    Err(e) => Err::<(AstS, Seq<Token>), ParseError>(e),
                }),
                with_prefix_stmts(
                    crate::ast::deep_seq(statements@),
                    spec_statements(code, self.remaining()),
                ) == spec_statements(code, toks0),
            ensures
                self.wf(),
                code == old(self).scanner.code@,
                self.scanner.code@ == code,
                spec_function(code, old(self).remaining(), name@) == (match spec_statements(
                    code,
                    toks0,
                ) {
                    Ok(p) => Ok::<(AstS, Seq<Token>), ParseError>(
                        (AstS::Function { name: name@, statements: p.0 }, p.1),
                    ),
                    Err(e) => Err::<(AstS, Seq<Token>), ParseError>(e),
                }),
                spec_statements(code, toks0) == Ok::<(Seq<AstS>, Seq<Token>), ParseError>(
                    (crate::ast::deep_seq(statements@), self.remaining()),
                ),
            decreases self.remaining().len(),
        {
            let ghost rem0 = self.remaining();
            let ghost stmts_pre = statements@;
            if self.match_token(TokenType::BraceRight) {
                proof {
                    assert(spec_statements(code, rem0) == Ok::<
                        (Seq<AstS>, Seq<Token>),
                        ParseError,
                    >((Seq::empty(), rem0.drop_first())));
                    assert(crate::ast::deep_seq(stmts_pre) + Seq::<AstS>::empty()
                        =~= crate::ast::deep_seq(stmts_pre));
                }
                break ;
            }
            let stmt = match self.statement() {
                Ok(stmt) => stmt,
                Err(err) => {
                    return Err(err);
                },
            };
            let ghost rem1 = self.remaining();
            if !self.match_token(TokenType::Semicolon) {
                return Err(ParseError::ExpectedSemicolon);
            }
            proof {
                lemma_statement_rest(code, rem0);
                crate::ast::lemma_deep_seq_push(stmts_pre, stmt);
                assert(spec_statements(code, rem0) == with_prefix_stmts(
                    seq![stmt@],
                    spec_statements(code, rem1.drop_first()),
                ));
            }
            statements.push(stmt);
            proof {
                assert forall|r: Result<(Seq<AstS>, Seq<Token>), ParseError>|
                    with_prefix_stmts(crate::ast::deep_seq(stmts_pre), with_prefix_stmts(
                        seq![stmt@],
                        r,
                    )) == with_prefix_stmts(crate::ast::deep_seq(stmts_pre) + seq![stmt@], r) by {
                    match r {
                        Ok(p) => {
                            assert(crate::ast::deep_seq(stmts_pre) + (seq![stmt@] + p.0)
                                =~= (crate::ast::deep_seq(stmts_pre) + seq![stmt@]) + p.0);
                        },
                        Err(_) => {},
                    }
                }
            }
        }
        Ok(AstNode::Function { name, statements })
    }

    /// Parses one statement: `return` followed by an expression.
    fn statement(&mut self) -> (r: Result<AstNode, ParseError>)
        requires
            old(self).wf(),
        ensures
            final(self).wf(),
            final(self).scanner.code@ == old(self).scanner.code@,
            match r {
                Ok(node) => spec_statement(old(self).scanner.code@, old(self).remaining())
                    == Ok::<(AstS, Seq<Token>), ParseError>((node@, final(self).remaining())),
                Err(e) => spec_statement(old(self).scanner.code@, old(self).remaining())
                    == Err::<(AstS, Seq<Token>), ParseError>(e),
            },
    {
        if self.match_token(TokenType::Return) {
            match self.expression() {
                Ok(expression) => Ok(AstNode::ReturnStatement { expression: Box::new(expression) }),
                Err(err) => Err(err),
            }
        } else {
            Err(ParseError::InvalidStatement)
        }
    }

    /// Parses one expression: exactly a term.
    fn expression(&mut self) -> (r: Result<AstNode, ParseError>)
        requires
            old(self).wf(),
        ensures
            final(self).wf(),
            final(self).scanner.code@ == old(self).scanner.code@,
            match r {
                Ok(node) => spec_expression(old(self).scanner.code@, old(self).remaining())
                    == Ok::<(AstS, Seq<Token>), ParseError>((node@, final(self).remaining())),
                Err(e) => spec_expression(old(self).scanner.code@, old(self).remaining())
                    == Err::<(AstS, Seq<Token>), ParseError>(e),
            },
        decreases old(self).remaining().len(), 1int,
    {
        self.term()
    }

    /// Parses a term: a primary, optionally followed by `+` or `-` and
    /// a whole expression as the right operand (right-associative).
    fn term(&mut self) -> (r: Result<AstNode, ParseError>)
        requires
            old(self).wf(),
        ensures
            final(self).wf(),
            final(self).scanner.code@ == old(self).scanner.code@,
            match r {
                Ok(node) => spec_term(old(self).scanner.code@, old(self).remaining())
                    == Ok::<(AstS, Seq<Token>), ParseError>((node@, final(self).remaining())),
                Err(e) => spec_term(old(self).scanner.code@, old(self).remaining())
                    == Err::<(AstS, Seq<Token>), ParseError>(e),
            },
        decreases old(self).remaining().len(), 0int,
    {
        let ghost code = old(self).scanner.code@;
        let ghost toks = old(self).remaining();
        match self.primary() {
            Ok(lhs) => {
                proof {
                    lemma_primary_rest(code, toks);
                }
                if self.match_token(TokenType::Plus) {
                    match self.expression() {
                        Ok(rhs) => Ok(
                            AstNode::BinaryOp {
                                op: BinaryOp::Plus,
                                lhs: Box::new(lhs),
                                rhs: Box::new(rhs),
                            },
                        ),
                        Err(err) => Err(err),
                    }
                } else if self.match_token(TokenType::Minus) {
                    match self.expression() {
                        Ok(rhs) => Ok(
                            AstNode::BinaryOp {
                                op: BinaryOp::Minus,
                                lhs: Box::new(lhs),
                                rhs: Box::new(rhs),
                            },
                        ),
                        Err(err) => Err(err),
                    }
                } else {
                    Ok(lhs)
                }
            },
            Err(err) => Err(err),
        }
    }

    /// Parses a primary: an integer literal, or a zero-argument call.
    fn primary(&mut self) -> (r: Result<AstNode, ParseError>)
        requires
            old(self).wf(),
        ensures
            final(self).wf(),
            final(self).scanner.code@ == old(self).scanner.code@,
            match r {
                Ok(node) => spec_primary(old(self).scanner.code@, old(self).remaining())
                    == Ok::<(AstS, Seq<Token>), ParseError>((node@, final(self).remaining())),
                Err(e) => spec_primary(old(self).scanner.code@, old(self).remaining())
                    == Err::<(AstS, Seq<Token>), ParseError>(e),
            },
    {
        if self.match_token(TokenType::Integer) {
            let prev = self.previous.unwrap();
            let digits = self.scanner.token_bytes(prev);
            match parse_i32_digits(&digits) {
                Some(value) => Ok(AstNode::IntegerLiteral { value }),
                None => Err(ParseError::IntegerOutOfRange { literal: prev }),
            }
        } else if self.match_token(TokenType::Identifier) {
            let prev = self.previous.unwrap();
            let callee = self.scanner.get_token_text(prev);
            if !self.match_token(TokenType::ParenLeft) {
                return Err(ParseError::ExpectedParenLeft);
            }
            if !self.match_token(TokenType::ParenRight) {
                return Err(ParseError::ExpectedParenRight);
            }
            Ok(AstNode::Call { callee })
        } else {
            Err(ParseError::InvalidExpression)
        }
    }

    /// Compiles the whole source: parses every top-level declaration
    /// until the scanner is exhausted and returns the root `Program`
    /// node, or the first syntax error.
    pub fn compile(&mut self) -> (r: Result<AstNode, ParseError>)
        requires
            old(self).wf(),
            old(self).current is None,
        ensures
            final(self).wf(),
            match r {
                Ok(node) => spec_parse_program(
                    old(self).scanner.code@,
                    spec_tokens(
                        old(self).scanner.code@,
                        old(self).scanner.current as int,
                        old(self).scanner.line as int,
                    ),
                ) == Ok::<AstS, ParseError>(node@),
                Err(e) => spec_parse_program(
                    old(self).scanner.code@,
                    spec_tokens(
                        old(self).scanner.code@,
                        old(self).scanner.current as int,
                        old(self).scanner.line as int,
                    ),
                ) == Err::<AstS, ParseError>(e),
            },
    {
        let ghost code = old(self).scanner.code@;
        self.advance();
        let ghost toks0 = self.remaining();
        let mut declarations: Vec<AstNode> = Vec::new();
        proof {
            assert(declarations@ =~= Seq::<AstNode>::empty());
            match spec_declarations(code, toks0) {
                Ok(ds) => {
                    assert(Seq::<AstS>::empty() + ds =~= ds);
                },
                Err(_) => {},
            }
        }
        loop
            invariant
                self.wf(),
                code == old(self).scanner.code@,
                self.scanner.code@ == code,
                with_prefix_decls(
                    crate::ast::deep_seq(declarations@),
                    spec_declarations(code, self.remaining()),
                ) == spec_declarations(code, toks0),
                toks0 == spec_tokens(
                    code,
                    old(self).scanner.current as int,
                    old(self).scanner.line as int,
                ),
            ensures
                self.wf(),
                self.scanner.code@ == code,
                spec_declarations(code, toks0) == Ok::<Seq<AstS>, ParseError>(
                    crate::ast::deep_seq(declarations@),
                ),
                toks0 == spec_tokens(
                    code,
                    old(self).scanner.current as int,
                    old(self).scanner.line as int,
                ),
            decreases self.remaining().len(),
        {
            let ghost rem0 = self.remaining();
            let ghost decls_pre = declarations@;
            if self.current.is_none() {
                proof {
                    assert(rem0 =~= Seq::<Token>::empty());
                    assert(crate::ast::deep_seq(decls_pre) + Seq::<AstS>::empty()
                        =~= crate::ast::deep_seq(decls_pre));
                }
                break ;
            }
            let node = match self.declaration() {
                Ok(node) => node,
                Err(err) => {
                    return Err(err);
                },
            };
            proof {
                lemma_declaration_rest(code, rem0);
                crate::ast::lemma_deep_seq_push(decls_pre, node);
                assert forall|r: Result<Seq<AstS>, ParseError>|
                    with_prefix_decls(crate::ast::deep_seq(decls_pre), with_prefix_decls(
                        seq![node@],
                        r,
                    )) == with_prefix_decls(crate::ast::deep_seq(decls_pre) + seq![node@], r) by {
                    match r {
                        Ok(ds) => {
                            assert(crate::ast::deep_seq(decls_pre) + (seq![node@] + ds)
                                =~= (crate::ast::deep_seq(decls_pre) + seq![node@]) + ds);
                        },
                        Err(_) => {},
                    }
                }
            }
            declarations.push(node);
        }
        Ok(AstNode::Program { declarations })
    }
}

} // verus!
