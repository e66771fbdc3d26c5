//! The scanner: converts the raw source bytes into tokens on demand, by
//! byte-level inspection. Scanning never fails; unrecognized bytes come
//! back as `Error` tokens for the parser to react to.
//!
//! The spec model mirrors one scan request: `spec_scan_token` says which
//! token a scan starting at a given cursor returns and where the cursor
//! lands, and `spec_tokens` unfolds that into the whole token sequence.

use vstd::prelude::*;
use crate::token::{Token, TokenType};
use crate::text::{ascii_string, chars_of_bytes};

verus! {

/// Whitespace skipped silently (space, tab, carriage return).
pub open spec fn is_blank_byte(b: u8) -> bool {
    b == 32 || b == 9 || b == 13
}

/// The newline byte, which additionally advances the line counter.
pub open spec fn is_newline_byte(b: u8) -> bool {
    b == 10
}

/// A byte that may start an identifier: an ASCII letter or underscore.
pub open spec fn is_ident_start_byte(b: u8) -> bool {
    (65 <= b && b <= 90) || (97 <= b && b <= 122) || b == 95
}

/// A byte that may continue an identifier: a letter, digit or underscore.
pub open spec fn is_ident_byte(b: u8) -> bool {
    is_ident_start_byte(b) || is_digit_byte(b)
}

/// An ASCII decimal digit byte.
pub open spec fn is_digit_byte(b: u8) -> bool {
    48 <= b && b <= 57
}

/// Where the cursor and the line counter land after skipping whitespace
/// from `pos`: the pair (new position, new line).
pub open spec fn spec_skip_ws(code: Seq<u8>, pos: int, line: int) -> (int, int)
    decreases code.len() - pos,
{
    if pos < 0 || pos >= code.len() {
        (pos, line)
    } else if is_blank_byte(code[pos]) {
        spec_skip_ws(code, pos + 1, line)
    } else if is_newline_byte(code[pos]) {
        spec_skip_ws(code, pos + 1, line + 1)
    } else {
        (pos, line)
    }
}

/// The end of the maximal identifier run beginning at `pos`.
pub open spec fn spec_ident_end(code: Seq<u8>, pos: int) -> int
    decreases code.len() - pos,
{
    if pos < 0 || pos >= code.len() || !is_ident_byte(code[pos]) {
        pos
    } else {
        spec_ident_end(code, pos + 1)
    }
}

/// The end of the maximal digit run beginning at `pos`.
pub open spec fn spec_digits_end(code: Seq<u8>, pos: int) -> int
    decreases code.len() - pos,
{
    if pos < 0 || pos >= code.len() || !is_digit_byte(code[pos]) {
        pos
    } else {
        spec_digits_end(code, pos + 1)
    }
}

/// Whether the span `[start, end)` of `code` holds exactly the keyword
/// `return`.
pub open spec fn spec_is_return_text(code: Seq<u8>, start: int, end: int) -> bool {
    &&& end - start == 6
    &&& code[start] == 114
    &&& code[start + 1] == 101
    &&& code[start + 2] == 116
    &&& code[start + 3] == 117
    &&& code[start + 4] == 114
    &&& code[start + 5] == 110
}

/// The outcome of one scan request: the token returned (none at end of
/// input) and the scanner's cursor state afterwards.
pub ghost struct ScanStep {
    pub token: Option<Token>,
    pub line: int,
    pub start: int,
    pub current: int,
}

/// One scanned token spanning `[start, end)` on line `l`.
pub open spec fn step_tok(tt: TokenType, l: int, start: int, end: int) -> ScanStep {
    ScanStep {
        token: Some(
            Token {
                token_type: tt,
                line: l as usize,
                start: start as usize,
                length: (end - start) as usize,
            },
        ),
        line: l,
        start: start,
        current: end,
    }
}

/// What one scan request returns and where it leaves the cursor, for a
/// scanner over `code` with cursor `pos` on line `line`.
pub open spec fn spec_scan_token(code: Seq<u8>, pos: int, line: int) -> ScanStep {
    let skipped = spec_skip_ws(code, pos, line);
    let p = skipped.0;
    let l = skipped.1;
    if p >= code.len() {
        ScanStep { token: None, line: l, start: p, current: p }
    } else {
        let b = code[p];
        if is_ident_start_byte(b) {
            let end = spec_ident_end(code, p + 1);
            let tt = if spec_is_return_text(code, p, end) {
                TokenType::Return
            } else {
                TokenType::Identifier
            };
            step_tok(tt, l, p, end)
        } else if is_digit_byte(b) {
            step_tok(TokenType::Integer, l, p, spec_digits_end(code, p + 1))
        } else if b == 123 {
            step_tok(TokenType::BraceLeft, l, p, p + 1)
        } else if b == 125 {
            step_tok(TokenType::BraceRight, l, p, p + 1)
        } else if b == 59 {
            step_tok(TokenType::Semicolon, l, p, p + 1)
        } else if b == 40 {
            step_tok(TokenType::ParenLeft, l, p, p + 1)
        } else if b == 41 {
            step_tok(TokenType::ParenRight, l, p, p + 1)
        } else if b == 43 {
            step_tok(TokenType::Plus, l, p, p + 1)
        } else if b == 45 {
            if p + 1 < code.len() && code[p + 1] == 62 {
                step_tok(TokenType::Arrow, l, p, p + 2)
            } else {
                step_tok(TokenType::Minus, l, p, p + 1)
            }
        } else {
            step_tok(TokenType::Error, l, p, p + 1)
        }
    }
}

/// What scanning guarantees of every token it hands out over `code`.
pub open spec fn token_wf(code: Seq<u8>, t: Token) -> bool {
    &&& t.start + t.length <= code.len()
    &&& t.length >= 1
    &&& (t.token_type == TokenType::Identifier || t.token_type == TokenType::Return
        ==> is_ident_start_byte(code[t.start as int]) && forall|i: int|
        t.start <= i < t.start + t.length ==> is_ident_byte(#[trigger] code[i]))
    &&& (t.token_type == TokenType::Integer ==> forall|i: int|
        t.start <= i < t.start + t.length ==> is_digit_byte(#[trigger] code[i]))
}

/// Whitespace skipping moves the cursor forward, never past the end,
/// stops on a non-whitespace byte, and never lowers the line counter.
pub proof fn lemma_skip_ws_props(code: Seq<u8>, pos: int, line: int)
    requires
        0 <= pos <= code.len(),
        0 <= line <= pos,
    ensures
        pos <= spec_skip_ws(code, pos, line).0 <= code.len(),
        line <= spec_skip_ws(code, pos, line).1 <= spec_skip_ws(code, pos, line).0,
        spec_skip_ws(code, pos, line).0 < code.len() ==> !is_blank_byte(
            code[spec_skip_ws(code, pos, line).0],
        ) && !is_newline_byte(code[spec_skip_ws(code, pos, line).0]),
    decreases code.len() - pos,
{
    if pos < code.len() && (is_blank_byte(code[pos]) || is_newline_byte(code[pos])) {
        if is_blank_byte(code[pos]) {
            lemma_skip_ws_props(code, pos + 1, line);
        } else {
            lemma_skip_ws_props(code, pos + 1, line + 1);
        }
    }
}

/// An identifier run ends within the buffer, covers only identifier
/// bytes, and is maximal.
pub proof fn lemma_ident_end_props(code: Seq<u8>, pos: int)
    requires
        0 <= pos <= code.len(),
    ensures
        pos <= spec_ident_end(code, pos) <= code.len(),
        forall|i: int| pos <= i < spec_ident_end(code, pos) ==> is_ident_byte(#[trigger] code[i]),
        spec_ident_end(code, pos) < code.len() ==> !is_ident_byte(
            code[spec_ident_end(code, pos)],
        ),
    decreases code.len() - pos,
{
    if pos < code.len() && is_ident_byte(code[pos]) {
        lemma_ident_end_props(code, pos + 1);
    }
}

/// A digit run ends within the buffer, covers only digit bytes, and is
/// maximal.
pub proof fn lemma_digits_end_props(code: Seq<u8>, pos: int)
    requires
        0 <= pos <= code.len(),
    ensures
        pos <= spec_digits_end(code, pos) <= code.len(),
        forall|i: int| pos <= i < spec_digits_end(code, pos) ==> is_digit_byte(#[trigger] code[i]),
        spec_digits_end(code, pos) < code.len() ==> !is_digit_byte(
            code[spec_digits_end(code, pos)],
        ),
    decreases code.len() - pos,
{
    if pos < code.len() && is_digit_byte(code[pos]) {
        lemma_digits_end_props(code, pos + 1);
    }
}

/// One scan request moves the cursor forward and never past the end;
/// it returns no token only at the end of input; and every token it
/// returns is well formed, ends exactly at the new cursor, and made the
/// cursor strictly advance.
pub proof fn lemma_scan_token_props(code: Seq<u8>, pos: int, line: int)
    requires
        0 <= pos <= code.len(),
        0 <= line <= pos,
        code.len() <= usize::MAX,
    ensures
        ({
            let step = spec_scan_token(code, pos, line);
            &&& pos <= step.current <= code.len()
            &&& line <= step.line <= step.start
            &&& pos <= step.start <= step.current
            &&& (step.token is None ==> step.current == code.len() && step.start == step.current)
            &&& (step.token is Some ==> {
                let t = step.token->0;
                &&& step.current > pos
                &&& t.start == step.start
                &&& t.start + t.length == step.current
                &&& t.line == step.line
                &&& token_wf(code, t)
            })
        }),
{
    lemma_skip_ws_props(code, pos, line);
    let skipped = spec_skip_ws(code, pos, line);
    let p = skipped.0;
    if p < code.len() {
        let b = code[p];
        if is_ident_start_byte(b) {
            lemma_ident_end_props(code, p + 1);
        } else if is_digit_byte(b) {
            lemma_digits_end_props(code, p + 1);
        }
    }
}

/// The whole token sequence a scanner over `code` yields from cursor
/// `pos` on line `line`.
pub open spec fn spec_tokens(code: Seq<u8>, pos: int, line: int) -> Seq<Token>
    decreases code.len() - pos,
{
    if pos < 0 || pos > code.len() || line < 0 || line > pos || code.len() > usize::MAX {
        Seq::empty()
    } else {
        let step = spec_scan_token(code, pos, line);
        if step.token is Some {
            proof {
                lemma_scan_token_props(code, pos, line);
            }
            seq![step.token->0] + spec_tokens(code, step.current, step.line)
        } else {
            Seq::empty()
        }
    }
}

/// The scanner: a cursor over an owned immutable source buffer. `start`
/// marks where the token being scanned began; `current` is the read
/// position; `line` counts newlines seen so far.
pub struct Scanner {
    pub code: Vec<u8>,
    pub line: usize,
    pub start: usize,
    pub current: usize,
}

impl Scanner {
    /// The cursor stays within the buffer and the line counter never
    /// outruns the cursor.
    pub open spec fn wf(self) -> bool {
        &&& self.current <= self.code@.len()
        &&& self.start <= self.current
        &&& self.line <= self.start
        &&& self.code@.len() <= usize::MAX
    }

    /// A fresh scanner over `code`, with the cursor at the beginning.
    pub fn new(code: Vec<u8>) -> (s: Scanner)
        ensures
            s.code@ == code@,
            s.line == 0,
            s.start == 0,
            s.current == 0,
            s.wf(),
    {
        proof {
            assert(code@.len() == code.len());
        }
        Scanner { code, line: 0, start: 0, current: 0 }
    }

    /// The byte under the cursor, if any, without consuming it.
    fn peek(&self) -> (r: Option<u8>)
        ensures
            r == if self.current < self.code@.len() {
                Some(self.code@[self.current as int])
            } else {
                None::<u8>
            },
    {
        if self.current >= self.code.len() {
            None
        } else {
            Some(self.code[self.current])
        }
    }

    /// Consumes and returns the byte under the cursor, if any.
    fn advance(&mut self) -> (r: Option<u8>)
        requires
            old(self).wf(),
        ensures
            final(self).code@ == old(self).code@,
            final(self).line == old(self).line,
            final(self).start == old(self).start,
            final(self).wf(),
            old(self).current < old(self).code@.len() ==> r == Some(
                old(self).code@[old(self).current as int],
            ) && final(self).current == old(self).current + 1,
            old(self).current >= old(self).code@.len() ==> r is None && final(self).current == old(
                self,
            ).current,
    {
        if self.current >= self.code.len() {
            None
        } else {
            self.current = self.current + 1;
            Some(self.code[self.current - 1])
        }
    }

    /// Skips blanks and newlines, counting lines, until a byte that can
    /// begin a token (or the end of input) is under the cursor.
    fn skip_whitespace(&mut self)
        requires
            old(self).wf(),
        ensures
            final(self).code@ == old(self).code@,
            final(self).start == old(self).start,
            final(self).current as int == spec_skip_ws(
                old(self).code@,
                old(self).current as int,
                old(self).line as int,
            ).0,
            final(self).line as int == spec_skip_ws(
                old(self).code@,
                old(self).current as int,
                old(self).line as int,
            ).1,
            final(self).current <= final(self).code@.len(),
            final(self).line <= final(self).current,
            old(self).current <= final(self).current,
    {
        loop
            invariant
                self.code@ == old(self).code@,
                self.start == old(self).start,
                self.current <= self.code@.len(),
                self.line <= self.current,
                old(self).current <= self.current,
                spec_skip_ws(old(self).code@, old(self).current as int, old(self).line as int)
                    == spec_skip_ws(self.code@, self.current as int, self.line as int),
            ensures
                self.code@ == old(self).code@,
                self.start == old(self).start,
                self.current <= self.code@.len(),
                self.line <= self.current,
                old(self).current <= self.current,
                spec_skip_ws(old(self).code@, old(self).current as int, old(self).line as int)
                    == (self.current as int, self.line as int),
            decreases self.code@.len() - self.current,
        {
            if self.current >= self.code.len() {
                break ;
            }
            let b = self.code[self.current];
            if b == 32 || b == 9 || b == 13 {
                self.current = self.current + 1;
            } else if b == 10 {
                self.line = self.line + 1;
                self.current = self.current + 1;
            } else {
                break ;
            }
        }
    }

    /// Scans the rest of a maximal identifier run and classifies the
    /// exact text `return` as the keyword, everything else as an
    /// identifier.
    fn identifier(&mut self) -> (t: Token)
        requires
            old(self).wf(),
        ensures
            final(self).code@ == old(self).code@,
            final(self).line == old(self).line,
            final(self).start == old(self).start,
            final(self).wf(),
            final(self).current as int == spec_ident_end(old(self).code@, old(self).current as int),
            t == step_tok(
                if spec_is_return_text(
                    old(self).code@,
                    old(self).start as int,
                    final(self).current as int,
                ) {
                    TokenType::Return
                } else {
                    TokenType::Identifier
                },
                old(self).line as int,
                old(self).start as int,
                final(self).current as int,
            ).token->0,
    {
        loop
            invariant
                self.code@ == old(self).code@,
                self.line == old(self).line,
                self.start == old(self).start,
                self.wf(),
                old(self).current <= self.current,
                spec_ident_end(self.code@, old(self).current as int) == spec_ident_end(
                    self.code@,
                    self.current as int,
                ),
            ensures
                self.code@ == old(self).code@,
                self.line == old(self).line,
                self.start == old(self).start,
                self.wf(),
                old(self).current <= self.current,
                spec_ident_end(self.code@, old(self).current as int) == self.current as int,
            decreases self.code@.len() - self.current,
        {
            if self.current >= self.code.len() {
                break ;
            }
            let b = self.code[self.current];
            if (b >= 65 && b <= 90) || (b >= 97 && b <= 122) || b == 95 || (b >= 48 && b <= 57) {
                self.current = self.current + 1;
            } else {
                break ;
            }
        }
        let is_return = self.current - self.start == 6 && self.code[self.start] == 114
            && self.code[self.start + 1] == 101 && self.code[self.start + 2] == 116
            && self.code[self.start + 3] == 117 && self.code[self.start + 4] == 114
            && self.code[self.start + 5] == 110;
        if is_return {
            self.make_token(TokenType::Return)
        } else {
            self.make_token(TokenType::Identifier)
        }
    }

    /// Scans the rest of a maximal digit run as an integer token.
    fn integer(&mut self) -> (t: Token)
        requires
            old(self).wf(),
        ensures
            final(self).code@ == old(self).code@,
            final(self).line == old(self).line,
            final(self).start == old(self).start,
            final(self).wf(),
            final(self).current as int == spec_digits_end(
                old(self).code@,
                old(self).current as int,
            ),
            t == step_tok(
                TokenType::Integer,
                old(self).line as int,
                old(self).start as int,
                final(self).current as int,
            ).token->0,
    {
        loop
            invariant
                self.code@ == old(self).code@,
                self.line == old(self).line,
                self.start == old(self).start,
                self.wf(),
                old(self).current <= self.current,
                spec_digits_end(self.code@, old(self).current as int) == spec_digits_end(
                    self.code@,
                    self.current as int,
                ),
            ensures
                self.code@ == old(self).code@,
                self.line == old(self).line,
                self.start == old(self).start,
                self.wf(),
                old(self).current <= self.current,
                spec_digits_end(self.code@, old(self).current as int) == self.current as int,
            decreases self.code@.len() - self.current,
        {
            if self.current >= self.code.len() {
                break ;
            }
            let b = self.code[self.current];
            if b >= 48 && b <= 57 {
                self.current = self.current + 1;
            } else {
                break ;
            }
        }
        self.make_token(TokenType::Integer)
    }

    /// A token of kind `token_type` spanning `[start, current)` on the
    /// current line.
    fn make_token(&self, token_type: TokenType) -> (t: Token)
        requires
            self.wf(),
        ensures
            t == step_tok(
                token_type,
                self.line as int,
                self.start as int,
                self.current as int,
            ).token->0,
    {
        Token { token_type, line: self.line, start: self.start, length: self.current - self.start }
    }

    /// One scan request: skips whitespace, classifies the next bytes as
    /// one token, or returns nothing at the end of input. Scanning
    /// cannot fail: unrecognized bytes come back as `Error` tokens.
    pub fn scan_token(&mut self) -> (r: Option<Token>)
        requires
            old(self).wf(),
        ensures
            ({
                let step = spec_scan_token(
                    old(self).code@,
                    old(self).current as int,
                    old(self).line as int,
                );
                &&& final(self).code@ == old(self).code@
                &&& final(self).wf()
                &&& final(self).current as int == step.current
                &&& final(self).line as int == step.line
                &&& final(self).start as int == step.start
                &&& r == step.token
            }),
    {
        proof {
            lemma_skip_ws_props(self.code@, self.current as int, self.line as int);
        }
        self.skip_whitespace();
        self.start = self.current;
        match self.advance() {
            Some(c) => {
                if (c >= 65 && c <= 90) || (c >= 97 && c <= 122) || c == 95 {
                    return Some(self.identifier());
                }
                if c >= 48 && c <= 57 {
                    return Some(self.integer());
                }
                if c == 123 {
                    Some(self.make_token(TokenType::BraceLeft))
                } else if c == 125 {
                    Some(self.make_token(TokenType::BraceRight))
                } else if c == 59 {
                    Some(self.make_token(TokenType::Semicolon))
                } else if c == 40 {
                    Some(self.make_token(TokenType::ParenLeft))
                } else if c == 41 {
                    Some(self.make_token(TokenType::ParenRight))
                } else if c == 43 {
                    Some(self.make_token(TokenType::Plus))
                } else if c == 45 {
                    let arrow = match self.peek() {
                        Some(n) => n == 62,
                        None => false,
                    };
                    if arrow {
                        self.advance();
                        Some(self.make_token(TokenType::Arrow))
                    } else {
                        Some(self.make_token(TokenType::Minus))
                    }
                } else {
                    Some(self.make_token(TokenType::Error))
                }
            },
            None => None,
        }
    }

    /// The text a token refers to, recovered by slicing the source
    /// buffer; the span must lie in the buffer and hold ASCII bytes.
    pub fn get_token_text(&self, token: Token) -> (r: String)
        requires
            token.start + token.length <= self.code@.len(),
            forall|i: int|
                token.start <= i < token.start + token.length ==> #[trigger] self.code@[i] < 128,
        ensures
            r@ == chars_of_bytes(
                self.code@.subrange(token.start as int, token.start + token.length),
            ),
    {
        let bytes = self.token_bytes(token);
        ascii_string(&bytes)
    }

    /// A copy of the bytes a token's span refers to.
    pub fn token_bytes(&self, token: Token) -> (r: Vec<u8>)
        requires
            token.start + token.length <= self.code@.len(),
        ensures
            r@ == self.code@.subrange(token.start as int, token.start + token.length),
    {
        let mut v: Vec<u8> = Vec::new();
        let n: usize = self.code.len();
        let end: usize = token.start + token.length;
        let mut i: usize = token.start;
        while i < end
            invariant
                token.start <= i <= end,
                end == token.start + token.length,
                end <= n == self.code@.len(),
                v@ == self.code@.subrange(token.start as int, i as int),
            decreases end - i,
        {
            v.push(self.code[i]);
            proof {
                assert(v@ =~= self.code@.subrange(token.start as int, i + 1));
            }
            i = i + 1;
        }
        v
    }
}

} // verus!
