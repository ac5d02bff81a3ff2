//! Lexer for the source IR text.
//!
//! The lexer walks the character sequence of the input; token spans count
//! characters. Whitespace and line comments (`;` to end of line) are
//! skipped. Unrecognized input yields a lexing error carrying the offset.

use vstd::prelude::*;

verus! {

broadcast use vstd::seq::group_seq_axioms;

/// One token of the source IR text.
#[derive(Debug, PartialEq)]
pub enum Token {
    // Keywords
    Define,
    Declare,
    Ret,
    Br,
    Switch,
    Call,
    Add,
    Sub,
    Mul,
    UDiv,
    SDiv,
    URem,
    SRem,
    And,
    Or,
    Xor,
    Shl,
    LShr,
    AShr,
    ICmp,
    Load,
    Store,
    Alloca,
    GetElementPtr,
    Phi,
    Label,
    To,
    // Comparison predicates
    Eq,
    Ne,
    Slt,
    Sle,
    Sgt,
    Sge,
    Ult,
    Ule,
    Ugt,
    Uge,
    // Types
    Void,
    IntType(u32),
    Ptr,
    // Literals
    Integer(i64),
    True,
    False,
    // Identifiers
    GlobalIdent(String),
    LocalIdent(String),
    NumericIdent(String),
    Ident(String),
    // Punctuation
    LParen,
    RParen,
    LBrace,
    RBrace,
    LBracket,
    RBracket,
    LAngle,
    RAngle,
    Comma,
    Equals,
    Star,
    Colon,
    Ellipsis,
    // String literals
    String(String),
}

/// Mathematical form of a token: identifier payloads are determined by the
/// token's span into the input, so they carry no text of their own.
#[derive(PartialEq, Eq, Structural)]
pub enum TokenSpec {
    Define,
    Declare,
    Ret,
    Br,
    Switch,
    Call,
    Add,
    Sub,
    Mul,
    UDiv,
    SDiv,
    URem,
    SRem,
    And,
    Or,
    Xor,
    Shl,
    LShr,
    AShr,
    ICmp,
    Load,
    Store,
    Alloca,
    GetElementPtr,
    Phi,
    Label,
    To,
    Eq,
    Ne,
    Slt,
    Sle,
    Sgt,
    Sge,
    Ult,
    Ule,
    Ugt,
    Uge,
    Void,
    IntType(u32),
    Ptr,
    Integer(i64),
    True,
    False,
    GlobalIdent,
    LocalIdent,
    NumericIdent,
    Ident,
    LParen,
    RParen,
    LBrace,
    RBrace,
    LBracket,
    RBracket,
    LAngle,
    RAngle,
    Comma,
    Equals,
    Star,
    Colon,
    Ellipsis,
    StringLit,
}

/// Failure to recognize the input, carrying the character offset.
#[derive(Debug, Clone, PartialEq, Eq)]
pub struct LexError {
    pub offset: usize,
}

/// A token as the lexer hands it out: start offset, token, end offset.
pub type Spanned = (usize, Token, usize);

/// What one lexing step yields: the end of the input, an error at an
/// offset, or a token with its span.
pub enum LexStep {
    Done,
    Error(int),
    Token { start: int, tok: TokenSpec, end: int },
}

/// Whitespace skipped between tokens.
pub open spec fn is_ws(c: char) -> bool {
    c == ' ' || c == '\t' || c == '\n' || c == '\u{c}' || c == '\r'
}

pub open spec fn is_digit(c: char) -> bool {
    '0' <= c && c <= '9'
}

pub open spec fn is_ident_start(c: char) -> bool {
    ('a' <= c && c <= 'z') || ('A' <= c && c <= 'Z') || c == '_'
}

pub open spec fn is_ident_char(c: char) -> bool {
    is_ident_start(c) || is_digit(c) || c == '.'
}

/// Position right after a run of identifier characters starting at `pos`.
pub open spec fn spec_ident_end(s: Seq<char>, pos: int) -> int
    decreases s.len() - pos when 0 <= pos <= s.len()
{
    if pos >= s.len() {
        pos
    } else if is_ident_char(s[pos]) {
        spec_ident_end(s, pos + 1)
    } else {
        pos
    }
}

/// Position right after a run of digits starting at `pos`.
pub open spec fn spec_digits_end(s: Seq<char>, pos: int) -> int
    decreases s.len() - pos when 0 <= pos <= s.len()
{
    if pos >= s.len() {
        pos
    } else if is_digit(s[pos]) {
        spec_digits_end(s, pos + 1)
    } else {
        pos
    }
}

/// Position right after a line comment starting at `pos`: everything up to
/// and including the next newline, or the end of the input.
pub open spec fn spec_comment_end(s: Seq<char>, pos: int) -> int
    decreases s.len() - pos when 0 <= pos <= s.len()
{
    if pos >= s.len() {
        pos
    } else if s[pos] == '\n' {
        pos + 1
    } else {
        spec_comment_end(s, pos + 1)
    }
}

/// Numeric value of the digit run `s[from..to)`.
pub open spec fn spec_digits_val(s: Seq<char>, from: int, to: int) -> int
    decreases to - from when from <= to
{
    if from >= to {
        0
    } else {
        spec_digits_val(s, from, to - 1) * 10 + (s[to - 1] as int - '0' as int)
    }
}

/// Position right after a string literal's closing quote, starting at the
/// opening quote, or the end of input if the literal never closes.
pub open spec fn spec_string_end(s: Seq<char>, pos: int) -> int
    decreases s.len() - pos when 0 <= pos <= s.len()
{
    if pos >= s.len() {
        pos
    } else if s[pos] == '"' {
        pos + 1
    } else if s[pos] == '\u{5c}' {
        if pos + 2 <= s.len() {
            spec_string_end(s, pos + 2)
        } else {
            s.len() as int
        }
    } else {
        spec_string_end(s, pos + 1)
    }
}

/// The keyword or identifier that the word `s[from..to)` denotes.
pub open spec fn spec_classify_word(s: Seq<char>, from: int, to: int) -> Option<TokenSpec> {
    let w = s.subrange(from, to);
    if w == "define"@ {
        Some(TokenSpec::Define)
    } else if w == "declare"@ {
        Some(TokenSpec::Declare)
    } else if w == "ret"@ {
        Some(TokenSpec::Ret)
    } else if w == "br"@ {
        Some(TokenSpec::Br)
    } else if w == "switch"@ {
        Some(TokenSpec::Switch)
    } else if w == "call"@ {
        Some(TokenSpec::Call)
    } else if w == "add"@ {
        Some(TokenSpec::Add)
    } else if w == "sub"@ {
        Some(TokenSpec::Sub)
    } else if w == "mul"@ {
        Some(TokenSpec::Mul)
    } else if w == "udiv"@ {
        Some(TokenSpec::UDiv)
    } else if w == "sdiv"@ {
        Some(TokenSpec::SDiv)
    } else if w == "urem"@ {
        Some(TokenSpec::URem)
    } else if w == "srem"@ {
        Some(TokenSpec::SRem)
    } else if w == "and"@ {
        Some(TokenSpec::And)
    } else if w == "or"@ {
        Some(TokenSpec::Or)
    } else if w == "xor"@ {
        Some(TokenSpec::Xor)
    } else if w == "shl"@ {
        Some(TokenSpec::Shl)
    } else if w == "lshr"@ {
        Some(TokenSpec::LShr)
    } else if w == "ashr"@ {
        Some(TokenSpec::AShr)
    } else if w == "icmp"@ {
        Some(TokenSpec::ICmp)
    } else if w == "load"@ {
        Some(TokenSpec::Load)
    } else if w == "store"@ {
        Some(TokenSpec::Store)
    } else if w == "alloca"@ {
        Some(TokenSpec::Alloca)
    } else if w == "getelementptr"@ {
        Some(TokenSpec::GetElementPtr)
    } else if w == "phi"@ {
        Some(TokenSpec::Phi)
    } else if w == "label"@ {
        Some(TokenSpec::Label)
    } else if w == "to"@ {
        Some(TokenSpec::To)
    } else if w == "eq"@ {
        Some(TokenSpec::Eq)
    } else if w == "ne"@ {
        Some(TokenSpec::Ne)
    } else if w == "slt"@ {
        Some(TokenSpec::Slt)
    } else if w == "sle"@ {
        Some(TokenSpec::Sle)
    } else if w == "sgt"@ {
        Some(TokenSpec::Sgt)
    } else if w == "sge"@ {
        Some(TokenSpec::Sge)
    } else if w == "ult"@ {
        Some(TokenSpec::Ult)
    } else if w == "ule"@ {
        Some(TokenSpec::Ule)
    } else if w == "ugt"@ {
        Some(TokenSpec::Ugt)
    } else if w == "uge"@ {
        Some(TokenSpec::Uge)
    } else if w == "void"@ {
        Some(TokenSpec::Void)
    } else if w == "ptr"@ {
        Some(TokenSpec::Ptr)
    } else if w == "true"@ {
        Some(TokenSpec::True)
    } else if w == "false"@ {
        Some(TokenSpec::False)
    } else if w.len() >= 2 && w[0] == 'i' && spec_all_digits(s, from + 1, to) {
        if spec_digits_val(s, from + 1, to) <= u32::MAX {
            Some(TokenSpec::IntType(spec_digits_val(s, from + 1, to) as u32))
        } else {
            None
        }
    } else {
        Some(TokenSpec::Ident)
    }
}

/// All characters of `s[from..to)` are digits.
pub open spec fn spec_all_digits(s: Seq<char>, from: int, to: int) -> bool {
    forall|k: int| from <= k < to ==> is_digit(#[trigger] s[k])
}

/// One lexing step at `pos`: the token found there, an error, or the end of
/// the input after trailing whitespace and comments.
pub open spec fn spec_next(s: Seq<char>, pos: int) -> LexStep
    decreases s.len() - pos when 0 <= pos <= s.len() via spec_next_dec
{
    if pos >= s.len() {
        LexStep::Done
    } else if is_ws(s[pos]) {
        spec_next(s, pos + 1)
    } else if s[pos] == ';' {
        spec_next(s, spec_comment_end(s, pos))
    } else {
        let c = s[pos];
        if is_ident_start(c) {
            let end = spec_ident_end(s, pos);
            match spec_classify_word(s, pos, end) {
                Some(t) => LexStep::Token { start: pos, tok: t, end },
                None => LexStep::Error(pos),
            }
        } else if is_digit(c) || c == '-' {
            let dstart = if c == '-' {
                pos + 1
            } else {
                pos
            };
            if dstart >= s.len() || !is_digit(s[dstart]) {
                LexStep::Error(pos)
            } else {
                let end = spec_digits_end(s, dstart);
                let mag = spec_digits_val(s, dstart, end);
                if c == '-' {
                    if mag <= 0x8000_0000_0000_0000 {
                        LexStep::Token {
                            start: pos,
                            tok: TokenSpec::Integer((-mag) as i64),
                            end,
                        }
                    } else {
                        LexStep::Error(pos)
                    }
                } else {
                    if mag <= i64::MAX {
                        LexStep::Token { start: pos, tok: TokenSpec::Integer(mag as i64), end }
                    } else {
                        LexStep::Error(pos)
                    }
                }
            }
        } else if c == '@' {
            if pos + 1 < s.len() && is_ident_start(s[pos + 1]) {
                let end = spec_global_end(s, pos + 1);
                LexStep::Token { start: pos, tok: TokenSpec::GlobalIdent, end }
            } else {
                LexStep::Error(pos)
            }
        } else if c == '%' {
            if pos + 1 < s.len() && is_ident_start(s[pos + 1]) {
                let end = spec_ident_end(s, pos + 1);
                LexStep::Token { start: pos, tok: TokenSpec::LocalIdent, end }
            } else if pos + 1 < s.len() && is_digit(s[pos + 1]) {
                let end = spec_digits_end(s, pos + 1);
                LexStep::Token { start: pos, tok: TokenSpec::NumericIdent, end }
            } else {
                LexStep::Error(pos)
            }
        } else if c == '"' {
            let end = spec_string_end(s, pos + 1);
            if end <= s.len() && end > pos + 1 && s[end - 1] == '"' {
                LexStep::Token { start: pos, tok: TokenSpec::StringLit, end }
            } else {
                LexStep::Error(pos)
            }
        } else if c == '(' {
            LexStep::Token { start: pos, tok: TokenSpec::LParen, end: pos + 1 }
        } else if c == ')' {
            LexStep::Token { start: pos, tok: TokenSpec::RParen, end: pos + 1 }
        } else if c == '{' {
            LexStep::Token { start: pos, tok: TokenSpec::LBrace, end: pos + 1 }
        } else if c == '}' {
            LexStep::Token { start: pos, tok: TokenSpec::RBrace, end: pos + 1 }
        } else if c == '[' {
            LexStep::Token { start: pos, tok: TokenSpec::LBracket, end: pos + 1 }
        } else if c == ']' {
            LexStep::Token { start: pos, tok: TokenSpec::RBracket, end: pos + 1 }
        } else if c == '<' {
            LexStep::Token { start: pos, tok: TokenSpec::LAngle, end: pos + 1 }
        } else if c == '>' {
            LexStep::Token { start: pos, tok: TokenSpec::RAngle, end: pos + 1 }
        } else if c == ',' {
            LexStep::Token { start: pos, tok: TokenSpec::Comma, end: pos + 1 }
        } else if c == '=' {
            LexStep::Token { start: pos, tok: TokenSpec::Equals, end: pos + 1 }
        } else if c == '*' {
            LexStep::Token { start: pos, tok: TokenSpec::Star, end: pos + 1 }
        } else if c == ':' {
            LexStep::Token { start: pos, tok: TokenSpec::Colon, end: pos + 1 }
        } else if c == '.' {
            if pos + 3 <= s.len() && s[pos + 1] == '.' && s[pos + 2] == '.' {
                LexStep::Token { start: pos, tok: TokenSpec::Ellipsis, end: pos + 3 }
            } else {
                LexStep::Error(pos)
            }
        } else {
            LexStep::Error(pos)
        }
    }
}

#[via_fn]
proof fn spec_next_dec(s: Seq<char>, pos: int) {
    if 0 <= pos && pos < s.len() && !is_ws(s[pos]) && s[pos] == ';' {
        lemma_comment_end_bounds(s, pos);
    }
}

/// Position right after a run of global-identifier characters (letters,
/// digits and underscores) starting at `pos`.
pub open spec fn spec_global_end(s: Seq<char>, pos: int) -> int
    decreases s.len() - pos when 0 <= pos <= s.len()
{
    if pos >= s.len() {
        pos
    } else if is_ident_start(s[pos]) || is_digit(s[pos]) {
        spec_global_end(s, pos + 1)
    } else {
        pos
    }
}

/// A lexing step never moves backwards, and a produced token has a
/// non-empty span that stays within the input.
pub proof fn lemma_next_bounds(s: Seq<char>, pos: int)
    requires
        0 <= pos <= s.len(),
    ensures
        spec_next(s, pos) matches LexStep::Token { start, tok, end } ==> pos <= start < end
            <= s.len(),
        spec_next(s, pos) matches LexStep::Error(off) ==> pos <= off < s.len(),
    decreases s.len() - pos,
{
    if pos >= s.len() {
    } else if is_ws(s[pos]) {
        lemma_next_bounds(s, pos + 1);
    } else if s[pos] == ';' {
        lemma_comment_end_bounds(s, pos);
        lemma_next_bounds(s, spec_comment_end(s, pos));
    } else {
        lemma_scan_end_bounds(s, pos);
    }
}

/// Bounds of the scanning helpers.
proof fn lemma_comment_end_bounds(s: Seq<char>, pos: int)
    requires
        0 <= pos < s.len(),
    ensures
        pos < spec_comment_end(s, pos) <= s.len(),
    decreases s.len() - pos,
{
    if s[pos] == '\n' {
    } else if pos + 1 < s.len() {
        lemma_comment_end_bounds(s, pos + 1);
    } else {
        assert(spec_comment_end(s, pos + 1) == pos + 1);
    }
}

proof fn lemma_ident_end_bounds(s: Seq<char>, pos: int)
    requires
        0 <= pos <= s.len(),
    ensures
        pos <= spec_ident_end(s, pos) <= s.len(),
        pos <= spec_digits_end(s, pos) <= s.len(),
        pos <= spec_global_end(s, pos) <= s.len(),
        pos <= spec_string_end(s, pos) <= s.len(),
    decreases s.len() - pos,
{
    if pos < s.len() {
        lemma_ident_end_bounds(s, pos + 1);
        if pos + 2 <= s.len() {
            lemma_ident_end_bounds(s, pos + 2);
        }
    }
}

proof fn lemma_scan_end_bounds(s: Seq<char>, pos: int)
    requires
        0 <= pos < s.len(),
        !is_ws(s[pos]),
        s[pos] != ';',
    ensures
        spec_next(s, pos) matches LexStep::Token { start, tok, end } ==> pos <= start < end
            <= s.len(),
        spec_next(s, pos) matches LexStep::Error(off) ==> pos <= off < s.len(),
{
    lemma_ident_end_bounds(s, pos);
    if pos + 1 <= s.len() {
        lemma_ident_end_bounds(s, pos + 1);
    }
    if is_ident_start(s[pos]) {
        lemma_ident_end_run(s, pos);
    }
    if is_digit(s[pos]) {
        lemma_digits_end_run(s, pos);
    }
}

/// A run starting on an identifier character is non-empty.
proof fn lemma_ident_end_run(s: Seq<char>, pos: int)
    requires
        0 <= pos < s.len(),
        is_ident_char(s[pos]),
    ensures
        spec_ident_end(s, pos) > pos,
{
    lemma_ident_end_bounds(s, pos + 1);
}

proof fn lemma_digits_end_run(s: Seq<char>, pos: int)
    requires
        0 <= pos < s.len(),
        is_digit(s[pos]),
    ensures
        spec_digits_end(s, pos) > pos,
{
    lemma_ident_end_bounds(s, pos + 1);
}


/// The executable token corresponds to the mathematical token at the given
/// span: identifier payloads hold exactly the spanned text.
pub open spec fn token_matches(s: Seq<char>, t: Token, ts: TokenSpec, start: int, end: int) -> bool {
    match ts {
        TokenSpec::GlobalIdent => t matches Token::GlobalIdent(x) && x@ == s.subrange(start, end),
        TokenSpec::LocalIdent => t matches Token::LocalIdent(x) && x@ == s.subrange(start, end),
        TokenSpec::NumericIdent => t matches Token::NumericIdent(x) && x@ == s.subrange(
            start,
            end,
        ),
        TokenSpec::Ident => t matches Token::Ident(x) && x@ == s.subrange(start, end),
        TokenSpec::StringLit => t matches Token::String(x) && x@ == s.subrange(start, end),
        TokenSpec::IntType(w) => t == Token::IntType(w),
        TokenSpec::Integer(v) => t == Token::Integer(v),
        TokenSpec::Define => t == Token::Define,
        TokenSpec::Declare => t == Token::Declare,
        TokenSpec::Ret => t == Token::Ret,
        TokenSpec::Br => t == Token::Br,
        TokenSpec::Switch => t == Token::Switch,
        TokenSpec::Call => t == Token::Call,
        TokenSpec::Add => t == Token::Add,
        TokenSpec::Sub => t == Token::Sub,
        TokenSpec::Mul => t == Token::Mul,
        TokenSpec::UDiv => t == Token::UDiv,
        TokenSpec::SDiv => t == Token::SDiv,
        TokenSpec::URem => t == Token::URem,
        TokenSpec::SRem => t == Token::SRem,
        TokenSpec::And => t == Token::And,
        TokenSpec::Or => t == Token::Or,
        TokenSpec::Xor => t == Token::Xor,
        TokenSpec::Shl => t == Token::Shl,
        TokenSpec::LShr => t == Token::LShr,
        TokenSpec::AShr => t == Token::AShr,
        TokenSpec::ICmp => t == Token::ICmp,
        TokenSpec::Load => t == Token::Load,
        TokenSpec::Store => t == Token::Store,
        TokenSpec::Alloca => t == Token::Alloca,
        TokenSpec::GetElementPtr => t == Token::GetElementPtr,
        TokenSpec::Phi => t == Token::Phi,
        TokenSpec::Label => t == Token::Label,
        TokenSpec::To => t == Token::To,
        TokenSpec::Eq => t == Token::Eq,
        TokenSpec::Ne => t == Token::Ne,
        TokenSpec::Slt => t == Token::Slt,
        TokenSpec::Sle => t == Token::Sle,
        TokenSpec::Sgt => t == Token::Sgt,
        TokenSpec::Sge => t == Token::Sge,
        TokenSpec::Ult => t == Token::Ult,
        TokenSpec::Ule => t == Token::Ule,
        TokenSpec::Ugt => t == Token::Ugt,
        TokenSpec::Uge => t == Token::Uge,
        TokenSpec::Void => t == Token::Void,
        TokenSpec::Ptr => t == Token::Ptr,
        TokenSpec::True => t == Token::True,
        TokenSpec::False => t == Token::False,
        TokenSpec::LParen => t == Token::LParen,
        TokenSpec::RParen => t == Token::RParen,
        TokenSpec::LBrace => t == Token::LBrace,
        TokenSpec::RBrace => t == Token::RBrace,
        TokenSpec::LBracket => t == Token::LBracket,
        TokenSpec::RBracket => t == Token::RBracket,
        TokenSpec::LAngle => t == Token::LAngle,
        TokenSpec::RAngle => t == Token::RAngle,
        TokenSpec::Comma => t == Token::Comma,
        TokenSpec::Equals => t == Token::Equals,
        TokenSpec::Star => t == Token::Star,
        TokenSpec::Colon => t == Token::Colon,
        TokenSpec::Ellipsis => t == Token::Ellipsis,
    }
}

fn exec_is_ws(c: char) -> (r: bool)
    ensures
        r == is_ws(c),
{
    c == ' ' || c == '\t' || c == '\n' || c == '\u{c}' || c == '\r'
}

fn exec_is_digit(c: char) -> (r: bool)
    ensures
        r == is_digit(c),
{
    let u = c as u32;
    48 <= u && u <= 57
}

fn exec_is_ident_start(c: char) -> (r: bool)
    ensures
        r == is_ident_start(c),
{
    let u = c as u32;
    (97 <= u && u <= 122) || (65 <= u && u <= 90) || c == '_'
}

fn exec_is_ident_char(c: char) -> (r: bool)
    ensures
        r == is_ident_char(c),
{
    exec_is_ident_start(c) || exec_is_digit(c) || c == '.'
}

/// Lexer over one input string; positions count characters.
pub struct Lexer<'a> {
    /// The source text.
    pub input: &'a str,
    /// Current character position.
    pub pos: usize,
    /// Character length of the source text.
    pub len: usize,
}

impl<'a> Lexer<'a> {
    /// The lexer's position and cached length are in range.
    pub open spec fn wf(self) -> bool {
        self.len == self.input@.len() && self.pos <= self.len
    }

    /// Fresh lexer at the start of the input.
    pub fn new(input: &'a str) -> (r: Self)
        ensures
            r.wf(),
            r.input@ == input@,
            r.pos == 0,
    {
        let len = input.unicode_len();
        Self { input, pos: 0, len }
    }

    /// Next token of the input: its span and value, an error at the offset
    /// of unrecognized input, or nothing once the input is exhausted.
    pub fn next(&mut self) -> (r: Option<Result<Spanned, LexError>>)
        requires
            old(self).wf(),
        ensures
            final(self).wf(),
            final(self).input@ == old(self).input@,
            match spec_next(old(self).input@, old(self).pos as int) {
                LexStep::Done => r is None && final(self).pos == old(self).len,
                LexStep::Error(off) => r matches Some(x) && x matches Err(e) && e.offset
                    == off,
                LexStep::Token { start, tok, end } => (r matches Some(x) && x matches Ok(t)
                    && t.0 == start && t.2 == end && token_matches(
                    old(self).input@,
                    t.1,
                    tok,
                    start,
                    end,
                )) && final(self).pos == end,
            },
    {
        let ghost s = self.input@;
        let ghost start_pos = self.pos;
        loop
            invariant
                self.wf(),
                self.input@ == s,
                start_pos <= self.pos,
                spec_next(s, start_pos as int) == spec_next(s, self.pos as int),
            ensures
                self.wf(),
                self.input@ == s,
                spec_next(s, start_pos as int) == spec_next(s, self.pos as int),
                self.pos == self.len || (!is_ws(s[self.pos as int]) && s[self.pos as int] != ';'),
            decreases self.len - self.pos,
        {
            if self.pos >= self.len {
                break;
            }
            let c = self.input.get_char(self.pos);
            if exec_is_ws(c) {
                self.pos = self.pos + 1;
            } else if c == ';' {
                proof {
                    lemma_comment_end_bounds(s, self.pos as int);
                }
                self.pos = comment_end(self.input, self.len, self.pos);
            } else {
                break;
            }
        }
        if self.pos >= self.len {
            return None;
        }
        let start = self.pos;
        let c = self.input.get_char(start);
        proof {
            lemma_ident_end_bounds(s, start as int);
            if start + 1 <= self.len {
                lemma_ident_end_bounds(s, start as int + 1);
            }
        }
        if exec_is_ident_start(c) {
            proof {
                lemma_ident_end_run(s, start as int);
            }
            let end = ident_end(self.input, self.len, start);
            match self.classify_word(start, end) {
                Some(tok) => {
                    self.pos = end;
                    Some(Ok((start, tok, end)))
                },
                None => Some(Err(LexError { offset: start })),
            }
        } else if exec_is_digit(c) || c == '-' {
            let dstart = if c == '-' {
                start + 1
            } else {
                start
            };
            if dstart >= self.len || !exec_is_digit(self.input.get_char(dstart)) {
                return Some(Err(LexError { offset: start }));
            }
            proof {
                lemma_digits_end_run(s, dstart as int);
                lemma_digits_end_chars(s, dstart as int);
            }
            let end = digits_end(self.input, self.len, dstart);
            let cap: u64 = if c == '-' {
                0x8000_0000_0000_0000
            } else {
                0x7FFF_FFFF_FFFF_FFFF
            };
            match digits_value(self.input, dstart, end, cap) {
                Some(mag) => {
                    let v: i64 = if c == '-' {
                        (-(mag as i128)) as i64
                    } else {
                        mag as i64
                    };
                    self.pos = end;
                    Some(Ok((start, Token::Integer(v), end)))
                },
                None => Some(Err(LexError { offset: start })),
            }
        } else if c == '@' {
            if start + 1 < self.len && exec_is_ident_start(self.input.get_char(start + 1)) {
                let end = global_end(self.input, self.len, start + 1);
                proof {
                    lemma_ident_end_bounds(s, start as int + 1);
                }
                let text = self.input.substring_char(start, end).to_owned();
                self.pos = end;
                Some(Ok((start, Token::GlobalIdent(text), end)))
            } else {
                Some(Err(LexError { offset: start }))
            }
        } else if c == '%' {
            if start + 1 < self.len && exec_is_ident_start(self.input.get_char(start + 1)) {
                let end = ident_end(self.input, self.len, start + 1);
                let text = self.input.substring_char(start, end).to_owned();
                self.pos = end;
                Some(Ok((start, Token::LocalIdent(text), end)))
            } else if start + 1 < self.len && exec_is_digit(self.input.get_char(start + 1)) {
                let end = digits_end(self.input, self.len, start + 1);
                let text = self.input.substring_char(start, end).to_owned();
                self.pos = end;
                Some(Ok((start, Token::NumericIdent(text), end)))
            } else {
                Some(Err(LexError { offset: start }))
            }
        } else if c == '"' {
            let end = string_end(self.input, self.len, start + 1);
            if end > start + 1 && self.input.get_char(end - 1) == '"' {
                let text = self.input.substring_char(start, end).to_owned();
                self.pos = end;
                Some(Ok((start, Token::String(text), end)))
            } else {
                Some(Err(LexError { offset: start }))
            }
        } else if c == '(' {
            self.pos = start + 1;
            Some(Ok((start, Token::LParen, start + 1)))
        } else if c == ')' {
            self.pos = start + 1;
            Some(Ok((start, Token::RParen, start + 1)))
        } else if c == '{' {
            self.pos = start + 1;
            Some(Ok((start, Token::LBrace, start + 1)))
        } else if c == '}' {
            self.pos = start + 1;
            Some(Ok((start, Token::RBrace, start + 1)))
        } else if c == '[' {
            self.pos = start + 1;
            Some(Ok((start, Token::LBracket, start + 1)))
        } else if c == ']' {
            self.pos = start + 1;
            Some(Ok((start, Token::RBracket, start + 1)))
        } else if c == '<' {
            self.pos = start + 1;
            Some(Ok((start, Token::LAngle, start + 1)))
        } else if c == '>' {
            self.pos = start + 1;
            Some(Ok((start, Token::RAngle, start + 1)))
        } else if c == ',' {
            self.pos = start + 1;
            Some(Ok((start, Token::Comma, start + 1)))
        } else if c == '=' {
            self.pos = start + 1;
            Some(Ok((start, Token::Equals, start + 1)))
        } else if c == '*' {
            self.pos = start + 1;
            Some(Ok((start, Token::Star, start + 1)))
        } else if c == ':' {
            self.pos = start + 1;
            Some(Ok((start, Token::Colon, start + 1)))
        } else if c == '.' {
            if self.len - start >= 3 && self.input.get_char(start + 1) == '.'
                && self.input.get_char(start + 2) == '.' {
                self.pos = start + 3;
                Some(Ok((start, Token::Ellipsis, start + 3)))
            } else {
                Some(Err(LexError { offset: start }))
            }
        } else {
            Some(Err(LexError { offset: start }))
        }
    }

    /// Classify the word `input[start..end)` as a keyword, an integer type,
    /// or a bare identifier. An integer type wider than a 32-bit count is
    /// unrecognized.
    fn classify_word(&self, start: usize, end: usize) -> (r: Option<Token>)
        requires
            self.wf(),
            start < end <= self.len,
        ensures
            match spec_classify_word(self.input@, start as int, end as int) {
                Some(ts) => r matches Some(t) && token_matches(
                    self.input@,
                    t,
                    ts,
                    start as int,
                    end as int,
                ),
                None => r is None,
            },
    {
        let w = self.input.substring_char(start, end);
        if crate::text::str_eq(w, "define") {
            Some(Token::Define)
        } else if crate::text::str_eq(w, "declare") {
            Some(Token::Declare)
        } else if crate::text::str_eq(w, "ret") {
            Some(Token::Ret)
        } else if crate::text::str_eq(w, "br") {
            Some(Token::Br)
        } else if crate::text::str_eq(w, "switch") {
            Some(Token::Switch)
        } else if crate::text::str_eq(w, "call") {
            Some(Token::Call)
        } else if crate::text::str_eq(w, "add") {
            Some(Token::Add)
        } else if crate::text::str_eq(w, "sub") {
            Some(Token::Sub)
        } else if crate::text::str_eq(w, "mul") {
            Some(Token::Mul)
        } else if crate::text::str_eq(w, "udiv") {
            Some(Token::UDiv)
        } else if crate::text::str_eq(w, "sdiv") {
            Some(Token::SDiv)
        } else if crate::text::str_eq(w, "urem") {
            Some(Token::URem)
        } else if crate::text::str_eq(w, "srem") {
            Some(Token::SRem)
        } else if crate::text::str_eq(w, "and") {
            Some(Token::And)
        } else if crate::text::str_eq(w, "or") {
            Some(Token::Or)
        } else if crate::text::str_eq(w, "xor") {
            Some(Token::Xor)
        } else if crate::text::str_eq(w, "shl") {
            Some(Token::Shl)
        } else if crate::text::str_eq(w, "lshr") {
            Some(Token::LShr)
        } else if crate::text::str_eq(w, "ashr") {
            Some(Token::AShr)
        } else if crate::text::str_eq(w, "icmp") {
            Some(Token::ICmp)
        } else if crate::text::str_eq(w, "load") {
            Some(Token::Load)
        } else if crate::text::str_eq(w, "store") {
            Some(Token::Store)
        } else if crate::text::str_eq(w, "alloca") {
            Some(Token::Alloca)
        } else if crate::text::str_eq(w, "getelementptr") {
            Some(Token::GetElementPtr)
        } else if crate::text::str_eq(w, "phi") {
            Some(Token::Phi)
        } else if crate::text::str_eq(w, "label") {
            Some(Token::Label)
        } else if crate::text::str_eq(w, "to") {
            Some(Token::To)
        } else if crate::text::str_eq(w, "eq") {
            Some(Token::Eq)
        } else if crate::text::str_eq(w, "ne") {
            Some(Token::Ne)
        } else if crate::text::str_eq(w, "slt") {
            Some(Token::Slt)
        } else if crate::text::str_eq(w, "sle") {
            Some(Token::Sle)
        } else if crate::text::str_eq(w, "sgt") {
            Some(Token::Sgt)
        } else if crate::text::str_eq(w, "sge") {
            Some(Token::Sge)
        } else if crate::text::str_eq(w, "ult") {
            Some(Token::Ult)
        } else if crate::text::str_eq(w, "ule") {
            Some(Token::Ule)
        } else if crate::text::str_eq(w, "ugt") {
            Some(Token::Ugt)
        } else if crate::text::str_eq(w, "uge") {
            Some(Token::Uge)
        } else if crate::text::str_eq(w, "void") {
            Some(Token::Void)
        } else if crate::text::str_eq(w, "ptr") {
            Some(Token::Ptr)
        } else if crate::text::str_eq(w, "true") {
            Some(Token::True)
        } else if crate::text::str_eq(w, "false") {
            Some(Token::False)
        } else {
            let first = self.input.get_char(start);
            let mut all_digits = end - start >= 2 && first == 'i';
            if all_digits {
                let mut k = start + 1;
                while k < end
                    invariant
                        self.wf(),
                        start + 1 <= k <= end <= self.len,
                        all_digits == spec_all_digits(self.input@, start as int + 1, k as int),
                    decreases end - k,
                {
                    if !exec_is_digit(self.input.get_char(k)) {
                        all_digits = false;
                    }
                    k = k + 1;
                }
            }
            if all_digits {
                match digits_value(self.input, start + 1, end, 0xFFFF_FFFF) {
                    Some(v) => Some(Token::IntType(v as u32)),
                    None => None,
                }
            } else {
                proof {
                    if end - start >= 2 && first == 'i' && spec_all_digits(
                        self.input@,
                        start as int + 1,
                        end as int,
                    ) {
                        assert(false);
                    }
                }
                Some(Token::Ident(w.to_owned()))
            }
        }
    }
}

/// Scan to the end of an identifier-character run.
fn ident_end(input: &str, len: usize, pos: usize) -> (r: usize)
    requires
        len == input@.len(),
        pos <= len,
    ensures
        r == spec_ident_end(input@, pos as int),
        pos <= r <= len,
{
    let mut p = pos;
    loop
        invariant
            len == input@.len(),
            pos <= p <= len,
            spec_ident_end(input@, pos as int) == spec_ident_end(input@, p as int),
        ensures
            p == spec_ident_end(input@, pos as int),
            pos <= p <= len,
        decreases len - p,
    {
        if p >= len {
            break;
        }
        let c = input.get_char(p);
        if !exec_is_ident_char(c) {
            break;
        }
        p = p + 1;
    }
    p
}

/// Scan to the end of a digit run.
fn digits_end(input: &str, len: usize, pos: usize) -> (r: usize)
    requires
        len == input@.len(),
        pos <= len,
    ensures
        r == spec_digits_end(input@, pos as int),
        pos <= r <= len,
{
    let mut p = pos;
    loop
        invariant
            len == input@.len(),
            pos <= p <= len,
            spec_digits_end(input@, pos as int) == spec_digits_end(input@, p as int),
        ensures
            p == spec_digits_end(input@, pos as int),
            pos <= p <= len,
        decreases len - p,
    {
        if p >= len {
            break;
        }
        let c = input.get_char(p);
        if !exec_is_digit(c) {
            break;
        }
        p = p + 1;
    }
    p
}

/// Scan to the end of a global-identifier run.
fn global_end(input: &str, len: usize, pos: usize) -> (r: usize)
    requires
        len == input@.len(),
        pos <= len,
    ensures
        r == spec_global_end(input@, pos as int),
        pos <= r <= len,
{
    let mut p = pos;
    loop
        invariant
            len == input@.len(),
            pos <= p <= len,
            spec_global_end(input@, pos as int) == spec_global_end(input@, p as int),
        ensures
            p == spec_global_end(input@, pos as int),
            pos <= p <= len,
        decreases len - p,
    {
        if p >= len {
            break;
        }
        let c = input.get_char(p);
        if !(exec_is_ident_start(c) || exec_is_digit(c)) {
            break;
        }
        p = p + 1;
    }
    p
}

/// Scan past the end of a line comment.
fn comment_end(input: &str, len: usize, pos: usize) -> (r: usize)
    requires
        len == input@.len(),
        pos < len,
    ensures
        r == spec_comment_end(input@, pos as int),
        pos < r <= len,
{
    proof {
        lemma_comment_end_bounds(input@, pos as int);
    }
    let mut p = pos;
    loop
        invariant_except_break
            spec_comment_end(input@, pos as int) == spec_comment_end(input@, p as int),
        invariant
            len == input@.len(),
            pos <= p <= len,
        ensures
            p == spec_comment_end(input@, pos as int),
        decreases len - p,
    {
        if p >= len {
            break;
        }
        let c = input.get_char(p);
        if c == '\n' {
            proof {
                assert(spec_comment_end(input@, p as int) == p + 1);
            }
            p = p + 1;
            break;
        }
        p = p + 1;
    }
    p
}

/// Scan past the closing quote of a string literal body.
fn string_end(input: &str, len: usize, pos: usize) -> (r: usize)
    requires
        len == input@.len(),
        pos <= len,
    ensures
        r == spec_string_end(input@, pos as int),
        pos <= r <= len,
{
    proof {
        lemma_ident_end_bounds(input@, pos as int);
    }
    let mut p = pos;
    loop
        invariant_except_break
            spec_string_end(input@, pos as int) == spec_string_end(input@, p as int),
        invariant
            len == input@.len(),
            pos <= p <= len,
        ensures
            p == spec_string_end(input@, pos as int),
            pos <= p <= len,
        decreases len - p,
    {
        if p >= len {
            break;
        }
        let c = input.get_char(p);
        if c == '"' {
            proof {
                assert(spec_string_end(input@, p as int) == p + 1);
            }
            p = p + 1;
            break;
        }
        if c == '\u{5c}' {
            if len - p >= 2 {
                proof {
                    lemma_ident_end_bounds(input@, p as int + 2);
                }
                p = p + 2;
            } else {
                proof {
                    assert(spec_string_end(input@, p as int) == len);
                }
                p = len;
                break;
            }
        } else {
            p = p + 1;
        }
    }
    p
}

/// Every character of a digit run is a digit.
proof fn lemma_digits_end_chars(s: Seq<char>, pos: int)
    requires
        0 <= pos <= s.len(),
    ensures
        spec_all_digits(s, pos, spec_digits_end(s, pos)),
        spec_digits_end(s, pos) <= s.len(),
    decreases s.len() - pos,
{
    if pos < s.len() && is_digit(s[pos]) {
        lemma_digits_end_chars(s, pos + 1);
        assert forall|k: int| pos <= k < spec_digits_end(s, pos) implies is_digit(
            #[trigger] s[k],
        ) by {
            if k > pos {
                assert(is_digit(s[k]));
            }
        }
    }
}

/// Digit runs are non-negative and grow with their length.
proof fn lemma_digits_val_bounds(s: Seq<char>, from: int, to: int)
    requires
        from <= to,
        spec_all_digits(s, from, to),
        forall|k: int| from <= k < to ==> 0 <= #[trigger] s[k] as int - '0' as int <= 9,
    ensures
        spec_digits_val(s, from, to) >= 0,
        from < to ==> spec_digits_val(s, from, to) >= spec_digits_val(s, from, to - 1),
    decreases to - from,
{
    if from < to {
        lemma_digits_val_bounds(s, from, to - 1);
        let prev = spec_digits_val(s, from, to - 1);
        assert(spec_digits_val(s, from, to) == prev * 10 + (s[to - 1] as int - '0' as int));
        assert(prev * 10 == prev * 9 + prev);
        assert(prev * 9 >= 0) by (nonlinear_arith)
            requires
                prev >= 0,
        ;
    }
}

/// Value of a digit run `input[from..to)`, or `None` when it exceeds `max`.
fn digits_value(input: &str, from: usize, to: usize, max: u64) -> (r: Option<u64>)
    requires
        len_ok(input@, from as int, to as int),
        spec_all_digits(input@, from as int, to as int),
        from < to,
        max <= 0x8000_0000_0000_0000,
    ensures
        match r {
            Some(v) => v as int == spec_digits_val(input@, from as int, to as int) && v <= max,
            None => spec_digits_val(input@, from as int, to as int) > max,
        },
{
    let ghost s = input@;
    let mut val: u64 = 0;
    let mut over = false;
    let mut k = from;
    proof {
        lemma_digits_val_bounds(s, from as int, from as int);
    }
    while k < to
        invariant
            len_ok(s, from as int, to as int),
            input@ == s,
            spec_all_digits(s, from as int, to as int),
            from <= k <= to,
            !over ==> val as int == spec_digits_val(s, from as int, k as int) && val <= max,
            over ==> spec_digits_val(s, from as int, k as int) > max,
            max <= 0x8000_0000_0000_0000,
        decreases to - k,
    {
        let c = input.get_char(k);
        let d: u64 = (c as u32 as u64) - 48;
        proof {
            assert(is_digit(s[k as int]));
            lemma_digits_val_bounds(s, from as int, k as int + 1);
            assert(spec_digits_val(s, from as int, k as int + 1) == spec_digits_val(
                s,
                from as int,
                k as int,
            ) * 10 + d);
        }
        if over {
            proof {
                let prev = spec_digits_val(s, from as int, k as int);
                assert(prev * 10 == prev * 9 + prev);
                assert(prev * 9 >= prev) by (nonlinear_arith)
                    requires
                        prev >= 0,
                ;
                assert(prev >= 0 && prev > max);
            }
        } else {
            if val > max / 10 {
                over = true;
                proof {
                    let prev = spec_digits_val(s, from as int, k as int);
                    assert(prev == val as int);
                    assert(prev >= max / 10 + 1);
                    assert((max / 10 + 1) * 10 == (max / 10) * 10 + 10);
                    assert(prev * 10 >= (max / 10 + 1) * 10) by (nonlinear_arith)
                        requires
                            prev >= max / 10 + 1,
                    ;
                    assert((max / 10) * 10 + 10 > max);
                    assert(prev * 10 + d > max);
                }
            } else {
                let v10 = val * 10;
                proof {
                    assert(val <= max / 10);
                    assert(val * 10 <= (max / 10) * 10) by (nonlinear_arith)
                        requires
                            val <= max / 10,
                    ;
                    assert((max / 10) * 10 <= max);
                }
                if d > max || v10 > max - d {
                    over = true;
                } else {
                    val = v10 + d;
                }
            }
        }
        k = k + 1;
    }
    if over {
        None
    } else {
        Some(val)
    }
}

/// Bounds of a span within the input.
pub open spec fn len_ok(s: Seq<char>, from: int, to: int) -> bool {
    0 <= from <= to <= s.len()
}


/// The token sequence of the whole input, or the offset of the first
/// unrecognized character.
pub open spec fn spec_tokenize(s: Seq<char>, pos: int) -> Result<Seq<(int, TokenSpec, int)>, int>
    decreases s.len() - pos when 0 <= pos <= s.len() via spec_tokenize_dec
{
    match spec_next(s, pos) {
        LexStep::Done => Ok(Seq::empty()),
        LexStep::Error(off) => Err(off),
        LexStep::Token { start, tok, end } => match spec_tokenize(s, end) {
            Ok(rest) => Ok(seq![(start, tok, end)] + rest),
            Err(e) => Err(e),
        },
    }
}

#[via_fn]
proof fn spec_tokenize_dec(s: Seq<char>, pos: int) {
    if 0 <= pos <= s.len() {
        lemma_next_bounds(s, pos);
    }
}

/// Lexer totality: lexing never produces more tokens than the input has
/// characters, so every input yields finitely many tokens.
pub proof fn lemma_lexer_totality(s: Seq<char>, pos: int)
    requires
        0 <= pos <= s.len(),
    ensures
        spec_tokenize(s, pos) matches Ok(ts) ==> ts.len() <= s.len() - pos,
    decreases s.len() - pos,
{
    lemma_next_bounds(s, pos);
    match spec_next(s, pos) {
        LexStep::Token { start, tok, end } => {
            lemma_lexer_totality(s, end);
        },
        _ => {},
    }
}

/// Tokenize the whole input, stopping at the first unrecognized character.
pub fn tokenize(input: &str) -> (r: Result<Vec<Spanned>, LexError>)
    ensures
        match spec_tokenize(input@, 0) {
            Ok(ts) => r matches Ok(v) && v@.len() == ts.len() && forall|i: int|
                0 <= i < ts.len() ==> (#[trigger] v@[i]).0 == ts[i].0 && v@[i].2 == ts[i].2
                    && token_matches(input@, v@[i].1, ts[i].1, ts[i].0, ts[i].2),
            Err(off) => r matches Err(e) && e.offset == off,
        },
{
    let ghost s = input@;
    let mut lexer = Lexer::new(input);
    let mut out: Vec<Spanned> = Vec::new();
    loop
        invariant
            lexer.wf(),
            lexer.input@ == s,
            input@ == s,
            match spec_tokenize(s, lexer.pos as int) {
                Ok(rest) => spec_tokenize(s, 0) matches Ok(all) && all.len() == out@.len()
                    + rest.len() && (forall|i: int|
                    0 <= i < out@.len() ==> (#[trigger] out@[i]).0 == all[i].0 && out@[i].2
                        == all[i].2 && token_matches(s, out@[i].1, all[i].1, all[i].0, all[i].2))
                    && (forall|j: int|
                    0 <= j < rest.len() ==> all[out@.len() + j] == #[trigger] rest[j]),
                Err(e) => spec_tokenize(s, 0) == Result::<Seq<(int, TokenSpec, int)>, int>::Err(e),
            },
        ensures
            lexer.wf(),
            lexer.input@ == s,
            spec_next(s, lexer.pos as int) is Done,
            match spec_tokenize(s, lexer.pos as int) {
                Ok(rest) => spec_tokenize(s, 0) matches Ok(all) && all.len() == out@.len()
                    + rest.len() && (forall|i: int|
                    0 <= i < out@.len() ==> (#[trigger] out@[i]).0 == all[i].0 && out@[i].2
                        == all[i].2 && token_matches(s, out@[i].1, all[i].1, all[i].0, all[i].2))
                    && (forall|j: int|
                    0 <= j < rest.len() ==> all[out@.len() + j] == #[trigger] rest[j]),
                Err(e) => spec_tokenize(s, 0) == Result::<Seq<(int, TokenSpec, int)>, int>::Err(e),
            },
        decreases s.len() - lexer.pos,
    {
        let ghost pre_pos = lexer.pos as int;
        let ghost prev_out = out@;
        proof {
            lemma_next_bounds(s, pre_pos);
        }
        match lexer.next() {
            None => {
                break;
            },
            Some(Ok(t)) => {
                out.push(t);
                proof {
                    let step = spec_next(s, pre_pos);
                    let start = step->Token_start;
                    let tokv = step->Token_tok;
                    let end = step->Token_end;
                    match spec_tokenize(s, end) {
                        Ok(rest1) => {
                            let all = spec_tokenize(s, 0)->Ok_0;
                            let trip = (start, tokv, end);
                            assert(spec_tokenize(s, pre_pos) == Ok::<_, int>(
                                seq![trip] + rest1,
                            ));
                            assert forall|i: int| 0 <= i < out@.len() implies (
                            #[trigger] out@[i]).0 == all[i].0 && out@[i].2 == all[i].2
                                && token_matches(s, out@[i].1, all[i].1, all[i].0, all[i].2) by {
                                if i < prev_out.len() {
                                    assert(out@[i] == prev_out[i]);
                                } else {
                                    assert(out@[i] == t);
                                    assert(all[prev_out.len() as int] == (seq![trip] + rest1)[0]);
                                }
                            }
                            assert forall|j: int| 0 <= j < rest1.len() implies all[out@.len() + j]
                                == #[trigger] rest1[j] by {
                                assert(all[prev_out.len() + (j + 1)] == (seq![trip] + rest1)[j
                                    + 1]);
                            }
                        },
                        Err(_) => {},
                    }
                }
            },
            Some(Err(e)) => {
                proof {
                    assert(spec_tokenize(s, pre_pos) matches Err(off) && off == e.offset);
                }
                return Err(e);
            },
        }
    }
    proof {
        assert(spec_tokenize(s, lexer.pos as int) == Result::<Seq<(int, TokenSpec, int)>, int>::Ok(
            Seq::empty(),
        ));
    }
    Ok(out)
}

} // verus!
