//! Lexer: turns a source string into a stream of tokens, one `next_token`
//! call at a time. The spec-level functions below define the exact token and
//! state transition for every call; the executable lexer is proved to follow
//! them.

use vstd::prelude::*;
use vstd::string::StrSliceExecFns;

use crate::text::str_eq;
use crate::token::{eof_token_v, Token, TokenType, TokenV};

verus! {

/// ASCII whitespace, as skipped between tokens.
pub open spec fn is_ws_char(c: char) -> bool {
    c == ' ' || c == '\t' || c == '\n' || c == '\u{c}' || c == '\r'
}

/// ASCII letter: the first character of an identifier.
pub open spec fn is_letter_char(c: char) -> bool {
    ('a' <= c && c <= 'z') || ('A' <= c && c <= 'Z')
}

/// ASCII letter or digit: a continuation character of an identifier.
pub open spec fn is_alnum_char(c: char) -> bool {
    is_letter_char(c) || crate::numbers::is_dec_digit(c)
}

/// The scanning state of the lexer: the index of the current character, the
/// index of the next one, the current character itself, and whether the end
/// of the input has been reached.
pub struct LexSt {
    pub pos: int,
    pub rpos: int,
    pub ch: char,
    pub end: bool,
}

/// A reachable lexer state over input `s`.
pub open spec fn wf_lex_state(s: Seq<char>, st: LexSt) -> bool {
    &&& st.rpos == st.pos + 1
    &&& (s.len() == 0 ==> st.end)
    &&& (s.len() > 0 ==> 0 <= st.pos < s.len() && st.ch == s[st.pos])
}

/// The state the lexer starts in.
pub open spec fn init_lex_state(s: Seq<char>) -> LexSt {
    if s.len() == 0 {
        LexSt { pos: 0, rpos: 1, ch: '\0', end: true }
    } else {
        LexSt { pos: 0, rpos: 1, ch: s[0], end: false }
    }
}

/// Advancing by one character: at the end of the input only the end flag is
/// set; otherwise the cursor moves one character forward.
pub open spec fn read_char_s(s: Seq<char>, st: LexSt) -> LexSt {
    if st.rpos >= s.len() {
        LexSt { end: true, ..st }
    } else {
        LexSt { pos: st.rpos, rpos: st.rpos + 1, ch: s[st.rpos], end: st.end }
    }
}

/// The character one past the current one, or NUL at the end of the input.
pub open spec fn peek_char_s(s: Seq<char>, st: LexSt) -> char {
    if st.rpos >= s.len() {
        '\0'
    } else {
        s[st.rpos]
    }
}

/// Termination measure for the scanning loops: how much input is left.
pub open spec fn lex_measure(s: Seq<char>, st: LexSt) -> nat {
    if st.end {
        0
    } else if st.rpos >= s.len() {
        1
    } else {
        (s.len() - st.rpos + 2) as nat
    }
}

/// The state after skipping whitespace.
pub open spec fn skip_ws_s(s: Seq<char>, st: LexSt) -> LexSt
    decreases lex_measure(s, st),
{
    if !st.end && is_ws_char(st.ch) {
        skip_ws_s(s, read_char_s(s, st))
    } else {
        st
    }
}

/// The state after scanning past a run of identifier characters.
pub open spec fn scan_alnum_s(s: Seq<char>, st: LexSt) -> LexSt
    decreases lex_measure(s, st),
{
    if !st.end && is_alnum_char(st.ch) {
        scan_alnum_s(s, read_char_s(s, st))
    } else {
        st
    }
}

/// The state after scanning past a run of digits.
pub open spec fn scan_digits_s(s: Seq<char>, st: LexSt) -> LexSt
    decreases lex_measure(s, st),
{
    if !st.end && crate::numbers::is_dec_digit(st.ch) {
        scan_digits_s(s, read_char_s(s, st))
    } else {
        st
    }
}

/// The state after scanning up to a closing double quote or the end of the
/// input.
pub open spec fn scan_string_s(s: Seq<char>, st: LexSt) -> LexSt
    decreases lex_measure(s, st),
{
    if !st.end && st.ch != '"' {
        scan_string_s(s, read_char_s(s, st))
    } else {
        st
    }
}

/// The literal and state produced by reading an identifier that starts at the
/// current character. When the identifier runs to the end of the input it
/// extends to the last character; otherwise the cursor steps back one place
/// so that the caller's final advance lands on the delimiter.
pub open spec fn read_ident_s(s: Seq<char>, st: LexSt) -> (Seq<char>, LexSt) {
    let st1 = scan_alnum_s(s, st);
    if st1.end {
        (s.subrange(st.pos, s.len() as int), st1)
    } else {
        (s.subrange(st.pos, st1.pos), LexSt { pos: st1.pos - 1, rpos: st1.rpos - 1, ..st1 })
    }
}

/// The literal and state produced by reading a run of digits, in the same way
/// as `read_ident_s`.
pub open spec fn read_number_s(s: Seq<char>, st: LexSt) -> (Seq<char>, LexSt) {
    let st1 = scan_digits_s(s, st);
    if st1.end {
        (s.subrange(st.pos, s.len() as int), st1)
    } else {
        (s.subrange(st.pos, st1.pos), LexSt { pos: st1.pos - 1, rpos: st1.rpos - 1, ..st1 })
    }
}

/// The literal and state produced by reading a string literal whose opening
/// quote is the current character. The literal excludes both quotes; an
/// unterminated string yields everything scanned up to the end of the input.
pub open spec fn read_string_s(s: Seq<char>, st: LexSt) -> (Seq<char>, LexSt) {
    let st1 = scan_string_s(s, read_char_s(s, st));
    if st1.end {
        (s.subrange(st.pos + 1, s.len() as int), st1)
    } else {
        (s.subrange(st.pos + 1, st1.pos), st1)
    }
}

/// Keyword table: the token kind of an identifier literal.
pub open spec fn lookup_ident_s(lit: Seq<char>) -> TokenType {
    if lit == "fn"@ {
        TokenType::FUNCTION
    } else if lit == "let"@ {
        TokenType::LET
    } else if lit == "true"@ {
        TokenType::TRUE
    } else if lit == "false"@ {
        TokenType::FALSE
    } else if lit == "if"@ {
        TokenType::IF
    } else if lit == "else"@ {
        TokenType::ELSE
    } else if lit == "return"@ {
        TokenType::RETURN
    } else {
        TokenType::IDENT
    }
}

/// One token of kind `t` with literal `lit`.
pub open spec fn tok_v(t: TokenType, lit: Seq<char>) -> TokenV {
    TokenV { type_: t, literal: lit }
}

/// The next token and the state after producing it. At the end of the input
/// the token is EOF and the state does not change, so further calls keep
/// producing EOF.
pub open spec fn next_token_s(s: Seq<char>, st: LexSt) -> (TokenV, LexSt) {
    if st.end {
        (eof_token_v(), st)
    } else {
        let st1 = skip_ws_s(s, st);
        if st1.end {
            (eof_token_v(), st1)
        } else {
            let c = st1.ch;
            if c == '=' {
                if peek_char_s(s, st1) == '=' {
                    (tok_v(TokenType::EQ, "=="@), read_char_s(s, read_char_s(s, st1)))
                } else {
                    (tok_v(TokenType::ASSIGN, "="@), read_char_s(s, st1))
                }
            } else if c == '!' {
                if peek_char_s(s, st1) == '=' {
                    (tok_v(TokenType::NEQ, "!="@), read_char_s(s, read_char_s(s, st1)))
                } else {
                    (tok_v(TokenType::BANG, "!"@), read_char_s(s, st1))
                }
            } else if c == '-' {
                (tok_v(TokenType::MINUS, "-"@), read_char_s(s, st1))
            } else if c == '/' {
                (tok_v(TokenType::SLASH, "/"@), read_char_s(s, st1))
            } else if c == '*' {
                (tok_v(TokenType::ASTERICK, "*"@), read_char_s(s, st1))
            } else if c == '<' {
                (tok_v(TokenType::LT, "<"@), read_char_s(s, st1))
            } else if c == '>' {
                (tok_v(TokenType::GT, ">"@), read_char_s(s, st1))
            } else if c == ';' {
                (tok_v(TokenType::SEMICOLON, ";"@), read_char_s(s, st1))
            } else if c == '(' {
                (tok_v(TokenType::LPAREN, "("@), read_char_s(s, st1))
            } else if c == ')' {
                (tok_v(TokenType::RPAREN, ")"@), read_char_s(s, st1))
            } else if c == ',' {
                (tok_v(TokenType::COMMA, ","@), read_char_s(s, st1))
            } else if c == '+' {
                (tok_v(TokenType::PLUS, "+"@), read_char_s(s, st1))
            } else if c == '{' {
                (tok_v(TokenType::LBRACE, "{"@), read_char_s(s, st1))
            } else if c == '}' {
                (tok_v(TokenType::RBRACE, "}"@), read_char_s(s, st1))
            } else if c == '"' {
                let (lit, st2) = read_string_s(s, st1);
                (tok_v(TokenType::STRING, lit), read_char_s(s, st2))
            } else if is_letter_char(c) {
                let (lit, st2) = read_ident_s(s, st1);
                (tok_v(lookup_ident_s(lit), lit), read_char_s(s, st2))
            } else if crate::numbers::is_dec_digit(c) {
                let (lit, st2) = read_number_s(s, st1);
                (tok_v(TokenType::INT, lit), read_char_s(s, st2))
            } else {
                (tok_v(TokenType::ILLEGAL, seq![c]), read_char_s(s, st1))
            }
        }
    }
}

/// Advancing by one character preserves reachability of the state.
proof fn lemma_read_char_s_wf(s: Seq<char>, st: LexSt)
    requires
        wf_lex_state(s, st),
    ensures
        wf_lex_state(s, read_char_s(s, st)),
{
}

/// Advancing never increases the termination measure, and strictly lowers it
/// before the end of the input.
proof fn lemma_read_char_s_measure(s: Seq<char>, st: LexSt)
    ensures
        lex_measure(s, read_char_s(s, st)) <= lex_measure(s, st),
        !st.end ==> lex_measure(s, read_char_s(s, st)) < lex_measure(s, st),
{
}

/// Skipping whitespace preserves reachability of the state and never
/// increases the termination measure.
proof fn lemma_skip_ws_s_wf(s: Seq<char>, st: LexSt)
    requires
        wf_lex_state(s, st),
    ensures
        wf_lex_state(s, skip_ws_s(s, st)),
        lex_measure(s, skip_ws_s(s, st)) <= lex_measure(s, st),
    decreases lex_measure(s, st),
{
    if !st.end && is_ws_char(st.ch) {
        lemma_read_char_s_wf(s, st);
        lemma_read_char_s_measure(s, st);
        lemma_skip_ws_s_wf(s, read_char_s(s, st));
    }
}

/// Scanning identifier characters preserves reachability and never moves the
/// cursor backwards.
proof fn lemma_scan_alnum_s_wf(s: Seq<char>, st: LexSt)
    requires
        wf_lex_state(s, st),
    ensures
        wf_lex_state(s, scan_alnum_s(s, st)),
        scan_alnum_s(s, st).pos >= st.pos,
        scan_alnum_s(s, st).rpos >= st.rpos,
        lex_measure(s, scan_alnum_s(s, st)) <= lex_measure(s, st),
    decreases lex_measure(s, st),
{
    if !st.end && is_alnum_char(st.ch) {
        lemma_read_char_s_wf(s, st);
        lemma_read_char_s_measure(s, st);
        lemma_scan_alnum_s_wf(s, read_char_s(s, st));
    }
}

/// Scanning digits preserves reachability and never moves the cursor
/// backwards.
proof fn lemma_scan_digits_s_wf(s: Seq<char>, st: LexSt)
    requires
        wf_lex_state(s, st),
    ensures
        wf_lex_state(s, scan_digits_s(s, st)),
        scan_digits_s(s, st).pos >= st.pos,
        scan_digits_s(s, st).rpos >= st.rpos,
        lex_measure(s, scan_digits_s(s, st)) <= lex_measure(s, st),
    decreases lex_measure(s, st),
{
    if !st.end && crate::numbers::is_dec_digit(st.ch) {
        lemma_read_char_s_wf(s, st);
        lemma_read_char_s_measure(s, st);
        lemma_scan_digits_s_wf(s, read_char_s(s, st));
    }
}

/// Scanning a string literal preserves reachability and never moves the
/// cursor backwards.
proof fn lemma_scan_string_s_wf(s: Seq<char>, st: LexSt)
    requires
        wf_lex_state(s, st),
    ensures
        wf_lex_state(s, scan_string_s(s, st)),
        scan_string_s(s, st).pos >= st.pos,
        scan_string_s(s, st).rpos >= st.rpos,
        lex_measure(s, scan_string_s(s, st)) <= lex_measure(s, st),
    decreases lex_measure(s, st),
{
    if !st.end && st.ch != '"' {
        lemma_read_char_s_wf(s, st);
        lemma_read_char_s_measure(s, st);
        lemma_scan_string_s_wf(s, read_char_s(s, st));
    }
}

/// Produces tokens one at a time from a character-indexed source string.
pub struct Lexer<'a> {
    pub input: &'a str,
    pub position: usize,
    pub read_position: usize,
    pub ch: char,
    pub end: bool,
    pub chars: Vec<char>,
}

impl<'a> Lexer<'a> {
    /// The scanning state of this lexer.
    pub open spec fn st(&self) -> LexSt {
        LexSt { pos: self.position as int, rpos: self.read_position as int, ch: self.ch, end: self.end }
    }

    /// The character table matches the input string.
    pub open spec fn chars_ok(&self) -> bool {
        self.chars@ == self.input@
    }

    /// The lexer is in a reachable state over its input.
    pub open spec fn wf(&self) -> bool {
        self.chars_ok() && wf_lex_state(self.input@, self.st())
    }

    /// Builds a lexer at the start of `input`. An empty input starts, and
    /// stays, at the end of the stream.
    pub fn init_lexer(input: &'a str) -> (l: Lexer<'a>)
        ensures
            l.wf(),
            l.input@ == input@,
            l.st() == init_lex_state(input@),
    {
        let n = input.unicode_len();
        let mut chars: Vec<char> = Vec::new();
        let mut i: usize = 0;
        while i < n
            invariant
                0 <= i <= n,
                n == input@.len(),
                chars@ == input@.take(i as int),
            decreases n - i,
        {
            chars.push(input.get_char(i));
            proof {
                assert(chars@ =~= input@.take(i + 1 as int));
            }
            i = i + 1;
        }
        proof {
            assert(input@.take(n as int) =~= input@);
        }
        if n == 0 {
            Lexer { input, position: 0, read_position: 1, ch: '\0', end: true, chars }
        } else {
            let c = chars[0];
            Lexer { input, position: 0, read_position: 1, ch: c, end: false, chars }
        }
    }

    /// Advances the cursor by one character, or marks the end of the input.
    pub fn read_char(&mut self)
        requires
            old(self).chars_ok(),
        ensures
            final(self).chars_ok(),
            final(self).input == old(self).input,
            final(self).st() == read_char_s(old(self).input@, old(self).st()),
    {
        if self.read_position >= self.chars.len() {
            self.end = true;
        } else {
            self.ch = self.chars[self.read_position];
            self.position = self.read_position;
            self.read_position = self.read_position + 1;
        }
    }

    /// The character one past the current one, or NUL at the end.
    fn peek_char(&self) -> (c: char)
        requires
            self.chars_ok(),
        ensures
            c == peek_char_s(self.input@, self.st()),
    {
        if self.read_position >= self.chars.len() {
            '\0'
        } else {
            self.chars[self.read_position]
        }
    }

    /// The current character is a decimal digit.
    fn is_num(&self) -> (r: bool)
        ensures
            r == crate::numbers::is_dec_digit(self.ch),
    {
        '0' <= self.ch && self.ch <= '9'
    }

    /// Skips whitespace between tokens.
    fn skip_whitespace(&mut self)
        requires
            old(self).chars_ok(),
        ensures
            final(self).chars_ok(),
            final(self).input == old(self).input,
            final(self).st() == skip_ws_s(old(self).input@, old(self).st()),
    {
        while !self.end && (self.ch == ' ' || self.ch == '\t' || self.ch == '\n' || self.ch
            == '\u{c}' || self.ch == '\r')
            invariant
                self.chars_ok(),
                self.input == old(self).input,
                skip_ws_s(self.input@, self.st()) == skip_ws_s(old(self).input@, old(self).st()),
            decreases lex_measure(self.input@, self.st()),
        {
            self.read_char();
        }
    }

    /// Reads an identifier starting at the current character.
    fn read_identifier(&mut self) -> (lit: String)
        requires
            old(self).chars_ok(),
            !old(self).end,
            is_alnum_char(old(self).ch),
            wf_lex_state(old(self).input@, old(self).st()),
        ensures
            final(self).chars_ok(),
            final(self).input == old(self).input,
            (lit@, final(self).st()) == read_ident_s(old(self).input@, old(self).st()),
    {
        let start = self.position;
        while !self.end && (('a' <= self.ch && self.ch <= 'z') || ('A' <= self.ch && self.ch
            <= 'Z') || ('0' <= self.ch && self.ch <= '9'))
            invariant
                self.chars_ok(),
                self.input == old(self).input,
                scan_alnum_s(self.input@, self.st()) == scan_alnum_s(
                    old(self).input@,
                    old(self).st(),
                ),
                start == old(self).position,
                start <= self.position,
                self.read_position == self.position + 1,
                self.position < self.input@.len(),
                !self.end ==> self.ch == self.input@[self.position as int],
                self.end || self.position > start || (self.position == start && self.ch == old(
                    self,
                ).ch),
            decreases lex_measure(self.input@, self.st()),
        {
            self.read_char();
        }
        if self.end {
            let lit = self.input.substring_char(start, self.chars.len());
            lit.to_owned()
        } else {
            let lit = self.input.substring_char(start, self.position);
            self.position = self.position - 1;
            self.read_position = self.read_position - 1;
            lit.to_owned()
        }
    }

    /// Reads a run of digits starting at the current character.
    fn read_number(&mut self) -> (lit: String)
        requires
            old(self).chars_ok(),
            !old(self).end,
            crate::numbers::is_dec_digit(old(self).ch),
            wf_lex_state(old(self).input@, old(self).st()),
        ensures
            final(self).chars_ok(),
            final(self).input == old(self).input,
            (lit@, final(self).st()) == read_number_s(old(self).input@, old(self).st()),
    {
        let start = self.position;
        while !self.end && ('0' <= self.ch && self.ch <= '9')
            invariant
                self.chars_ok(),
                self.input == old(self).input,
                scan_digits_s(self.input@, self.st()) == scan_digits_s(
                    old(self).input@,
                    old(self).st(),
                ),
                start == old(self).position,
                start <= self.position,
                self.read_position == self.position + 1,
                self.position < self.input@.len(),
                !self.end ==> self.ch == self.input@[self.position as int],
                self.end || self.position > start || (self.position == start && self.ch == old(
                    self,
                ).ch),
            decreases lex_measure(self.input@, self.st()),
        {
            self.read_char();
        }
        if self.end {
            let lit = self.input.substring_char(start, self.chars.len());
            lit.to_owned()
        } else {
            let lit = self.input.substring_char(start, self.position);
            self.position = self.position - 1;
            self.read_position = self.read_position - 1;
            lit.to_owned()
        }
    }

    /// Reads a string literal whose opening quote is the current character.
    fn read_string(&mut self) -> (lit: String)
        requires
            old(self).chars_ok(),
            !old(self).end,
            wf_lex_state(old(self).input@, old(self).st()),
        ensures
            final(self).chars_ok(),
            final(self).input == old(self).input,
            (lit@, final(self).st()) == read_string_s(old(self).input@, old(self).st()),
    {
        let start = self.position + 1;
        self.read_char();
        while !self.end && self.ch != '"'
            invariant
                self.chars_ok(),
                self.input == old(self).input,
                scan_string_s(self.input@, self.st()) == scan_string_s(
                    old(self).input@,
                    read_char_s(old(self).input@, old(self).st()),
                ),
                start == old(self).position + 1,
                start <= self.input@.len(),
                self.read_position == self.position + 1,
                self.position < self.input@.len(),
                self.end || start <= self.position + 1,
                !self.end ==> start <= self.position,
                self.end ==> start <= self.input@.len(),
            decreases lex_measure(self.input@, self.st()),
        {
            self.read_char();
        }
        if self.end {
            let lit = self.input.substring_char(start, self.chars.len());
            lit.to_owned()
        } else {
            let lit = self.input.substring_char(start, self.position);
            lit.to_owned()
        }
    }

    /// The token kind of an identifier: a keyword when the text matches one.
    fn lookup_identifier(&self, ident: &str) -> (t: TokenType)
        ensures
            t == lookup_ident_s(ident@),
    {
        if str_eq(ident, "fn") {
            TokenType::FUNCTION
        } else if str_eq(ident, "let") {
            TokenType::LET
        } else if str_eq(ident, "true") {
            TokenType::TRUE
        } else if str_eq(ident, "false") {
            TokenType::FALSE
        } else if str_eq(ident, "if") {
            TokenType::IF
        } else if str_eq(ident, "else") {
            TokenType::ELSE
        } else if str_eq(ident, "return") {
            TokenType::RETURN
        } else {
            TokenType::IDENT
        }
    }

    /// Produces the next token. At the end of the input the token is EOF, and
    /// stays EOF on further calls.
    pub fn next_token(&mut self) -> (tok: Token)
        requires
            old(self).wf(),
        ensures
            final(self).wf(),
            final(self).input == old(self).input,
            (tok@, final(self).st()) == next_token_s(old(self).input@, old(self).st()),
    {
        if self.end {
            return Token::eof();
        }
        self.skip_whitespace();
        proof {
            lemma_skip_ws_s_wf(old(self).input@, old(self).st());
        }
        if self.end {
            return Token::eof();
        }
        let tok: Token = match self.ch {
            '=' => {
                if self.peek_char() == '=' {
                    self.read_char();
                    new_token(TokenType::EQ, "==")
                } else {
                    new_token(TokenType::ASSIGN, "=")
                }
            },
            '!' => {
                if self.peek_char() == '=' {
                    self.read_char();
                    new_token(TokenType::NEQ, "!=")
                } else {
                    new_token(TokenType::BANG, "!")
                }
            },
            '-' => new_token(TokenType::MINUS, "-"),
            '/' => new_token(TokenType::SLASH, "/"),
            '*' => new_token(TokenType::ASTERICK, "*"),
            '<' => new_token(TokenType::LT, "<"),
            '>' => new_token(TokenType::GT, ">"),
            ';' => new_token(TokenType::SEMICOLON, ";"),
            '(' => new_token(TokenType::LPAREN, "("),
            ')' => new_token(TokenType::RPAREN, ")"),
            ',' => new_token(TokenType::COMMA, ","),
            '+' => new_token(TokenType::PLUS, "+"),
            '{' => new_token(TokenType::LBRACE, "{"),
            '}' => new_token(TokenType::RBRACE, "}"),
            '"' => {
                proof {
                    lemma_read_char_s_wf(self.input@, self.st());
                    lemma_scan_string_s_wf(self.input@, read_char_s(self.input@, self.st()));
                }
                let lit = self.read_string();
                Token { type_: TokenType::STRING, literal: lit }
            },
            _ => {
                if ('a' <= self.ch && self.ch <= 'z') || ('A' <= self.ch && self.ch <= 'Z') {
                    proof {
                        lemma_scan_alnum_s_wf(self.input@, self.st());
                    }
                    let lit = self.read_identifier();
                    let t = self.lookup_identifier(lit.as_str());
                    Token { type_: t, literal: lit }
                } else if self.is_num() {
                    proof {
                        lemma_scan_digits_s_wf(self.input@, self.st());
                    }
                    let lit = self.read_number();
                    Token { type_: TokenType::INT, literal: lit }
                } else {
                    let mut lit = String::new();
                    crate::text::push_char(&mut lit, self.ch);
                    proof {
                        assert(lit@ =~= seq![self.ch]);
                    }
                    Token { type_: TokenType::ILLEGAL, literal: lit }
                }
            },
        };
        self.read_char();
        tok
    }
}

/// A token with the given kind and literal text.
fn new_token(token_type: TokenType, literal: &str) -> (tok: Token)
    ensures
        tok_v(token_type, literal@) == tok@,
{
    Token { type_: token_type, literal: literal.to_owned() }
}

/// Producing a token from a reachable state leaves a reachable state, and
/// any token other than EOF strictly lowers the termination measure: the
/// token stream of a finite input is finite.
pub proof fn lemma_next_token_s_props(s: Seq<char>, st: LexSt)
    requires
        wf_lex_state(s, st),
    ensures
        wf_lex_state(s, next_token_s(s, st).1),
        next_token_s(s, st).0.type_ != TokenType::EOF ==> lex_measure(s, next_token_s(s, st).1)
            < lex_measure(s, st),
{
    if !st.end {
        let st1 = skip_ws_s(s, st);
        lemma_skip_ws_s_wf(s, st);
        if !st1.end {
            let c = st1.ch;
            if c == '=' || c == '!' {
                lemma_read_char_s_wf(s, st1);
                lemma_read_char_s_measure(s, st1);
                lemma_read_char_s_wf(s, read_char_s(s, st1));
                lemma_read_char_s_measure(s, read_char_s(s, st1));
            } else if c == '"' {
                lemma_read_char_s_wf(s, st1);
                lemma_read_char_s_measure(s, st1);
                let stq = read_char_s(s, st1);
                lemma_scan_string_s_wf(s, stq);
                lemma_read_char_s_wf(s, scan_string_s(s, stq));
                lemma_read_char_s_measure(s, scan_string_s(s, stq));
            } else if is_letter_char(c) {
                lemma_scan_alnum_s_wf(s, st1);
                lemma_read_char_s_measure(s, st1);
                lemma_read_char_s_wf(s, read_char_s(s, st1));
                lemma_scan_alnum_s_wf(s, read_char_s(s, st1));
                let stf = scan_alnum_s(s, st1);
                if stf.end {
                    lemma_read_char_s_measure(s, stf);
                } else {
                    let sta = LexSt { pos: stf.pos - 1, rpos: stf.rpos - 1, ..stf };
                    assert(read_ident_s(s, st1).1 == sta);
                    assert(wf_lex_state(s, read_char_s(s, sta)));
                    lemma_read_char_s_measure(s, sta);
                    assert(lex_measure(s, sta) <= lex_measure(s, st1));
                }
            } else if crate::numbers::is_dec_digit(c) {
                lemma_scan_digits_s_wf(s, st1);
                lemma_read_char_s_measure(s, st1);
                lemma_read_char_s_wf(s, read_char_s(s, st1));
                lemma_scan_digits_s_wf(s, read_char_s(s, st1));
                let stf = scan_digits_s(s, st1);
                if stf.end {
                    lemma_read_char_s_measure(s, stf);
                } else {
                    let sta = LexSt { pos: stf.pos - 1, rpos: stf.rpos - 1, ..stf };
                    assert(read_number_s(s, st1).1 == sta);
                    assert(wf_lex_state(s, read_char_s(s, sta)));
                    lemma_read_char_s_measure(s, sta);
                    assert(lex_measure(s, sta) <= lex_measure(s, st1));
                }
            } else {
                lemma_read_char_s_wf(s, st1);
                lemma_read_char_s_measure(s, st1);
            }
        }
    }
}

/// The sequence of tokens the lexer produces from state `st` on, up to and
/// including the final EOF token.
pub open spec fn token_stream_from(s: Seq<char>, st: LexSt) -> Seq<TokenV>
    decreases lex_measure(s, st),
        when wf_lex_state(s, st)
        via token_stream_from_dec
{
    let (t, st2) = next_token_s(s, st);
    if t.type_ == TokenType::EOF {
        seq![t]
    } else {
        seq![t] + token_stream_from(s, st2)
    }
}

#[via_fn]
proof fn token_stream_from_dec(s: Seq<char>, st: LexSt) {
    lemma_next_token_s_props(s, st);
}

/// The full token stream of a source string: every token in order, ending
/// with EOF.
pub open spec fn tokens_of(s: Seq<char>) -> Seq<TokenV> {
    token_stream_from(s, init_lex_state(s))
}

} // verus!
