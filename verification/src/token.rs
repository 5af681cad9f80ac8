use vstd::prelude::*;

verus! {

/// The closed set of token kinds the lexer can produce.
#[derive(Clone, Copy, PartialEq, Eq, Structural, Debug, Hash)]
#[allow(non_camel_case_types)]
pub enum TokenType {
    ILLEGAL,
    EOF,
    IDENT,
    INT,
    ASSIGN,
    PLUS,
    MINUS,
    BANG,
    ASTERICK,
    SLASH,
    EQ,
    NEQ,
    LT,
    GT,
    TRUE,
    FALSE,
    IF,
    ELSE,
    RETURN,
    COMMA,
    SEMICOLON,
    LPAREN,
    RPAREN,
    LBRACE,
    RBRACE,
    FUNCTION,
    LET,
    UNDEFINED,
    STRING,
}

/// A token as a pair of kind and literal text.
#[derive(Debug, PartialEq)]
pub struct Token {
    pub type_: TokenType,
    pub literal: String,
}

/// Mathematical image of a `Token`: the kind together with the literal's
/// character sequence.
#[verifier::ext_equal]
pub struct TokenV {
    pub type_: TokenType,
    pub literal: Seq<char>,
}

impl View for Token {
    type V = TokenV;

    open spec fn view(&self) -> TokenV {
        TokenV { type_: self.type_, literal: self.literal@ }
    }
}

impl Clone for Token {
    fn clone(&self) -> (r: Self)
        ensures
            r@ == self@,
    {
        Token { type_: self.type_, literal: self.literal.clone() }
    }
}

/// The token the lexer reports once the input is exhausted.
pub open spec fn eof_token_v() -> TokenV {
    TokenV { type_: TokenType::EOF, literal: "\0"@ }
}

impl Token {
    /// Builds the end-of-input token.
    pub fn eof() -> (r: Token)
        ensures
            r@ == eof_token_v(),
    {
        Token { type_: TokenType::EOF, literal: "\0".to_owned() }
    }
}

/// The display name of each token kind, as it appears in parser error
/// messages.
pub open spec fn token_type_name(t: TokenType) -> Seq<char> {
    match t {
        TokenType::ILLEGAL => "ILLEGAL"@,
        TokenType::EOF => "EOF"@,
        TokenType::IDENT => "IDENT"@,
        TokenType::INT => "INT"@,
        TokenType::ASSIGN => "ASSIGN"@,
        TokenType::PLUS => "PLUS"@,
        TokenType::MINUS => "MINUS"@,
        TokenType::BANG => "BANG"@,
        TokenType::ASTERICK => "ASTERISK"@,
        TokenType::SLASH => "SLASH"@,
        TokenType::EQ => "EQ"@,
        TokenType::NEQ => "NEQ"@,
        TokenType::LT => "LT"@,
        TokenType::GT => "GT"@,
        TokenType::TRUE => "TRUE"@,
        TokenType::FALSE => "FALSE"@,
        TokenType::IF => "IF"@,
        TokenType::ELSE => "ELSE"@,
        TokenType::RETURN => "RETURN"@,
        TokenType::COMMA => "COMMA"@,
        TokenType::SEMICOLON => "SEMICOLON"@,
        TokenType::LPAREN => "LPAREN"@,
        TokenType::RPAREN => "RPAREN"@,
        TokenType::LBRACE => "LBRACE"@,
        TokenType::RBRACE => "RBRACE"@,
        TokenType::FUNCTION => "FUNCTION"@,
        TokenType::LET => "LET"@,
        TokenType::UNDEFINED => "UNDEFINED"@,
        TokenType::STRING => "STRING"@,
    }
}

/// Returns the display name of a token kind.
pub fn token_type_text(t: TokenType) -> (r: String)
    ensures
        r@ == token_type_name(t),
{
    match t {
        TokenType::ILLEGAL => "ILLEGAL".to_owned(),
        TokenType::EOF => "EOF".to_owned(),
        TokenType::IDENT => "IDENT".to_owned(),
        TokenType::INT => "INT".to_owned(),
        TokenType::ASSIGN => "ASSIGN".to_owned(),
        TokenType::PLUS => "PLUS".to_owned(),
        TokenType::MINUS => "MINUS".to_owned(),
        TokenType::BANG => "BANG".to_owned(),
        TokenType::ASTERICK => "ASTERISK".to_owned(),
        TokenType::SLASH => "SLASH".to_owned(),
        TokenType::EQ => "EQ".to_owned(),
        TokenType::NEQ => "NEQ".to_owned(),
        TokenType::LT => "LT".to_owned(),
        TokenType::GT => "GT".to_owned(),
        TokenType::TRUE => "TRUE".to_owned(),
        TokenType::FALSE => "FALSE".to_owned(),
        TokenType::IF => "IF".to_owned(),
        TokenType::ELSE => "ELSE".to_owned(),
        TokenType::RETURN => "RETURN".to_owned(),
        TokenType::COMMA => "COMMA".to_owned(),
        TokenType::SEMICOLON => "SEMICOLON".to_owned(),
        TokenType::LPAREN => "LPAREN".to_owned(),
        TokenType::RPAREN => "RPAREN".to_owned(),
        TokenType::LBRACE => "LBRACE".to_owned(),
        TokenType::RBRACE => "RBRACE".to_owned(),
        TokenType::FUNCTION => "FUNCTION".to_owned(),
        TokenType::LET => "LET".to_owned(),
        TokenType::UNDEFINED => "UNDEFINED".to_owned(),
        TokenType::STRING => "STRING".to_owned(),
    }
}

} // verus!
