use monkey::lexer::Lexer;
use monkey::token::{Token, TokenType};

    
    #[test]
    fn test_string() {
        let s = "
        !-/*5;
        5 < 10 > 5;
        if (5 < 10) {
            return true;
        } else {
            return false;
        }
        10 == 10;
        10 != 9;
        \"foobar\"; \"foo bar\";";
        let mut lex = Lexer::init_lexer(s);
        let mut ve = Vec::<Token>::new();
        let mut i = 0;
        while !lex.end {
            ve.push(lex.next_token());
            println!("{:?}", ve[i]);
            i += 1;
        }
    }

    #[test]
    fn test_function_next_token_for_single_char() {
        let s = "=+(){},;";
        let mut lex = Lexer::init_lexer(s);
        let mut i = 0;
        let mut ve = Vec::<Token>::new();
        while i < lex.input.len() {
            ve.push(lex.next_token());
            i += 1;
        }
        ve.push(Token {
            type_: TokenType::EOF,
            literal: "EOF".to_string(),
        });
        for index in 0..lex.input.len() {
            match lex.input.as_bytes()[index as usize] as char {
                '=' => {
                    assert_eq!(ve[index as usize].type_ == TokenType::ASSIGN, true);
                    assert_eq!(ve[index as usize].literal == "=", true);
                }
                '+' => {
                    assert_eq!(ve[index as usize].type_ == TokenType::PLUS, true);
                    assert_eq!(ve[index as usize].literal == "+", true);
                }
                '(' => {
                    assert_eq!(ve[index as usize].type_ == TokenType::LPAREN, true);
                    assert_eq!(ve[index as usize].literal == "(", true)
                }
                ')' => {
                    assert_eq!(ve[index as usize].type_ == TokenType::RPAREN, true);
                    assert_eq!(ve[index as usize].literal == ")", true)
                }
                '{' => {
                    assert_eq!(ve[index as usize].type_ == TokenType::LBRACE, true);
                    assert_eq!(ve[index as usize].literal == "{", true)
                }
                '}' => {
                    assert_eq!(ve[index as usize].type_ == TokenType::RBRACE, true);
                    assert_eq!(ve[index as usize].literal == "}", true)
                }
                ',' => {
                    assert_eq!(ve[index as usize].type_ == TokenType::COMMA, true);
                    assert_eq!(ve[index as usize].literal == ",", true)
                }
                ';' => {
                    assert_eq!(ve[index as usize].type_ == TokenType::SEMICOLON, true);
                    assert_eq!(ve[index as usize].literal == ";", true)
                }
                _default => {
                    assert_eq!(ve[index as usize].type_ == TokenType::EOF, true);
                    assert_eq!(ve[index as usize].literal == "\0", true)
                }
            }
        }
    }

    #[test]
    fn test_identifiers() {
        let s = "let five = 5; let ten = 10\r 
        ;let add = fn (x , y ) { x + y ;}; \n
        let result = add (five , ten ); ";
        let mut lex = Lexer::init_lexer(s);
        let mut ve = Vec::<Token>::new();
        let mut tok: Token;
        while lex.read_position < lex.input.len() {
            ve.push(lex.next_token());
        }
        ve.push(Token {
            type_: TokenType::EOF,
            literal: "\0".to_string(),
        });

        for index in 0..ve.len() {
            match index {
                0 => {
                    tok = Token {
                        type_: TokenType::LET,
                        literal: "let".to_string(),
                    };
                    assert_eq!(ve[index] == tok, true)
                }
                1 => {
                    tok = Token {
                        type_: TokenType::IDENT,
                        literal: "five".to_string(),
                    };
                    assert_eq!(ve[index] == tok, true)
                }
                2 => {
                    tok = Token {
                        type_: TokenType::ASSIGN,
                        literal: "=".to_string(),
                    };
                    assert_eq!(ve[index] == tok, true)
                }
                3 => {
                    tok = Token {
                        type_: TokenType::INT,
                        literal: "5".to_string(),
                    };
                    assert_eq!(ve[index] == tok, true)
                }
                4 => {
                    tok = Token {
                        type_: TokenType::SEMICOLON,
                        literal: ";".to_string(),
                    };
                    assert_eq!(ve[index] == tok, true)
                }
                5 => {
                    tok = Token {
                        type_: TokenType::LET,
                        literal: "let".to_string(),
                    };
                    assert_eq!(ve[index] == tok, true)
                }
                6 => {
                    tok = Token {
                        type_: TokenType::IDENT,
                        literal: "ten".to_string(),
                    };
                    assert_eq!(ve[index] == tok, true)
                }
                7 => {
                    tok = Token {
                        type_: TokenType::ASSIGN,
                        literal: "=".to_string(),
                    };
                    assert_eq!(ve[index] == tok, true)
                }
                8 => {
                    tok = Token {
                        type_: TokenType::INT,
                        literal: "10".to_string(),
                    };
                    assert_eq!(ve[index] == tok, true)
                }
                9 => {
                    tok = Token {
                        type_: TokenType::SEMICOLON,
                        literal: ";".to_string(),
                    };
                    assert_eq!(ve[index] == tok, true)
                }
                10 => {
                    tok = Token {
                        type_: TokenType::LET,
                        literal: "let".to_string(),
                    };
                    assert_eq!(ve[index] == tok, true)
                }
                11 => {
                    tok = Token {
                        type_: TokenType::IDENT,
                        literal: "add".to_string(),
                    };
                    assert_eq!(ve[index] == tok, true)
                }
                12 => {
                    tok = Token {
                        type_: TokenType::ASSIGN,
                        literal: "=".to_string(),
                    };
                    assert_eq!(ve[index] == tok, true)
                }
                13 => {
                    tok = Token {
                        type_: TokenType::FUNCTION,
                        literal: "fn".to_string(),
                    };
                    assert_eq!(ve[index] == tok, true)
                }
                14 => {
                    tok = Token {
                        type_: TokenType::LPAREN,
                        literal: "(".to_string(),
                    };
                    assert_eq!(ve[index] == tok, true)
                }
                15 => {
                    tok = Token {
                        type_: TokenType::IDENT,
                        literal: "x".to_string(),
                    };
                    assert_eq!(ve[index] == tok, true)
                }
                16 => {
                    tok = Token {
                        type_: TokenType::COMMA,
                        literal: ",".to_string(),
                    };
                    assert_eq!(ve[index] == tok, true)
                }
                17 => {
                    tok = Token {
                        type_: TokenType::IDENT,
                        literal: "y".to_string(),
                    };
                    assert_eq!(ve[index] == tok, true)
                }
                18 => {
                    tok = Token {
                        type_: TokenType::RPAREN,
                        literal: ")".to_string(),
                    };
                    assert_eq!(ve[index] == tok, true)
                }
                19 => {
                    tok = Token {
                        type_: TokenType::LBRACE,
                        literal: "{".to_string(),
                    };
                    assert_eq!(ve[index] == tok, true)
                }
                20 => {
                    tok = Token {
                        type_: TokenType::IDENT,
                        literal: "x".to_string(),
                    };
                    assert_eq!(ve[index] == tok, true)
                }
                21 => {
                    tok = Token {
                        type_: TokenType::PLUS,
                        literal: "+".to_string(),
                    };
                    assert_eq!(ve[index] == tok, true)
                }
                22 => {
                    tok = Token {
                        type_: TokenType::IDENT,
                        literal: "y".to_string(),
                    };
                    assert_eq!(ve[index] == tok, true)
                }
                23 => {
                    tok = Token {
                        type_: TokenType::SEMICOLON,
                        literal: ";".to_string(),
                    };
                    assert_eq!(ve[index] == tok, true)
                }
                24 => {
                    tok = Token {
                        type_: TokenType::RBRACE,
                        literal: "}".to_string(),
                    };
                    assert_eq!(ve[index] == tok, true)
                }
                25 => {
                    tok = Token {
                        type_: TokenType::SEMICOLON,
                        literal: ";".to_string(),
                    };
                    assert_eq!(ve[index] == tok, true)
                }
                26 => {
                    tok = Token {
                        type_: TokenType::LET,
                        literal: "let".to_string(),
                    };
                    assert_eq!(ve[index] == tok, true)
                }
                27 => {
                    tok = Token {
                        type_: TokenType::IDENT,
                        literal: "result".to_string(),
                    };
                    assert_eq!(ve[index] == tok, true)
                }
                28 => {
                    tok = Token {
                        type_: TokenType::ASSIGN,
                        literal: "=".to_string(),
                    };
                    assert_eq!(ve[index] == tok, true)
                }
                29 => {
                    tok = Token {
                        type_: TokenType::IDENT,
                        literal: "add".to_string(),
                    };
                    assert_eq!(ve[index] == tok, true)
                }
                30 => {
                    tok = Token {
                        type_: TokenType::LPAREN,
                        literal: "(".to_string(),
                    };
                    assert_eq!(ve[index] == tok, true)
                }
                31 => {
                    tok = Token {
                        type_: TokenType::IDENT,
                        literal: "five".to_string(),
                    };
                    assert_eq!(ve[index] == tok, true)
                }
                32 => {
                    tok = Token {
                        type_: TokenType::COMMA,
                        literal: ",".to_string(),
                    };
                    assert_eq!(ve[index] == tok, true)
                }
                33 => {
                    tok = Token {
                        type_: TokenType::IDENT,
                        literal: "ten".to_string(),
                    };
                    assert_eq!(ve[index] == tok, true)
                }
                34 => {
                    tok = Token {
                        type_: TokenType::RPAREN,
                        literal: ")".to_string(),
                    };
                    assert_eq!(ve[index] == tok, true)
                }
                35 => {
                    tok = Token {
                        type_: TokenType::SEMICOLON,
                        literal: ";".to_string(),
                    };
                    assert_eq!(ve[index] == tok, true)
                }
                36 => {
                    tok = Token {
                        type_: TokenType::EOF,
                        literal: "\0".to_string(),
                    };
                    assert_eq!(ve[index] == tok, true)
                }
                _default => {
                    panic!("unknown token")
                } //_ => panic!("out bounds for vector")
            }
        }
    }

    #[test]
    fn test_new_identifiers() {
        let s = "
        !-/*5;
        5 < 10 > 5;
        if (5 < 10) {
            return true;
        } else {
            return false;
        }
        10 == 10;
        10 != 9;";
        let mut lex = Lexer::init_lexer(s);
        let mut ve = Vec::<Token>::new();
        let mut tok: Token;
        while !lex.end {
            ve.push(lex.next_token());
        }
        ve.push(Token {
            type_: TokenType::EOF,
            literal: "\0".to_string(),
        });

        println!("{:?}", ve[ve.len() - 1].type_);
        for index in 0..ve.len() - 1 {
            match index {
                0 => {
                    tok = Token {
                        type_: TokenType::BANG,
                        literal: "!".to_string(),
                    };
                    assert_eq!(ve[index] == tok, true);
                }
                1 => {
                    tok = Token {
                        type_: TokenType::MINUS,
                        literal: "-".to_string(),
                    };
                    assert_eq!(ve[index] == tok, true);
                }
                2 => {
                    tok = Token {
                        type_: TokenType::SLASH,
                        literal: "/".to_string(),
                    };
                    assert_eq!(ve[index] == tok, true);
                }
                3 => {
                    tok = Token {
                        type_: TokenType::ASTERICK,
                        literal: "*".to_string(),
                    };
                    assert_eq!(ve[index] == tok, true);
                }
                4 => {
                    tok = Token {
                        type_: TokenType::INT,
                        literal: "5".to_string(),
                    };
                    assert_eq!(ve[index] == tok, true);
                }
                5 => {
                    tok = Token {
                        type_: TokenType::SEMICOLON,
                        literal: ";".to_string(),
                    };
                    assert_eq!(ve[index] == tok, true);
                }
                6 => {
                    tok = Token {
                        type_: TokenType::INT,
                        literal: "5".to_string(),
                    };
                    assert_eq!(ve[index] == tok, true);
                }
                7 => {
                    tok = Token {
                        type_: TokenType::LT,
                        literal: "<".to_string(),
                    };
                    assert_eq!(ve[index] == tok, true)
                }
                8 => {
                    tok = Token {
                        type_: TokenType::INT,
                        literal: "10".to_string(),
                    };
                    assert_eq!(ve[index] == tok, true)
                }
                9 => {
                    tok = Token {
                        type_: TokenType::GT,
                        literal: ">".to_string(),
                    };
                    assert_eq!(ve[index] == tok, true)
                }
                10 => {
                    tok = Token {
                        type_: TokenType::INT,
                        literal: "5".to_string(),
                    };
                    assert_eq!(ve[index] == tok, true)
                }
                11 => {
                    tok = Token {
                        type_: TokenType::SEMICOLON,
                        literal: ";".to_string(),
                    };
                    assert_eq!(ve[index] == tok, true)
                }
                12 => {
                    tok = Token {
                        type_: TokenType::IF,
                        literal: "if".to_string(),
                    };
                    assert_eq!(ve[index] == tok, true)
                }
                13 => {
                    tok = Token {
                        type_: TokenType::LPAREN,
                        literal: "(".to_string(),
                    };
                    assert_eq!(ve[index] == tok, true)
                }
                14 => {
                    tok = Token {
                        type_: TokenType::INT,
                        literal: "5".to_string(),
                    };
                    assert_eq!(ve[index] == tok, true)
                }
                15 => {
                    tok = Token {
                        type_: TokenType::LT,
                        literal: "<".to_string(),
                    };
                    assert_eq!(ve[index] == tok, true)
                }
                16 => {
                    tok = Token {
                        type_: TokenType::INT,
                        literal: "10".to_string(),
                    };
                    assert_eq!(ve[index] == tok, true)
                }
                17 => {
                    tok = Token {
                        type_: TokenType::RPAREN,
                        literal: ")".to_string(),
                    };
                    assert_eq!(ve[index] == tok, true)
                }
                18 => {
                    tok = Token {
                        type_: TokenType::LBRACE,
                        literal: "{".to_string(),
                    };
                    assert_eq!(ve[index] == tok, true)
                }
                19 => {
                    tok = Token {
                        type_: TokenType::RETURN,
                        literal: "return".to_string(),
                    };
                    assert_eq!(ve[index] == tok, true)
                }
                20 => {
                    tok = Token {
                        type_: TokenType::TRUE,
                        literal: "true".to_string(),
                    };
                    assert_eq!(ve[index] == tok, true)
                }
                21 => {
                    tok = Token {
                        type_: TokenType::SEMICOLON,
                        literal: ";".to_string(),
                    };
                    assert_eq!(ve[index] == tok, true)
                }
                22 => {
                    tok = Token {
                        type_: TokenType::RBRACE,
                        literal: "}".to_string(),
                    };
                    assert_eq!(ve[index] == tok, true)
                }
                23 => {
                    tok = Token {
                        type_: TokenType::ELSE,
                        literal: "else".to_string(),
                    };
                    assert_eq!(ve[index] == tok, true)
                }
                24 => {
                    tok = Token {
                        type_: TokenType::LBRACE,
                        literal: "{".to_string(),
                    };
                    assert_eq!(ve[index] == tok, true)
                }
                25 => {
                    tok = Token {
                        type_: TokenType::RETURN,
                        literal: "return".to_string(),
                    };
                    assert_eq!(ve[index] == tok, true)
                }
                26 => {
                    tok = Token {
                        type_: TokenType::FALSE,
                        literal: "false".to_string(),
                    };
                    assert_eq!(ve[index] == tok, true)
                }
                27 => {
                    tok = Token {
                        type_: TokenType::SEMICOLON,
                        literal: ";".to_string(),
                    };
                    assert_eq!(ve[index] == tok, true)
                }
                28 => {
                    tok = Token {
                        type_: TokenType::RBRACE,
                        literal: "}".to_string(),
                    };
                    assert_eq!(ve[index] == tok, true)
                }
                29 => {
                    tok = Token {
                        type_: TokenType::INT,
                        literal: "10".to_string(),
                    };
                    assert_eq!(ve[index] == tok, true)
                }
                30 => {
                    tok = Token {
                        type_: TokenType::EQ,
                        literal: "==".to_string(),
                    };
                    assert_eq!(ve[index] == tok, true)
                }
                31 => {
                    tok = Token {
                        type_: TokenType::INT,
                        literal: "10".to_string(),
                    };
                    assert_eq!(ve[index] == tok, true)
                }
                32 => {
                    tok = Token {
                        type_: TokenType::SEMICOLON,
                        literal: ";".to_string(),
                    };
                    assert_eq!(ve[index] == tok, true)
                }
                33 => {
                    tok = Token {
                        type_: TokenType::INT,
                        literal: "10".to_string(),
                    };
                    assert_eq!(ve[index] == tok, true)
                }
                34 => {
                    tok = Token {
                        type_: TokenType::NEQ,
                        literal: "!=".to_string(),
                    };
                    assert_eq!(ve[index] == tok, true)
                }
                35 => {
                    tok = Token {
                        type_: TokenType::INT,
                        literal: "9".to_string(),
                    };
                    assert_eq!(ve[index] == tok, true)
                }
                36 => {
                    tok = Token {
                        type_: TokenType::SEMICOLON,
                        literal: ";".to_string(),
                    };
                    assert_eq!(ve[index] == tok, true)
                }
                37 => {
                    tok = Token {
                        type_: TokenType::EOF,
                        literal: "\0".to_string(),
                    };
                    assert_eq!(ve[index] == tok, true);
                }
                _ => {
                    panic!("unknown token")
                } //_ => panic!("out bounds for vector")
            }
        }
    }

