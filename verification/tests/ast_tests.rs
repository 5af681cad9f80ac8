use monkey::ast::{Expression, Identifier, IntegerLiteral};
use monkey::token::{Token, TokenType};

#[test]
fn ident_print() {
    let i = Expression::Identifier(Identifier {
        token: Token {
            type_: TokenType::IDENT,
            literal: "x".to_string(),
        },
        value: "5".to_string(),
    });
    let s = i.print();
    println!("{}", s);
}

#[test]
fn integer_print() {
    let i = Expression::IntegerLiteral(IntegerLiteral {
        token: Token {
            type_: TokenType::INT,
            literal: "100".to_string(),
        },
        value: 100,
    });
    let s = i.print();
    println!("{}", s);
}
