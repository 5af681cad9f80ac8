use monkey::ast::Program;
use monkey::lexer::Lexer;
use monkey::parser::Parser;

    

    #[test]
    fn parser_let_test() {
        let input = "let ten = 10; let five = 5; let foobar = 833833;";
        let mut lex = Lexer::init_lexer(input);
        let mut par = Parser::new(&mut lex);
        let program: Program = par.parse_program();
        println!("{}", program.len());
        for i in 0..program.len() {
            println!("{}", program[i].print());
        }
        assert_eq!(program.len(), 3);
    }

    #[test]
    fn return_test() {
        let input: &'static str = "return 5;
        return 10;
        return 993322;";
        let mut lex: Lexer = Lexer::init_lexer(input);
        let mut p: Parser = Parser::new(&mut lex);
        let prog = p.parse_program();
        for i in &prog {
            println!("{}", i.print());
        }
        if prog.len() != 3 {
            assert!(false);
        }
        let pe = p.errors();
        if pe.len() > 0 {
            assert!(false);
        }
        assert_eq!(prog.len(), 3);
    }

    #[test]
    fn parse_prefix_ex() {
        let input: &'static str = "-5; !5;";
        let mut lex: Lexer = Lexer::init_lexer(input);
        let mut p: Parser = Parser::new(&mut lex);
        let prog = p.parse_program();
        for i in &prog {
            println!("{}", i.print());
        }

        println!("{:?}", p.errors());
    }

    #[test]
    fn parse_infix_ex() {
        let input: &'static str = "10 + 5; 5 > 6;";
        let mut lex: Lexer = Lexer::init_lexer(input);
        let mut p: Parser = Parser::new(&mut lex);
        let prog = p.parse_program();
        for i in &prog {
            println!("{}", i.print());
        }

        println!("{:?}", p.errors());
    }

    #[test]
    fn parse_boolean() {
        let input = "!true; false; let foobar = true; let barfoo = false;";
        let mut lex: Lexer = Lexer::init_lexer(input);
        let mut p: Parser = Parser::new(&mut lex);
        let prog = p.parse_program();
        for i in &prog {
            println!("{}", i.print());
        }
        println!("{:?}", p.errors());
    }

    #[test]
    fn parse_group() {
        let input = "1 + (2 + 3) + 4;";
        let mut lex: Lexer = Lexer::init_lexer(input);
        let mut p: Parser = Parser::new(&mut lex);
        let prog = p.parse_program();
        for i in &prog {
            println!("{}", i.print());
        }
        println!("{:?}", p.errors());
    }

    #[test]
    fn parse_if() {
        let input = "if(x < y) {x} else {y};";
        let mut lex: Lexer = Lexer::init_lexer(input);
        let mut p: Parser = Parser::new(&mut lex);
        let prog = p.parse_program();
        for i in &prog {
            println!("{}", i.print());
        }
        println!("{:?}", p.errors());
    }

    #[test]
    fn parse_fun() {
        let input = "fn(x) {let x = 3;}; fn(x, y) {let y = 1;};";
        let mut lex: Lexer = Lexer::init_lexer(input);
        let mut p: Parser = Parser::new(&mut lex);
        let prog = p.parse_program();
        for i in &prog {
            println!("{}", i.print());
        }
        println!("{:?}", p.errors());
    }

    #[test]
    fn parse_call() {
        let input = " a + add(b * c) + d;";
        let mut lex: Lexer = Lexer::init_lexer(input);
        let mut p: Parser = Parser::new(&mut lex);
        let prog = p.parse_program();
        for i in &prog {
            println!("{}", i.print());
        }
        println!("{:?}", p.errors());
    }

