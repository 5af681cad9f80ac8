use monkey::ast::Program;
use monkey::eval::eval_prog;
use monkey::lexer::Lexer;
use monkey::object::Environment;
use monkey::parser::Parser;

    
    
    
    

    #[test]
    fn string_test() {
        let mut env = Environment::new();
        let input = "let makeGreeter = fn(x) {fn(y) {return x + y; };};
         let hello = makeGreeter(\"Hello\");
         let x = hello( \"William\");
         return x;";
        let mut lex = Lexer::init_lexer(input);
        let mut par = Parser::new(&mut lex);
        let program: Program = par.parse_program();
        let evaluated = eval_prog(program, &mut env);
        println!("{}", evaluated.inspect());
    }

    #[test]
    fn eval_let_test() {
        let mut env = Environment::new();
        let input = "let f = fn(x, y) {
            let result = x + y + 10;
            return result;
         };
         let y = f(11, 12);
         return y;";
        let mut lex = Lexer::init_lexer(input);
        let mut par = Parser::new(&mut lex);
        let program: Program = par.parse_program();
        let evaluated = eval_prog(program, &mut env);
        println!("{}", evaluated.inspect());
    }

    #[test]
    fn err_test() {
        let mut env = Environment::new();
        let input = "5 + true;";
        let mut lex = Lexer::init_lexer(input);
        let mut par = Parser::new(&mut lex);
        let program: Program = par.parse_program();
        let evaluated = eval_prog(program, &mut env);
        println!("{}", evaluated.inspect());
    }

