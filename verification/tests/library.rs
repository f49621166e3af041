use rlox::interpreter::{
    Action, Applied, Arithmetic, Environment, Event, Interpreter, LoxCallable, LoxFunction,
    Printed, Request, RuntimeError,
};
use rlox::lexer::{Lexer, LexerError, LexerErrorKind, Token, TokenKind};
use rlox::parser::value::{is_nan, is_zero, negate, numbers_equal, numbers_less, texts_less};
use rlox::parser::{Expr, Literal, ParseErrorKind, Parser, Stmt, Value};
use rlox::resolver::{ResolveError, Resolver, VariableState};
use rlox::text::decimal_text;
use rlox::{run_source_code, LoxError, Program};

fn compute(request: &Request) -> u64 {
    match request {
        Request::Literal(digits) => digits.parse::<f64>().unwrap().to_bits(),
        Request::Arithmetic {
            operator,
            left,
            right,
        } => {
            let a = f64::from_bits(*left);
            let b = f64::from_bits(*right);
            let result = match operator {
                Arithmetic::Add => a + b,
                Arithmetic::Subtract => a - b,
                Arithmetic::Multiply => a * b,
                Arithmetic::Divide => a / b,
            };
            result.to_bits()
        }
    }
}

/// Runs the program to its end and returns what it printed, line by
/// line, and the error that ended it, if one did.
fn run(source_code: &str) -> (Vec<String>, Option<RuntimeError>) {
    let Program { stmts, resolver } = run_source_code(source_code).unwrap();
    let mut interpreter = Interpreter::new(resolver);
    interpreter.interpret(&stmts);
    let mut lines = Vec::new();
    let mut event = Event::Resume;
    let mut steps = 0;
    loop {
        steps += 1;
        assert!(steps < 1_000_000, "the program does not end");
        let action = interpreter.step(event);
        event = Event::Resume;
        match action {
            Action::Continue => {}
            Action::Print(Printed::Text(text)) => lines.push(text),
            Action::Print(Printed::Number(bits)) => lines.push(format!("{}", f64::from_bits(bits))),
            Action::Number(request) => event = Event::Number(compute(&request)),
            Action::Finished => return (lines, None),
            Action::Failed(error) => return (lines, Some(error)),
            Action::Stuck => panic!("the machine is stuck"),
        }
    }
}

fn output(source_code: &str) -> String {
    let (lines, error) = run(source_code);
    assert!(error.is_none(), "runtime error: {:?}", error);
    lines.join("\n")
}

fn lex(source_code: &str) -> Result<Vec<Token>, LexerError> {
    Lexer::new(source_code).tokenize()
}

fn kinds(source_code: &str) -> Vec<TokenKind> {
    lex(source_code)
        .unwrap()
        .iter()
        .map(|token| token.kind().clone())
        .collect()
}

fn identifier(name: &str) -> TokenKind {
    TokenKind::Identifier(name.to_string())
}

fn parse(source_code: &str) -> (Vec<Stmt>, Vec<String>) {
    let mut parser = Parser::new(lex(source_code).unwrap());
    let stmts = parser.parse();
    let errors = parser.errors().iter().map(|e| e.to_text()).collect();
    (stmts, errors)
}

fn parse_expr(source_code: &str) -> Expr {
    let (mut stmts, errors) = parse(source_code);
    assert_eq!(errors, Vec::<String>::new());
    assert_eq!(stmts.len(), 1);
    match stmts.remove(0) {
        Stmt::ExprStmt { expr } => *expr,
        other => panic!("expected an expression statement, got {:?}", other),
    }
}

/// An expression with all its brackets.
fn shape(expr: &Expr) -> String {
    match expr {
        Expr::Unary { op, right } => format!("({} {})", op.kind().name(), shape(right)),
        Expr::Binary { left, op, right } => {
            format!("({} {} {})", shape(left), op.kind().name(), shape(right))
        }
        Expr::Grouping(inner) => format!("[{}]", shape(inner)),
        Expr::Literal(Literal::Number(digits)) => digits.clone(),
        Expr::Literal(Literal::Str(text)) => format!("{:?}", text),
        Expr::Literal(Literal::Bool(b)) => format!("{}", b),
        Expr::Literal(Literal::Nil) => "nil".to_string(),
        Expr::Variable { id, variable } => {
            format!("{}#{}", variable.extract_identifier(), id)
        }
        Expr::Assignment {
            id,
            variable,
            expr,
        } => format!("({}#{} = {})", variable.extract_identifier(), id, shape(expr)),
        Expr::Logical { left, op, right } => {
            format!("({} {} {})", shape(left), op.kind().name(), shape(right))
        }
        Expr::FunCall { callee, args, .. } => {
            let args: Vec<String> = args.iter().map(|arg| shape(arg)).collect();
            format!("{}({})", shape(callee), args.join(", "))
        }
    }
}

fn stmt_shape(stmt: &Stmt) -> String {
    match stmt {
        Stmt::ExprStmt { expr } => format!("{};", shape(expr)),
        Stmt::PrintStmt { expr } => format!("print {};", shape(expr)),
        Stmt::VarDecl { variable, expr } => match expr {
            Some(expr) => format!("var {} = {};", variable.extract_identifier(), shape(expr)),
            None => format!("var {};", variable.extract_identifier()),
        },
        Stmt::Block { stmts } => {
            let stmts: Vec<String> = stmts.iter().map(stmt_shape).collect();
            format!("{{ {} }}", stmts.join(" "))
        }
        Stmt::If {
            condition,
            then_stmt,
            else_stmt,
        } => match else_stmt {
            Some(else_stmt) => format!(
                "if {} {} else {}",
                shape(condition),
                stmt_shape(then_stmt),
                stmt_shape(else_stmt)
            ),
            None => format!("if {} {}", shape(condition), stmt_shape(then_stmt)),
        },
        Stmt::While { condition, body } => {
            format!("while {} {}", shape(condition), stmt_shape(body))
        }
        Stmt::FunDecl { name, params, body } => {
            let params: Vec<String> = params
                .iter()
                .map(|p| p.extract_identifier().clone())
                .collect();
            format!(
                "fun {}({}) {}",
                name.extract_identifier(),
                params.join(", "),
                stmt_shape(body)
            )
        }
        Stmt::Return { expr } => format!("return {};", shape(expr)),
    }
}

fn expr_ids(expr: &Expr, ids: &mut Vec<usize>) {
    match expr {
        Expr::Unary { right, .. } => expr_ids(right, ids),
        Expr::Binary { left, right, .. } | Expr::Logical { left, right, .. } => {
            expr_ids(left, ids);
            expr_ids(right, ids);
        }
        Expr::Grouping(inner) => expr_ids(inner, ids),
        Expr::Literal(_) => {}
        Expr::Variable { id, .. } => ids.push(*id),
        Expr::Assignment { id, expr, .. } => {
            ids.push(*id);
            expr_ids(expr, ids);
        }
        Expr::FunCall { callee, args, .. } => {
            expr_ids(callee, ids);
            for arg in args {
                expr_ids(arg, ids);
            }
        }
    }
}

fn stmt_ids(stmt: &Stmt, ids: &mut Vec<usize>) {
    match stmt {
        Stmt::ExprStmt { expr } | Stmt::PrintStmt { expr } | Stmt::Return { expr } => {
            expr_ids(expr, ids)
        }
        Stmt::VarDecl { expr, .. } => {
            if let Some(expr) = expr {
                expr_ids(expr, ids);
            }
        }
        Stmt::Block { stmts } => {
            for stmt in stmts {
                stmt_ids(stmt, ids);
            }
        }
        Stmt::If {
            condition,
            then_stmt,
            else_stmt,
        } => {
            expr_ids(condition, ids);
            stmt_ids(then_stmt, ids);
            if let Some(else_stmt) = else_stmt {
                stmt_ids(else_stmt, ids);
            }
        }
        Stmt::While { condition, body } => {
            expr_ids(condition, ids);
            stmt_ids(body, ids);
        }
        Stmt::FunDecl { body, .. } => stmt_ids(body, ids),
    }
}

fn resolve(source_code: &str) -> (Vec<Stmt>, Resolver) {
    let (stmts, errors) = parse(source_code);
    assert_eq!(errors, Vec::<String>::new());
    let mut resolver = Resolver::new();
    resolver.resolve(&stmts);
    (stmts, resolver)
}

fn front_end_errors(source_code: &str) -> Vec<LoxError> {
    match run_source_code(source_code) {
        Ok(_) => Vec::new(),
        Err(errors) => errors,
    }
}

// The lexer.

#[test]
fn tokens_end_with_the_only_eof() {
    for source in ["", "   \n\t", "var a = 1;", "a.b(c) >= !d", "\"text\" 1.5 x_1"] {
        let kinds = kinds(source);
        assert_eq!(kinds.last(), Some(&TokenKind::Eof));
        assert_eq!(kinds.iter().filter(|k| **k == TokenKind::Eof).count(), 1);
    }
}

#[test]
fn punctuation_and_operators_are_lexed() {
    assert_eq!(
        kinds("(){},.-+;/*"),
        vec![
            TokenKind::LeftParen,
            TokenKind::RightParen,
            TokenKind::LeftBrace,
            TokenKind::RightBrace,
            TokenKind::Comma,
            TokenKind::Dot,
            TokenKind::Minus,
            TokenKind::Plus,
            TokenKind::Semicolon,
            TokenKind::Slash,
            TokenKind::Star,
            TokenKind::Eof,
        ]
    );
    assert_eq!(
        kinds("! != = == > >= < <="),
        vec![
            TokenKind::Bang,
            TokenKind::BangEqual,
            TokenKind::Equal,
            TokenKind::EqualEqual,
            TokenKind::Greater,
            TokenKind::GreaterEqual,
            TokenKind::Less,
            TokenKind::LessEqual,
            TokenKind::Eof,
        ]
    );
    assert_eq!(
        kinds("==="),
        vec![TokenKind::EqualEqual, TokenKind::Equal, TokenKind::Eof]
    );
    assert_eq!(kinds("!"), vec![TokenKind::Bang, TokenKind::Eof]);
}

#[test]
fn keywords_are_told_from_identifiers() {
    assert_eq!(
        kinds("and class else false fun for if nil or print return super this true var while"),
        vec![
            TokenKind::And,
            TokenKind::Class,
            TokenKind::Else,
            TokenKind::False,
            TokenKind::Fun,
            TokenKind::For,
            TokenKind::If,
            TokenKind::Nil,
            TokenKind::Or,
            TokenKind::Print,
            TokenKind::Return,
            TokenKind::Super,
            TokenKind::This,
            TokenKind::True,
            TokenKind::Var,
            TokenKind::While,
            TokenKind::Eof,
        ]
    );
    assert_eq!(
        kinds("fort a_1 For x9 iff"),
        vec![
            identifier("fort"),
            identifier("a_1"),
            identifier("For"),
            identifier("x9"),
            identifier("iff"),
            TokenKind::Eof,
        ]
    );
}

#[test]
fn a_token_carries_the_place_behind_it() {
    let tokens = lex("=").unwrap();
    assert_eq!((tokens[0].line(), tokens[0].col()), (1, 2));
    assert_eq!((tokens[1].line(), tokens[1].col()), (1, 2));

    let tokens = lex("ab\n  cd").unwrap();
    assert_eq!(tokens[0].kind(), &identifier("ab"));
    assert_eq!((tokens[0].line(), tokens[0].col()), (1, 3));
    assert_eq!(tokens[1].kind(), &identifier("cd"));
    assert_eq!((tokens[1].line(), tokens[1].col()), (2, 5));
    assert_eq!((tokens[2].line(), tokens[2].col()), (2, 5));
}

#[test]
fn a_string_may_span_lines() {
    let tokens = lex("\"a\nb\" x").unwrap();
    assert_eq!(tokens[0].kind(), &TokenKind::String("a\nb".to_string()));
    assert_eq!((tokens[0].line(), tokens[0].col()), (2, 3));
    assert_eq!(tokens[1].kind(), &identifier("x"));
    assert_eq!(kinds("\"\""), vec![TokenKind::String(String::new()), TokenKind::Eof]);
}

#[test]
fn an_unterminated_string_is_an_error() {
    let error = lex("\"Hello").unwrap_err();
    assert!(matches!(error.kind(), LexerErrorKind::UnterminatedString));
    assert_eq!((error.line(), error.col()), (1, 7));
    assert_eq!(error.to_text(), "l1:c7 unterminated string");
    let error = lex("x \"a\nb").unwrap_err();
    assert!(matches!(error.kind(), LexerErrorKind::UnterminatedString));
    assert_eq!((error.line(), error.col()), (2, 2));
}

#[test]
fn a_number_keeps_its_digits() {
    assert_eq!(
        kinds("1. 007 12.50"),
        vec![
            TokenKind::Number("1.".to_string()),
            TokenKind::Number("007".to_string()),
            TokenKind::Number("12.50".to_string()),
            TokenKind::Eof,
        ]
    );
    // Each run that the lexer takes for a number reads as a double.
    for digits in ["1.", "007", "12.50", "0", "3.14"] {
        assert!(digits.parse::<f64>().is_ok());
    }
    // A dot starts no number.
    assert_eq!(
        kinds(".5"),
        vec![TokenKind::Dot, TokenKind::Number("5".to_string()), TokenKind::Eof]
    );
}

#[test]
fn a_number_with_two_dots_is_an_error() {
    let error = lex("3.14.15").unwrap_err();
    match error.kind() {
        LexerErrorKind::InvalidNumber(digits) => {
            assert_eq!(digits, "3.14.15");
            assert!(digits.parse::<f64>().is_err());
        }
        other => panic!("expected an invalid number, got {:?}", other),
    }
    assert_eq!((error.line(), error.col()), (1, 8));
    assert_eq!(error.to_text(), "l1:c8 invalid number '3.14.15'");
    assert!(matches!(
        lex("1..2").unwrap_err().kind(),
        LexerErrorKind::InvalidNumber(_)
    ));
}

#[test]
fn other_characters_are_unexpected() {
    let error = lex("a @").unwrap_err();
    assert!(matches!(error.kind(), LexerErrorKind::UnexpectedChar('@')));
    assert_eq!((error.line(), error.col()), (1, 4));
    assert_eq!(error.to_text(), "l1:c4 unexpected char (code point 64)");
    assert!(matches!(
        lex("_x").unwrap_err().kind(),
        LexerErrorKind::UnexpectedChar('_')
    ));
    // Letters and digits are those of ASCII.
    assert!(matches!(
        lex("é").unwrap_err().kind(),
        LexerErrorKind::UnexpectedChar('é')
    ));
    // The first error ends the lex.
    assert!(matches!(
        lex("# \"open").unwrap_err().kind(),
        LexerErrorKind::UnexpectedChar('#')
    ));
}

#[test]
fn the_lexer_reads_character_by_character() {
    let mut lexer = Lexer::new("a\nb");
    assert_eq!(lexer.peek(), Some('a'));
    assert_eq!(lexer.consume(), Some('a'));
    assert_eq!(lexer.prev(), Some('a'));
    assert_eq!(lexer.consume(), Some('\n'));
    assert_eq!(lexer.peek(), Some('b'));
    assert_eq!(lexer.consume(), Some('b'));
    assert_eq!(lexer.peek(), None);
    assert_eq!(lexer.consume(), None);
    assert_eq!(lexer.prev(), Some('b'));
    let tokens = lexer.tokenize().unwrap();
    assert_eq!(tokens.len(), 1);
    assert_eq!((tokens[0].line(), tokens[0].col()), (2, 2));
}

#[test]
fn tokens_are_written_with_their_place() {
    let token = Token::new(3, 14, identifier("x"));
    assert_eq!(token.to_text(), "line 3 col 14 token identifier 'x'");
    assert_eq!(token.extract_identifier(), "x");
    assert_eq!(token.identifier(), Some(&"x".to_string()));
    let token = Token::new(1, 2, TokenKind::Fun);
    assert_eq!(token.to_text(), "line 1 col 2 token function");
    assert_eq!(token.identifier(), None);
    assert_eq!(TokenKind::Number("1.5".to_string()).to_text(), "number '1.5'");
    assert_eq!(TokenKind::String("s".to_string()).to_text(), "string 's'");
    assert_eq!(TokenKind::LessEqual.name(), "<=");
    assert_eq!(TokenKind::Eof.name(), "eof");
    assert!(identifier("a").same_variant(&identifier("b")));
    assert!(!identifier("a").same_variant(&TokenKind::String("a".to_string())));
    assert!(TokenKind::Comma.same_variant(&TokenKind::Comma));
    assert!(!TokenKind::Comma.same_variant(&TokenKind::Dot));
}

#[test]
fn numbers_are_written_in_decimal() {
    assert_eq!(decimal_text(0), "0");
    assert_eq!(decimal_text(7), "7");
    assert_eq!(decimal_text(10), "10");
    assert_eq!(decimal_text(12345), "12345");
    assert_eq!(decimal_text(usize::MAX), usize::MAX.to_string());
}

// The parser.

#[test]
fn operators_bind_by_their_level() {
    assert_eq!(shape(&parse_expr("1 + 2 * 3;")), "(1 + (2 * 3))");
    assert_eq!(shape(&parse_expr("1 * 2 + 3;")), "((1 * 2) + 3)");
    assert_eq!(shape(&parse_expr("1 - 2 - 3;")), "((1 - 2) - 3)");
    assert_eq!(shape(&parse_expr("8 / 4 / 2;")), "((8 / 4) / 2)");
    assert_eq!(
        shape(&parse_expr("1 < 2 == 3 >= 4;")),
        "((1 < 2) == (3 >= 4))"
    );
    assert_eq!(
        shape(&parse_expr("true or false and nil;")),
        "(true or (false and nil))"
    );
    assert_eq!(shape(&parse_expr("!-1;")), "(! (- 1))");
    assert_eq!(shape(&parse_expr("-1 * 2;")), "((- 1) * 2)");
    assert_eq!(shape(&parse_expr("(1 + 2) * 3;")), "([(1 + 2)] * 3)");
    assert_eq!(shape(&parse_expr("1 + 2 == 3 and 4;")), "(((1 + 2) == 3) and 4)");
}

#[test]
fn assignment_binds_from_the_right() {
    assert_eq!(shape(&parse_expr("a = b = 1;")), "(a#1 = (b#2 = 1))");
    assert_eq!(shape(&parse_expr("a = 1 or 2;")), "(a#1 = (1 or 2))");
}

#[test]
fn only_a_variable_is_assigned_to() {
    let (stmts, errors) = parse("1 = 2;");
    assert_eq!(stmts.len(), 0);
    assert_eq!(
        errors,
        vec!["line 1 col 2 token number '1', expected 'identifier'"]
    );
    let (_, errors) = parse("(a) = 2;");
    assert_eq!(errors, vec!["line 1 col 4 token ), expected 'identifier'"]);
}

#[test]
fn a_call_takes_one_list_of_arguments() {
    assert_eq!(shape(&parse_expr("f();")), "f#1()");
    assert_eq!(shape(&parse_expr("f(1, a, g(2));")), "f#1(1, a#2, g#3(2))");
    let (stmts, errors) = parse("f()();");
    assert_eq!(stmts.len(), 0);
    assert_eq!(errors, vec!["line 1 col 5 token (, expected ';'"]);
    let (_, errors) = parse("f(1 2);");
    assert_eq!(errors, vec!["line 1 col 6 token number '2', expected ','"]);
}

#[test]
fn statements_are_parsed() {
    let (stmts, errors) = parse(
        "var a; var b = 1; print b; { a = b; } if (a) print 1; else print 2; \
         while (a) a = nil; fun f(x, y) { return x; } if (b) {}",
    );
    assert_eq!(errors, Vec::<String>::new());
    let shapes: Vec<String> = stmts.iter().map(stmt_shape).collect();
    assert_eq!(
        shapes,
        vec![
            "var a;",
            "var b = 1;",
            "print b#1;",
            "{ (a#2 = b#3); }",
            "if a#4 print 1; else print 2;",
            "while a#5 (a#6 = nil);",
            "fun f(x, y) { return x#7; }",
            "if b#8 {  }",
        ]
    );
}

#[test]
fn a_for_stands_for_a_while() {
    let (stmts, errors) = parse("for (var i = 0; i < 2; i = i + 1) print i;");
    assert_eq!(errors, Vec::<String>::new());
    assert_eq!(
        stmt_shape(&stmts[0]),
        "{ var i = 0; while (i#1 < 2) { print i#4; (i#2 = (i#3 + 1)); } }"
    );
    // The block is there where the initializer is not.
    let (stmts, _) = parse("for (;;) print 1;");
    assert_eq!(stmt_shape(&stmts[0]), "{ while true print 1; }");
    match &stmts[0] {
        Stmt::Block { stmts } => {
            assert_eq!(stmts.len(), 1);
            assert!(matches!(
                &stmts[0],
                Stmt::While { condition, body }
                    if matches!(**condition, Expr::Literal(Literal::Bool(true)))
                        && matches!(**body, Stmt::PrintStmt { .. })
            ));
        }
        other => panic!("expected a block, got {:?}", other),
    }
    let (stmts, _) = parse("for (a = 1; a;) print 1;");
    assert_eq!(stmt_shape(&stmts[0]), "{ (a#1 = 1); while a#2 print 1; }");
    let (stmts, _) = parse("for (; ; a) {}");
    assert_eq!(stmt_shape(&stmts[0]), "{ while true { {  } a#1; } }");
    let (stmts, _) = parse("for (; a; a) print a;");
    assert_eq!(stmt_shape(&stmts[0]), "{ while a#1 { print a#3; a#2; } }");
}

#[test]
fn an_expression_is_missed() {
    let (stmts, errors) = parse("print ;");
    assert_eq!(stmts.len(), 0);
    assert_eq!(errors, vec!["line 1 col 8 token ;, expected an expression"]);
    let (_, errors) = parse("1 +");
    assert_eq!(errors, vec!["line 1 col 4 token eof, expected an expression"]);
    let (_, errors) = parse("print 1");
    assert_eq!(errors, vec!["line 1 col 8 token eof, expected ';'"]);
    let (_, errors) = parse("{ print 1;");
    assert_eq!(errors, vec!["line 1 col 11 token eof, expected '}'"]);
    let (_, errors) = parse("fun (a) {}");
    assert_eq!(errors, vec!["line 1 col 6 token (, expected 'identifier'"]);
    let parser = Parser::new(lex("print ;").unwrap());
    assert!(parser.errors().is_empty());
    let mut parser = Parser::new(lex("print ;").unwrap());
    parser.parse();
    assert!(matches!(
        parser.errors()[0].kind(),
        ParseErrorKind::ExpectedExpression
    ));
    assert_eq!(parser.errors()[0].token().kind(), &TokenKind::Semicolon);
    let mut parser = Parser::new(lex("print 1").unwrap());
    parser.parse();
    assert!(matches!(
        parser.errors()[0].kind(),
        ParseErrorKind::Expected(";")
    ));
}

#[test]
fn the_parser_takes_up_its_work_at_a_keyword() {
    let (stmts, errors) = parse("var 1; print 2; var ; print 3;");
    assert_eq!(errors.len(), 2);
    let shapes: Vec<String> = stmts.iter().map(stmt_shape).collect();
    assert_eq!(shapes, vec!["print 2;", "print 3;"]);

    // A semicolon is no place to start again.
    let (stmts, errors) = parse("1 + ; 2; print 3;");
    assert_eq!(errors.len(), 1);
    let shapes: Vec<String> = stmts.iter().map(stmt_shape).collect();
    assert_eq!(shapes, vec!["print 3;"]);

    // An error in a block gives the block up.
    let (stmts, errors) = parse("{ print 1; print ; } print 2;");
    assert_eq!(errors.len(), 1);
    let shapes: Vec<String> = stmts.iter().map(stmt_shape).collect();
    assert_eq!(shapes, vec!["print 2;"]);
}

#[test]
fn a_class_is_an_error_and_is_passed_over() {
    // The token is passed over, and what follows it is parsed.
    let (stmts, errors) = parse("class A {} print 1;");
    assert_eq!(
        errors,
        vec![
            "line 1 col 6 token class, expected an expression",
            "line 1 col 10 token {, expected ';'",
        ]
    );
    let (stmts_after, errors_after) = parse("class print 1;");
    assert_eq!(errors_after.len(), 1);
    assert_eq!(stmts_after.len(), 1);
    let shapes: Vec<String> = stmts.iter().map(stmt_shape).collect();
    assert_eq!(shapes, vec!["print 1;"]);
    let (stmts, errors) = parse("class");
    assert_eq!(errors.len(), 1);
    assert_eq!(stmts.len(), 0);
    let (_, errors) = parse("{ class }");
    assert_eq!(
        errors,
        vec![
            "line 1 col 8 token class, expected an expression",
            "line 1 col 8 token class, expected an expression",
            "line 1 col 10 token }, expected an expression",
        ]
    );
}

#[test]
fn each_use_of_a_variable_has_an_id_of_its_own() {
    let (stmts, errors) = parse(
        "var a = 1; fun f(x) { a = x + a; for (var i = a; i < x; i = i + 1) { print f(i, a); } } \
         while (a) { if (a) a = a; else print a; } return a;",
    );
    assert_eq!(errors, Vec::<String>::new());
    let mut ids = Vec::new();
    for stmt in &stmts {
        stmt_ids(stmt, &mut ids);
    }
    assert_eq!(ids.len(), 17);
    let mut sorted = ids.clone();
    sorted.sort();
    sorted.dedup();
    assert_eq!(sorted.len(), ids.len());
    assert_eq!(sorted, (1..=17).collect::<Vec<usize>>());

    // Ids stay apart where the parser went on after an error.
    let (stmts, errors) = parse("print a + ; print b; print c + c;");
    assert_eq!(errors.len(), 1);
    let mut ids = Vec::new();
    for stmt in &stmts {
        stmt_ids(stmt, &mut ids);
    }
    assert_eq!(ids, vec![2, 3, 4]);
}

// The resolver.

#[test]
fn a_use_is_bound_to_the_depth_of_its_declaration() {
    let (_, resolver) = resolve("var a = 1; { print a; { print a; } } print a;");
    assert!(resolver.errors().is_empty());
    assert_eq!(resolver.get_bound_depth(1), 1);
    assert_eq!(resolver.get_bound_depth(2), 2);
    assert_eq!(resolver.get_bound_depth(3), 0);
    assert_eq!(resolver.bound_depth(3), Some(0));
    assert_eq!(resolver.bound_depth(4), None);
    assert_eq!(resolver.bound_depth(0), None);
}

#[test]
fn a_function_opens_a_scope_for_its_parameters() {
    let (_, resolver) = resolve("var a = 1; fun f(x) { print x; print a; print f; } f(a);");
    assert!(resolver.errors().is_empty());
    // x lies one scope around the body, a and f two.
    assert_eq!(resolver.get_bound_depth(1), 1);
    assert_eq!(resolver.get_bound_depth(2), 2);
    assert_eq!(resolver.get_bound_depth(3), 2);
    assert_eq!(resolver.get_bound_depth(4), 0);
    assert_eq!(resolver.get_bound_depth(5), 0);
}

#[test]
fn an_initializer_is_resolved_before_its_variable() {
    let (_, resolver) = resolve("var a = 1; { var a = a; print a; }");
    assert!(resolver.errors().is_empty());
    assert_eq!(resolver.get_bound_depth(1), 1);
    assert_eq!(resolver.get_bound_depth(2), 0);
    let (_, resolver) = resolve("var a = a;");
    assert!(matches!(
        resolver.errors()[0],
        ResolveError::UndeclaredVariable(_)
    ));
}

#[test]
fn the_resolver_names_what_is_wrong() {
    let kinds = |source: &str| -> Vec<String> {
        let (_, resolver) = resolve(source);
        resolver.errors().iter().map(|e| e.to_text()).collect()
    };
    assert_eq!(
        kinds("print a;"),
        vec!["line 1 col 8 token identifier 'a' undeclared reference"]
    );
    assert_eq!(
        kinds("a = 1;"),
        vec!["line 1 col 2 token identifier 'a' undeclared reference"]
    );
    assert_eq!(
        kinds("var a;"),
        vec!["line 1 col 6 token identifier 'a' unassigned reference"]
    );
    assert_eq!(
        kinds("var a; print a;"),
        vec!["line 1 col 6 token identifier 'a' unassigned reference"]
    );
    assert_eq!(
        kinds("var a = 1;"),
        vec!["line 1 col 6 token identifier 'a' unused reference"]
    );
    assert_eq!(
        kinds("var a; a = 1;"),
        vec!["line 1 col 6 token identifier 'a' unused reference"]
    );
    assert_eq!(
        kinds("var a = 1; var a = 2; print a;"),
        vec!["line 1 col 17 token identifier 'a' overshadowing reference in the same block"]
    );
    // The error closes the scope of the parameters, whose variables are
    // not looked at.
    assert_eq!(
        kinds("fun f(a, a) { print a; } f(1, 2);"),
        vec!["line 1 col 11 token identifier 'a' overshadowing reference in the same block"]
    );
    assert_eq!(kinds("var a = 1; { var a = 2; print a; } print a;"), Vec::<String>::new());
    // All that is wrong with the variables of the program is found, in the
    // order of their declarations, behind the errors of the statements.
    assert_eq!(
        kinds("var a; var b = 1; print c; var d = 2; print d;"),
        vec![
            "line 1 col 26 token identifier 'c' undeclared reference",
            "line 1 col 6 token identifier 'a' unassigned reference",
            "line 1 col 13 token identifier 'b' unused reference",
        ]
    );
    // Of the variables of a block the first that is wrong is found.
    assert_eq!(
        kinds("{ var a; var b; }"),
        vec!["line 1 col 8 token identifier 'a' unassigned reference"]
    );
}

#[test]
fn an_error_in_a_block_closes_its_scope() {
    let errors = |source: &str| -> Vec<String> {
        let (_, resolver) = resolve(source);
        resolver.errors().iter().map(|e| e.to_text()).collect()
    };
    assert_eq!(
        errors("{ print x; } var a = 1; print a;"),
        vec!["line 1 col 10 token identifier 'x' undeclared reference"]
    );
    // The variables of the program are looked at, whatever went wrong in
    // a block.
    assert_eq!(
        errors("var b; { print x; }"),
        vec![
            "line 1 col 17 token identifier 'x' undeclared reference",
            "line 1 col 6 token identifier 'b' unassigned reference",
        ]
    );
    assert_eq!(
        errors("var b; { { { print x; } } }"),
        vec![
            "line 1 col 21 token identifier 'x' undeclared reference",
            "line 1 col 6 token identifier 'b' unassigned reference",
        ]
    );
    // The variables of the block are not: its error is the one met
    // first.
    assert_eq!(
        errors("{ var c; print x; }"),
        vec!["line 1 col 17 token identifier 'x' undeclared reference"]
    );
    // What follows the block is resolved in the scope of the program.
    assert_eq!(
        errors("{ var c = 1; print x; } var c = 2; print c;"),
        vec!["line 1 col 21 token identifier 'x' undeclared reference"]
    );
}

#[test]
fn an_error_in_a_function_closes_its_scope() {
    let errors = |source: &str| -> Vec<String> {
        let (_, resolver) = resolve(source);
        resolver.errors().iter().map(|e| e.to_text()).collect()
    };
    assert_eq!(
        errors("var b; fun f(a) { print x; }"),
        vec![
            "line 1 col 26 token identifier 'x' undeclared reference",
            "line 1 col 6 token identifier 'b' unassigned reference",
            "line 1 col 13 token identifier 'f' unused reference",
        ]
    );
    assert_eq!(
        errors("var b; fun f(a, a) { print a; }"),
        vec![
            "line 1 col 18 token identifier 'a' overshadowing reference in the same block",
            "line 1 col 6 token identifier 'b' unassigned reference",
            "line 1 col 13 token identifier 'f' unused reference",
        ]
    );
    // A use behind the function is bound at the depth of the program.
    let (stmts, resolver) = resolve("fun f(a) { print x; } var c = 1; print c; f(c);");
    assert_eq!(resolver.errors().len(), 1);
    match &stmts[2] {
        Stmt::PrintStmt { expr } => match &**expr {
            Expr::Variable { id, .. } => assert_eq!(resolver.bound_depth(*id), Some(0)),
            other => panic!("expected a variable, got {:?}", other),
        },
        other => panic!("expected a print, got {:?}", other),
    }
}

#[test]
fn a_variable_state_is_checked() {
    let token = Token::new(1, 1, identifier("a"));
    let state = VariableState::new(token.clone());
    assert_eq!(state.token().to_text(), token.to_text());
    assert!(matches!(
        state.verdict(),
        Err(ResolveError::UnassignedVariable(_))
    ));
    assert!(matches!(
        state.check(),
        Err(ResolveError::UnassignedVariable(_))
    ));
    let mut state = VariableState::new(token.clone());
    state.mark_assigned();
    assert!(matches!(state.verdict(), Err(ResolveError::UnusedVariable(_))));
    let mut state = VariableState::new(token.clone());
    state.mark_read();
    assert!(matches!(
        state.verdict(),
        Err(ResolveError::UnassignedVariable(_))
    ));
    state.mark_assigned();
    assert!(state.verdict().is_ok());
    assert!(state.check().is_ok());
    let error = ResolveError::UnusedVariable(token.clone());
    assert_eq!(error.token().to_text(), token.to_text());
    assert_eq!(error.clone().to_text(), error.to_text());
}

// Numbers, as their bits.

fn doubles() -> Vec<f64> {
    vec![
        0.0,
        -0.0,
        1.0,
        -1.0,
        1.5,
        -1.5,
        2.0,
        0.1,
        1e-310,
        -1e-310,
        f64::MIN_POSITIVE,
        f64::MAX,
        f64::MIN,
        f64::EPSILON,
        f64::INFINITY,
        f64::NEG_INFINITY,
        f64::NAN,
        -f64::NAN,
        f64::from_bits(0x7ff0_0000_0000_0001),
        f64::from_bits(0xffff_ffff_ffff_ffff),
        3.14,
        1e300,
        -1e300,
    ]
}

#[test]
fn numbers_compare_as_doubles_do() {
    for a in doubles() {
        assert_eq!(is_nan(a.to_bits()), a.is_nan(), "is_nan({a})");
        assert_eq!(is_zero(a.to_bits()), a == 0.0, "is_zero({a})");
        assert_eq!(negate(a.to_bits()), (-a).to_bits(), "negate({a})");
        for b in doubles() {
            assert_eq!(numbers_less(a.to_bits(), b.to_bits()), a < b, "{a} < {b}");
            assert_eq!(numbers_equal(a.to_bits(), b.to_bits()), a == b, "{a} == {b}");
        }
    }
    assert!(numbers_less(1.0f64.to_bits(), 2.0f64.to_bits()));
    assert!(!numbers_less(2.0f64.to_bits(), 1.0f64.to_bits()));
    assert!(numbers_equal(0.0f64.to_bits(), (-0.0f64).to_bits()));
    assert!(!numbers_equal(f64::NAN.to_bits(), f64::NAN.to_bits()));
}

#[test]
fn comparisons_of_numbers_follow_doubles() {
    let op = |kind: TokenKind| Token::new(1, 1, kind);
    let holds = |applied: Applied| match applied {
        Applied::Value(Value::Bool(b)) => b,
        other => panic!("expected a boolean, got {:?}", other),
    };
    for a in doubles() {
        for b in doubles() {
            let left = || Value::Number(a.to_bits());
            let right = || Value::Number(b.to_bits());
            let apply =
                |kind: TokenKind| holds(Interpreter::eval_binary_expr(left(), &op(kind), right()));
            assert_eq!(apply(TokenKind::Greater), a > b, "{a} > {b}");
            assert_eq!(apply(TokenKind::GreaterEqual), a >= b, "{a} >= {b}");
            assert_eq!(apply(TokenKind::Less), a < b, "{a} < {b}");
            assert_eq!(apply(TokenKind::LessEqual), a <= b, "{a} <= {b}");
            assert_eq!(apply(TokenKind::EqualEqual), a == b, "{a} == {b}");
            assert_eq!(apply(TokenKind::BangEqual), a != b, "{a} != {b}");
        }
    }
}

#[test]
fn strings_compare_as_in_a_dictionary() {
    let texts = ["", "a", "ab", "b", "B", "aa", "é", "z", "zé", "日本", "日"];
    for a in texts {
        for b in texts {
            assert_eq!(texts_less(a, b), a < b, "{a:?} < {b:?}");
        }
    }
    let op = |kind: TokenKind| Token::new(1, 1, kind);
    let holds = |applied: Applied| match applied {
        Applied::Value(Value::Bool(b)) => b,
        other => panic!("expected a boolean, got {:?}", other),
    };
    for a in texts {
        for b in texts {
            let left = || Value::Str(a.to_string());
            let right = || Value::Str(b.to_string());
            let apply =
                |kind: TokenKind| holds(Interpreter::eval_binary_expr(left(), &op(kind), right()));
            assert_eq!(apply(TokenKind::Greater), a > b, "{a:?} > {b:?}");
            assert_eq!(apply(TokenKind::GreaterEqual), a >= b, "{a:?} >= {b:?}");
            assert_eq!(apply(TokenKind::Less), a < b, "{a:?} < {b:?}");
            assert_eq!(apply(TokenKind::LessEqual), a <= b, "{a:?} <= {b:?}");
            assert_eq!(apply(TokenKind::EqualEqual), a == b, "{a:?} == {b:?}");
            assert_eq!(apply(TokenKind::BangEqual), a != b, "{a:?} != {b:?}");
        }
    }
}

#[test]
fn operators_ask_for_arithmetic() {
    let op = |kind: TokenKind| Token::new(1, 1, kind);
    let one = || Value::Number(1.0f64.to_bits());
    let two = || Value::Number(2.0f64.to_bits());
    for (kind, operator) in [
        (TokenKind::Plus, Arithmetic::Add),
        (TokenKind::Minus, Arithmetic::Subtract),
        (TokenKind::Star, Arithmetic::Multiply),
        (TokenKind::Slash, Arithmetic::Divide),
    ] {
        match Interpreter::eval_binary_expr(one(), &op(kind.clone()), two()) {
            Applied::Arithmetic(asked, left, right) => {
                assert_eq!(asked, operator);
                assert_eq!(left, 1.0f64.to_bits());
                assert_eq!(right, 2.0f64.to_bits());
            }
            other => panic!("expected a request, got {:?}", other),
        }
        match Interpreter::eval_binary_expr(one(), &op(kind.clone()), Value::Nil) {
            Applied::Failed(RuntimeError::UndefinedOpBetween(left, token, right)) => {
                assert!(matches!(left, Value::Number(_)));
                assert!(token.kind().same_variant(&kind));
                assert!(matches!(right, Value::Nil));
            }
            other => panic!("expected an error, got {:?}", other),
        }
    }
    assert!(matches!(
        Interpreter::eval_binary_expr(
            Value::Str("a".to_string()),
            &op(TokenKind::Plus),
            Value::Str("b".to_string())
        ),
        Applied::Value(Value::Str(text)) if text == "ab"
    ));
    assert!(matches!(
        Interpreter::eval_binary_expr(
            Value::Str("a".to_string()),
            &op(TokenKind::Minus),
            Value::Str("b".to_string())
        ),
        Applied::Failed(RuntimeError::UndefinedOpBetween(..))
    ));
    assert!(matches!(
        Interpreter::eval_binary_expr(one(), &op(TokenKind::Less), Value::Str("b".to_string())),
        Applied::Failed(RuntimeError::UndefinedOpBetween(..))
    ));
    assert!(matches!(
        Interpreter::eval_binary_expr(Value::Bool(true), &op(TokenKind::Less), Value::Bool(false)),
        Applied::Failed(RuntimeError::UndefinedOpBetween(..))
    ));
    assert!(matches!(
        Interpreter::eval_binary_expr(one(), &op(TokenKind::Comma), two()),
        Applied::Stuck
    ));
    assert!(matches!(
        Interpreter::eval_unary_expr(&op(TokenKind::Minus), one()),
        Applied::Value(Value::Number(bits)) if bits == (-1.0f64).to_bits()
    ));
    assert!(matches!(
        Interpreter::eval_unary_expr(&op(TokenKind::Minus), Value::Nil),
        Applied::Failed(RuntimeError::ExpectedNumber(_))
    ));
    assert!(matches!(
        Interpreter::eval_unary_expr(&op(TokenKind::Bang), Value::Nil),
        Applied::Value(Value::Bool(true))
    ));
    assert!(matches!(
        Interpreter::eval_unary_expr(&op(TokenKind::Plus), one()),
        Applied::Stuck
    ));
}

#[test]
fn every_value_counts_as_true_or_as_false() {
    let values = vec![
        (Value::Bool(true), true),
        (Value::Bool(false), false),
        (Value::Nil, false),
        (Value::Number(0.0f64.to_bits()), false),
        (Value::Number((-0.0f64).to_bits()), false),
        (Value::Number(1.0f64.to_bits()), true),
        (Value::Number(f64::NAN.to_bits()), true),
        (Value::Str(String::new()), false),
        (Value::Str("a".to_string()), true),
        (Value::Str("0".to_string()), true),
        (Value::Callable(0), true),
    ];
    for (value, truthy) in values {
        assert_eq!(value.is_truthy(), truthy, "{:?}", value);
        assert_eq!(value.is_falsy(), !truthy, "{:?}", value);
        assert_eq!(value.clone().is_truthy(), truthy);
    }
    assert_eq!(Value::Nil.kind_name(), "nil");
    assert_eq!(Value::Number(0).kind_name(), "a number");
}

// The evaluator.

#[test]
fn arithmetic_is_that_of_doubles() {
    assert_eq!(output("print 7 / 2;"), "3.5");
    assert_eq!(output("print 0.1 + 0.2;"), "0.30000000000000004");
    assert_eq!(output("print 1 / 0;"), "inf");
    assert_eq!(output("print -1 / 0;"), "-inf");
    assert_eq!(output("print 0 / 0 == 0 / 0;"), "false");
    assert_eq!(output("print 2 * 3 - 4 / 8;"), "5.5");
    assert_eq!(output("print -(1 + 2);"), "-3");
    assert_eq!(output("print 1.;"), "1");
    assert_eq!(output("print 100000000000000000000000;"), "100000000000000000000000");
    assert_eq!(output("print 1 - 1 - 1;"), "-1");
}

#[test]
fn values_are_printed() {
    assert_eq!(
        output("print nil; print true; print false; print \"a b\"; print \"\"; print 1.50;"),
        "nil\ntrue\nfalse\na b\n\n1.5"
    );
    assert_eq!(output("fun f() {} print f;"), "<callable f>");
    assert_eq!(output("fun f() {} print f();"), "nil");
    assert_eq!(output("var a; a = 1; print a = 2; print a;"), "2\n2");
}

#[test]
fn strings_are_joined_and_compared() {
    assert_eq!(output("print \"a\" + \"b\" + \"c\";"), "abc");
    assert_eq!(
        output("print \"a\" < \"b\"; print \"b\" <= \"a\"; print \"a\" >= \"a\"; print \"b\" > \"a\";"),
        "true\nfalse\ntrue\ntrue"
    );
}

#[test]
fn equality_is_defined_between_all_values() {
    assert_eq!(
        output(
            "print nil == nil; print 1 == 1; print \"a\" == \"a\"; print true == false; \
             print 1 == \"1\"; print nil != 1; print nil == false; print \"a\" != \"b\"; \
             fun f() {} print f == f; print f != f;"
        ),
        "true\ntrue\ntrue\nfalse\nfalse\ntrue\nfalse\ntrue\nfalse\ntrue"
    );
}

#[test]
fn zero_and_the_empty_string_count_as_false() {
    assert_eq!(
        output(
            "if (0) print \"t\"; else print \"f\"; if (\"\") print \"t\"; else print \"f\"; \
             if (1) print \"t\"; if (nil) print \"t\"; if (\"a\") print \"t\"; \
             print !0; print !1; print !nil; print !\"\";"
        ),
        "f\nf\nt\nt\ntrue\nfalse\ntrue\ntrue"
    );
}

#[test]
fn logical_operators_give_booleans() {
    assert_eq!(
        output(
            "print 1 or 2; print nil or 2; print nil or 0; print 1 and 2; print 1 and 0; \
             print 0 and 1; print \"\" or \"a\";"
        ),
        "true\ntrue\nfalse\ntrue\nfalse\nfalse\ntrue"
    );
    assert_eq!(
        output(
            "fun f() { print \"called\"; return true; } \
             print true or f(); print false and f(); print false or f(); print true and f();"
        ),
        "true\nfalse\ncalled\ntrue\ncalled\ntrue"
    );
}

#[test]
fn runtime_errors_end_the_program() {
    let (lines, error) = run("print 1; print 1 + \"a\"; print 2;");
    assert_eq!(lines, vec!["1"]);
    let error = error.unwrap();
    assert!(matches!(error, RuntimeError::UndefinedOpBetween(..)));
    assert_eq!(
        error.to_text(),
        "line 1 col 19 token + is not defined between a number and a string"
    );

    let (lines, error) = run("print -\"a\";");
    assert!(lines.is_empty());
    let error = error.unwrap();
    assert!(matches!(error, RuntimeError::ExpectedNumber(_)));
    assert_eq!(error.to_text(), "line 1 col 8 token - expected a number");

    let (_, error) = run("var a = 1; a();");
    let error = error.unwrap();
    assert!(matches!(error, RuntimeError::ExpectedCallable(_)));
    assert_eq!(error.to_text(), "line 1 col 15 token ) expected callable");

    let (_, error) = run("fun f(a) { print a; } f();");
    let error = error.unwrap();
    assert!(matches!(error, RuntimeError::CallableBadArgsCount(_)));
    assert_eq!(
        error.to_text(),
        "line 1 col 26 token ) called with too few or too many args"
    );
    let lox = LoxError::RuntimeError(error);
    assert_eq!(
        lox.to_text(),
        "RuntimeError: line 1 col 26 token ) called with too few or too many args"
    );
}

#[test]
fn arguments_wait_for_the_check_of_their_number() {
    let (lines, error) =
        run("fun f(a) { print a; } fun g() { print \"g\"; return 1; } f(g(), g());");
    assert!(lines.is_empty());
    assert!(matches!(error, Some(RuntimeError::CallableBadArgsCount(_))));
    assert_eq!(
        output("fun f(a, b) { print a + b; } fun g(x) { print x; return x; } f(g(1), g(2));"),
        "1\n2\n3"
    );
}

#[test]
fn a_return_ends_the_body_of_a_loop_and_not_the_loop() {
    assert_eq!(
        output(
            "fun f() { var i = 0; while (i < 3) { i = i + 1; return i; print \"no\"; } return 10; } \
             print f();"
        ),
        "10"
    );
    assert_eq!(output("fun f() { { { return 1; } } print \"no\"; } print f();"), "1");
    assert_eq!(
        output("fun f(a) { if (a) { return \"yes\"; } else { return \"no\"; } } print f(1); print f(0);"),
        "yes\nno"
    );
    // At the top of a program a return is dropped.
    assert_eq!(output("print 1; return 2; print 3;"), "1\n3");
}

#[test]
fn closures_see_later_assignments() {
    assert_eq!(
        output("var a = 1; fun f() { print a; } f(); a = 2; f();"),
        "1\n2"
    );
    assert_eq!(
        output(
            "fun make() { var n = 0; fun next() { n = n + 1; return n; } return next; } \
             var a = make(); var b = make(); print a(); print a(); print b(); print a();"
        ),
        "1\n2\n1\n3"
    );
}

#[test]
fn functions_call_themselves() {
    assert_eq!(
        output(
            "fun fib(n) { if (n < 2) { return n; } return fib(n - 1) + fib(n - 2); } \
             print fib(10); print fib(1); print fib(15);"
        ),
        "55\n1\n610"
    );
    assert_eq!(
        output("fun twice(f, x) { return f(f(x)); } fun inc(x) { return x + 1; } print twice(inc, 1);"),
        "3"
    );
}

#[test]
fn loops_run_while_their_condition_counts_as_true() {
    assert_eq!(
        output("var i = 3; while (i) { print i; i = i - 1; } print \"done\";"),
        "3\n2\n1\ndone"
    );
    assert_eq!(
        output(
            "var s = \"\"; for (var i = 0; i < 3; i = i + 1) for (var j = 0; j < 2; j = j + 1) \
             s = s + \"x\"; print s;"
        ),
        "xxxxxx"
    );
    assert_eq!(output("while (false) print 1; for (; false;) print 2;"), "");
}

#[test]
fn a_program_prints_the_same_each_time() {
    let source = "fun f(n) { if (n < 1) { return 0; } print n / 3; return f(n - 1); } print f(5);";
    assert_eq!(run(source).0, run(source).0);
    assert_eq!(output(source), "1.6666666666666667\n1.3333333333333333\n1\n0.6666666666666666\n0.3333333333333333\n0");
}

#[test]
fn the_machine_waits_for_the_number_it_asked_for() {
    let Program { stmts, resolver } = run_source_code("print 1 + 2;").unwrap();
    let mut interpreter = Interpreter::new(resolver);
    assert!(matches!(interpreter.step(Event::Resume), Action::Finished));
    interpreter.interpret(&stmts);
    let mut asked = Vec::new();
    let mut printed = Vec::new();
    let mut event = Event::Resume;
    loop {
        match interpreter.step(event) {
            Action::Number(request) => {
                // Asked again without an answer, the machine repeats itself.
                match (&request, interpreter.step(Event::Resume)) {
                    (Request::Literal(a), Action::Number(Request::Literal(b))) => assert_eq!(a, &b),
                    (
                        Request::Arithmetic { left, right, .. },
                        Action::Number(Request::Arithmetic {
                            left: again_left,
                            right: again_right,
                            ..
                        }),
                    ) => assert_eq!((*left, *right), (again_left, again_right)),
                    (_, other) => panic!("expected the request again, got {:?}", other),
                }
                event = Event::Number(compute(&request));
                asked.push(request.clone());
            }
            Action::Print(Printed::Number(bits)) => {
                printed.push(f64::from_bits(bits));
                event = Event::Resume;
            }
            Action::Finished => break,
            Action::Continue => event = Event::Resume,
            other => panic!("unexpected {:?}", other),
        }
    }
    assert_eq!(printed, vec![3.0]);
    assert_eq!(asked.len(), 3);
    assert!(matches!(&asked[0], Request::Literal(digits) if digits == "1"));
    assert!(matches!(&asked[1], Request::Literal(digits) if digits == "2"));
    assert!(matches!(
        &asked[2],
        Request::Arithmetic { operator: Arithmetic::Add, left, right }
            if *left == 1.0f64.to_bits() && *right == 2.0f64.to_bits()
    ));
    assert!(matches!(interpreter.step(Event::Resume), Action::Finished));
    assert!(matches!(interpreter.step(Event::Number(0)), Action::Finished));
}

#[test]
fn an_unresolved_program_gets_the_machine_stuck() {
    let (stmts, errors) = parse("print a;");
    assert!(errors.is_empty());
    let mut interpreter = Interpreter::new(Resolver::new());
    interpreter.interpret(&stmts);
    let mut steps = 0;
    loop {
        steps += 1;
        assert!(steps < 100);
        match interpreter.step(Event::Resume) {
            Action::Continue => {}
            Action::Stuck => break,
            other => panic!("unexpected {:?}", other),
        }
    }
    assert!(matches!(interpreter.step(Event::Resume), Action::Finished));
}

#[test]
fn the_interpreter_keeps_its_frames() {
    let mut interpreter = Interpreter::new(Resolver::new());
    assert!(interpreter.declare("a".to_string(), Value::Number(1)));
    interpreter.begin_scope();
    assert!(interpreter.declare("a".to_string(), Value::Number(2)));
    let before = interpreter.swap_environment(0);
    assert_eq!(before, 1);
    assert!(!interpreter.end_scope());
    assert_eq!(interpreter.swap_environment(1), 0);
    assert!(interpreter.end_scope());
    assert!(!interpreter.end_scope());
    // No use is bound, so none is found.
    assert!(interpreter.get(1, &"a".to_string()).is_none());
    assert!(!interpreter.assign(1, &"a".to_string(), &Value::Nil));
    assert!(matches!(
        interpreter.printed(&Value::Str("x".to_string())),
        Some(Printed::Text(text)) if text == "x"
    ));
    assert!(interpreter.printed(&Value::Callable(0)).is_none());
}

#[test]
fn a_frame_holds_what_was_declared_last() {
    let mut frame = Environment::new();
    assert_eq!(frame.enclosing(), None);
    assert!(frame.get(&"a".to_string()).is_none());
    assert!(!frame.assign(&"a".to_string(), &Value::Nil));
    frame.declare("a".to_string(), Value::Number(1));
    frame.declare("b".to_string(), Value::Number(2));
    frame.declare("a".to_string(), Value::Number(3));
    assert!(matches!(frame.get(&"a".to_string()), Some(Value::Number(3))));
    assert!(matches!(frame.get(&"b".to_string()), Some(Value::Number(2))));
    assert!(frame.assign(&"a".to_string(), &Value::Bool(true)));
    assert!(matches!(frame.get(&"a".to_string()), Some(Value::Bool(true))));
    assert!(frame.assign(&"b".to_string(), &Value::Nil));
    assert!(matches!(frame.get(&"b".to_string()), Some(Value::Nil)));
    assert!(matches!(frame.get(&"a".to_string()), Some(Value::Bool(true))));
    assert!(frame.get(&"c".to_string()).is_none());
    let frame = Environment::with_enclosing(7);
    assert_eq!(frame.enclosing(), Some(7));
}

// The stages together.

#[test]
fn the_first_stage_with_errors_ends_the_way() {
    let errors = front_end_errors("\"Hello");
    assert_eq!(errors.len(), 1);
    assert!(matches!(errors[0], LoxError::LexerError(_)));
    assert_eq!(errors[0].to_text(), "LexerError: l1:c7 unterminated string");

    let errors = front_end_errors("3.14.15");
    assert_eq!(errors.len(), 1);
    assert_eq!(errors[0].to_text(), "LexerError: l1:c8 invalid number '3.14.15'");

    // The errors of the parser keep those of the resolver back.
    let errors = front_end_errors("print ; var ; print a;");
    assert_eq!(errors.len(), 2);
    assert!(errors.iter().all(|e| matches!(e, LoxError::ParseError(_))));
    assert_eq!(
        errors[0].to_text(),
        "ParseError: line 1 col 8 token ;, expected an expression"
    );

    let errors = front_end_errors("print a; var b;");
    assert_eq!(errors.len(), 2);
    assert!(errors.iter().all(|e| matches!(e, LoxError::ResolveError(_))));
    assert_eq!(
        errors[0].to_text(),
        "ResolveError: line 1 col 8 token identifier 'a' undeclared reference"
    );
    assert!(matches!(
        errors[1],
        LoxError::ResolveError(ResolveError::UnassignedVariable(_))
    ));

    assert!(front_end_errors("").is_empty());
    assert!(front_end_errors("var a = 1; print a;").is_empty());
}

#[test]
fn a_program_that_is_ready_has_its_depths() {
    let Program { stmts, resolver } = run_source_code("var a = 1; { print a; }").unwrap();
    assert_eq!(stmts.len(), 2);
    assert!(resolver.errors().is_empty());
    assert_eq!(resolver.get_bound_depth(1), 1);
}

/// Runs the program up to the runtime error that ends it, and returns
/// the frame that is running then.
fn frame_after_failure(source_code: &str) -> usize {
    let Program { stmts, resolver } = run_source_code(source_code).unwrap();
    let mut interpreter = Interpreter::new(resolver);
    interpreter.interpret(&stmts);
    let mut event = Event::Resume;
    let mut inner = false;
    for _ in 0..100_000 {
        let action = interpreter.step(event);
        event = Event::Resume;
        match action {
            Action::Number(request) => event = Event::Number(compute(&request)),
            Action::Print(_) => {
                let at = interpreter.swap_environment(0);
                inner = inner || at != 0;
                interpreter.swap_environment(at);
            }
            Action::Failed(_) => {
                assert!(inner, "the program prints in no block");
                return interpreter.swap_environment(0);
            }
            Action::Continue => {}
            other => panic!("expected a runtime error, got {:?}", other),
        }
    }
    panic!("the program does not end");
}

#[test]
fn a_runtime_error_in_a_block_leaves_the_block() {
    assert_eq!(frame_after_failure("{ var b = 1; print b; print -nil; }"), 0);
    assert_eq!(
        frame_after_failure("var a = 1; { var b = a; { print b; { print b + nil; } } }"),
        0
    );
    assert_eq!(frame_after_failure("{ var a = 1; print a; { a(); } }"), 0);
}

#[test]
fn a_runtime_error_in_a_call_goes_back_to_the_caller() {
    assert_eq!(
        frame_after_failure("fun f(n) { print n; { print n + nil; } } f(1);"),
        0
    );
    assert_eq!(
        frame_after_failure(
            "fun f(n) { print n; if (n < 3) { f(n + 1); } else { print -nil; } } { var b = 1; { f(b); } }"
        ),
        0
    );
    assert_eq!(
        frame_after_failure(
            "fun g() { return 1; } fun f(n) { print n; { g(n); } } { var b = 1; f(b); }"
        ),
        0
    );
}

/// Runs the program in runs of `budget` steps.
fn run_in_pieces(source_code: &str, budget: usize) -> (Vec<String>, Option<RuntimeError>, usize) {
    let Program { stmts, resolver } = run_source_code(source_code).unwrap();
    let mut interpreter = Interpreter::new(resolver);
    interpreter.interpret(&stmts);
    let mut written = Vec::new();
    let mut total = 0;
    loop {
        let (lines, last, steps) = interpreter.run(&compute, budget);
        assert!(steps <= budget);
        total += steps;
        assert!(total < 1_000_000, "the program does not end");
        for line in lines {
            written.push(match line {
                Printed::Text(text) => text,
                Printed::Number(bits) => format!("{}", f64::from_bits(bits)),
            });
        }
        match last {
            Action::Finished => return (written, None, total),
            Action::Failed(error) => return (written, Some(error), total),
            Action::Stuck => panic!("the machine is stuck"),
            _ => assert_eq!(steps, budget),
        }
    }
}

#[test]
fn a_run_takes_the_steps_one_by_one() {
    let sources = [
        "print 1 + 2 * 3;",
        "fun fib(n) { if (n < 2) { return n; } return fib(n - 1) + fib(n - 2); } print fib(8);",
        "var i = 0; while (i < 5) { print i / 2; i = i + 1; }",
        "print \"a\"; print 1 + nil; print \"b\";",
        "",
    ];
    for source in sources {
        let (lines, error) = run(source);
        let (all_at_once, error_at_once, steps) = run_in_pieces(source, 100_000);
        assert_eq!(all_at_once, lines);
        assert_eq!(error_at_once.is_some(), error.is_some());
        for budget in [1, 2, 7] {
            let (in_pieces, error_in_pieces, steps_in_pieces) = run_in_pieces(source, budget);
            assert_eq!(in_pieces, lines);
            assert_eq!(error_in_pieces.is_some(), error.is_some());
            assert_eq!(steps_in_pieces, steps);
        }
    }
    // With no steps to take, a run takes none.
    let Program { stmts, resolver } = run_source_code("print 1;").unwrap();
    let mut interpreter = Interpreter::new(resolver);
    interpreter.interpret(&stmts);
    let (lines, last, steps) = interpreter.run(&compute, 0);
    assert!(lines.is_empty());
    assert!(matches!(last, Action::Continue));
    assert_eq!(steps, 0);
}

#[test]
fn a_statement_or_an_expression_is_started_by_hand() {
    let (stmts, errors) = parse("print \"a\" + \"b\"; \"c\" < \"d\";");
    assert!(errors.is_empty());
    let mut interpreter = Interpreter::new(Resolver::new());
    assert!(matches!(interpreter.eval_stmt(&stmts[0]), Action::Continue));
    let (lines, last, _) = interpreter.run(&compute, 100);
    assert!(matches!(last, Action::Finished));
    assert!(matches!(&lines[..], [Printed::Text(text)] if text == "ab"));

    let expr = match &stmts[1] {
        Stmt::ExprStmt { expr } => expr,
        other => panic!("expected an expression statement, got {:?}", other),
    };
    assert!(matches!(interpreter.eval_expr(expr), Action::Continue));
    let (lines, last, _) = interpreter.run(&compute, 100);
    assert!(lines.is_empty());
    assert!(matches!(last, Action::Finished));
    // The value of the expression is left on top.
    assert!(matches!(interpreter.step(Event::Resume), Action::Finished));
}

#[test]
fn a_function_has_a_name_and_an_arity() {
    let (stmts, errors) = parse("fun add(a, b) { return a + b; }");
    assert!(errors.is_empty());
    match &stmts[0] {
        Stmt::FunDecl { name, params, body } => {
            let function = LoxFunction::new(name, params, body, 3);
            assert_eq!(function.name(), Some(&"add".to_string()));
            assert_eq!(function.arity(), 2);
            assert_eq!(function.params().len(), 2);
            assert_eq!(function.environment(), 3);
            assert_eq!(stmt_shape(function.body()), "{ return (a#1 + b#2); }");
            let copy = function;
            assert_eq!(copy.arity(), function.arity());
        }
        other => panic!("expected a function, got {:?}", other),
    }
}
