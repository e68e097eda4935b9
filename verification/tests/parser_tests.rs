use frontend::expr::Expr;
use frontend::lexer::Lexer;
use frontend::parser::{Parser, ParserErr};
use frontend::results::{Loc, PhyResult};
use frontend::stmt::Stmt;

fn lex_and_parse(code: &str) -> Result<Vec<Stmt>, Vec<PhyResult<ParserErr>>> {
    let mut lexer = Lexer::new();
    let tokens = lexer.tokenize(code).unwrap();
    let mut parser = Parser::default();
    parser.parse(&tokens)
}

fn stmt_exprs(stmts: &[Stmt]) -> Vec<&Expr> {
    stmts
        .iter()
        .filter_map(|s| match s {
            Stmt::Expr(e) => Some(&e.expr),
            _ => None,
        })
        .collect()
}

fn as_int(e: &Expr) -> i64 {
    match e {
        Expr::IntLiteral(i) => i.value,
        other => panic!("expected an integer literal, got {:?}", other),
    }
}

fn as_real(e: &Expr) -> f64 {
    match e {
        Expr::RealLiteral(r) => r.value.parse::<f64>().unwrap(),
        other => panic!("expected a real literal, got {:?}", other),
    }
}

fn as_str(e: &Expr) -> &str {
    match e {
        Expr::StrLiteral(s) => &s.value,
        other => panic!("expected a string literal, got {:?}", other),
    }
}

fn as_ident(e: &Expr) -> &str {
    match e {
        Expr::Identifier(i) => &i.name,
        other => panic!("expected an identifier, got {:?}", other),
    }
}

fn as_grouping(e: &Expr) -> &Expr {
    match e {
        Expr::Grouping(g) => &g.expr,
        other => panic!("expected a grouping, got {:?}", other),
    }
}

fn as_binary(e: &Expr) -> (&Expr, &str, &Expr) {
    match e {
        Expr::Binary(b) => (&b.left, &b.operator, &b.right),
        other => panic!("expected a binary node, got {:?}", other),
    }
}

fn as_unary(e: &Expr) -> (&str, &Expr) {
    match e {
        Expr::Unary(u) => (&u.operator, &u.right),
        other => panic!("expected a unary node, got {:?}", other),
    }
}

fn as_assign(e: &Expr) -> (&str, &Expr) {
    match e {
        Expr::Assign(a) => (&a.name, &a.value),
        other => panic!("expected an assignment, got {:?}", other),
    }
}

fn err_kinds(code: &str) -> Vec<ParserErr> {
    lex_and_parse(code)
        .err()
        .unwrap()
        .into_iter()
        .map(|e| e.err)
        .collect()
}

#[test]
fn parse_primary() {
    let code = "12\n24.\n54.678\n\"foo bar! 5-{6}\"\n(true)\n( (null ))";

    let stmts = lex_and_parse(code).unwrap();
    let exprs = stmt_exprs(&stmts);
    assert_eq!(exprs.len(), 6);
    assert_eq!(as_int(exprs[0]), 12);
    assert_eq!(as_real(exprs[1]), 24.);
    assert_eq!(as_real(exprs[2]), 54.678);
    assert_eq!(as_str(exprs[3]), "foo bar! 5-{6}");
    assert_eq!(as_ident(as_grouping(exprs[4])), "true");
    assert_eq!(as_ident(as_grouping(as_grouping(exprs[5]))), "null");

    // Errors
    let code = "(art + \n";
    let e = err_kinds(code);
    assert_eq!(e, vec![ParserErr::ParenNeverClosed]);
}

#[test]
fn parse_binop() {
    let code = "14. + -67\n25. + 3 * 4\n25. / 3 + 4";

    let stmts = lex_and_parse(code).unwrap();
    let exprs = stmt_exprs(&stmts);

    let (left, op, right) = as_binary(exprs[0]);
    assert_eq!(as_real(left), 14f64);
    assert_eq!(op, "+");
    let (u_op, u_expr) = as_unary(right);
    assert_eq!(u_op, "-");
    assert_eq!(as_int(u_expr), 67);

    let (left, op, right) = as_binary(exprs[1]);
    assert_eq!(as_real(left), 25f64);
    assert_eq!(op, "+");
    let (left_bis, op_bis, right_bis) = as_binary(right);
    assert_eq!(as_int(left_bis), 3i64);
    assert_eq!(op_bis, "*");
    assert_eq!(as_int(right_bis), 4i64);

    let (left, op, right) = as_binary(exprs[2]);
    let (left_bis, op_bis, right_bis) = as_binary(left);
    assert_eq!(as_real(left_bis), 25f64);
    assert_eq!(op_bis, "/");
    assert_eq!(as_int(right_bis), 3i64);
    assert_eq!(op, "+");
    assert_eq!(as_int(right), 4i64);

    // Errors
    let code = "5 +\n";
    let e = err_kinds(code);
    assert_eq!(e, vec![ParserErr::UnexpectedEol]);
}

#[test]
fn parse_unary() {
    let code = "-12\n-foo\n-54.67\n!true";

    let stmts = lex_and_parse(code).unwrap();
    let exprs = stmt_exprs(&stmts);

    let (op, expr) = as_unary(exprs[0]);
    assert_eq!(as_int(expr), 12);
    assert_eq!(op, "-");

    let (op, expr) = as_unary(exprs[1]);
    assert_eq!(as_ident(expr), "foo");
    assert_eq!(op, "-");

    let (op, expr) = as_unary(exprs[2]);
    assert_eq!(as_real(expr), 54.67);
    assert_eq!(op, "-");

    let (op, expr) = as_unary(exprs[3]);
    assert_eq!(as_ident(expr), "true");
    assert_eq!(op, "!");

    // Errors
    let code = "+5\n*6\n/7\n%8";
    let e = err_kinds(code);
    assert_eq!(
        e,
        vec![
            ParserErr::MissingLhsInBinop,
            ParserErr::MissingLhsInBinop,
            ParserErr::MissingLhsInBinop,
            ParserErr::MissingLhsInBinop,
        ]
    );
}

#[test]
fn var_declaration() {
    let code = "var a\nvar b_cc = 4.\nvar c34_U = 2 + 6 ";

    let stmts = lex_and_parse(code).unwrap();
    let decls: Vec<(&str, Option<&Expr>)> = stmts
        .iter()
        .map(|s| match s {
            Stmt::VarDecl(v) => (v.name.as_str(), v.value.as_ref()),
            other => panic!("expected a declaration, got {:?}", other),
        })
        .collect();

    assert_eq!(decls[0].0, "a");
    assert!(decls[0].1.is_none());
    assert_eq!(decls[1].0, "b_cc");
    assert_eq!(as_real(decls[1].1.unwrap()), 4f64);
    assert_eq!(decls[2].0, "c34_U");
    let (left, op, right) = as_binary(decls[2].1.unwrap());
    assert_eq!(as_int(left), 2);
    assert_eq!(op, "+");
    assert_eq!(as_int(right), 6);

    // Errors
    let code = "var \nvar b if\nvar b =\nvar c = var";
    let e = err_kinds(code);
    println!("All: {:?}", e);
    assert!(e[0] == ParserErr::VarDeclNoName);
    assert!(e[1] == ParserErr::WrongRhsVarDecl);
    assert!(e[2] == ParserErr::NoExprAssign, "it was: {:?}", e[2]);
    assert!(matches!(e[3], ParserErr::IncorrectVarDeclVal { .. }));
}

#[test]
fn parser_location() {
    let code = "-12\n    98\n  -24. + 6\n(a + foo)";

    let stmts = lex_and_parse(code).unwrap();
    let exprs = stmt_exprs(&stmts);
    assert_eq!(exprs.len(), 4);

    assert!(matches!(exprs[0], Expr::Unary(_)));
    assert!(matches!(exprs[1], Expr::IntLiteral(_)));
    assert!(matches!(exprs[2], Expr::Binary(_)));
    assert!(matches!(exprs[3], Expr::Grouping(_)));

    assert_eq!(exprs[1].get_loc(), Loc::new(8, 10));
    assert_eq!(exprs[2].get_loc(), Loc::new(13, 21));
    assert_eq!(exprs[0].get_loc(), Loc::new(0, 3));
    assert_eq!(exprs[3].get_loc(), Loc::new(22, 31));
}

#[test]
fn assignment() {
    let code = "var a\na = 6\n\nvar foo_b4r = 8\nfoo_b4r = 65 % 6.";

    let stmts = lex_and_parse(code).unwrap();
    let exprs = stmt_exprs(&stmts);

    let (name, value) = as_assign(exprs[0]);
    assert_eq!(name, "a");
    assert_eq!(as_int(value), 6i64);

    let (name, value) = as_assign(exprs[1]);
    println!("Assign info: {:?}", value);
    assert_eq!(name, "foo_b4r");
    let (left, op, right) = as_binary(value);
    assert_eq!(as_int(left), 65i64);
    assert_eq!(op, "%");
    assert_eq!(as_real(right), 6f64);

    let code = "var a\n7 = 6";
    let e = err_kinds(code);
    assert!(e[0] == ParserErr::InvalidAssignTarget);
}

#[test]
fn block() {
    let code = "\n{\n    var a = 3\n    print 8\n}\n";
    let stmts = lex_and_parse(code).unwrap();
    println!("Infos: {:?}", stmts);
    let inner = match &stmts[0] {
        Stmt::Block(b) => &b.stmts,
        other => panic!("expected a block, got {:?}", other),
    };
    match &inner[0] {
        Stmt::VarDecl(v) => {
            assert_eq!(v.name, "a".to_string(), "block: {:?}", inner);
            assert_eq!(as_int(v.value.as_ref().unwrap()), 3);
        },
        other => panic!("expected a declaration, got {:?}", other),
    }
    match &inner[1] {
        Stmt::Print(p) => assert_eq!(as_int(&p.expr), 8),
        other => panic!("expected a print statement, got {:?}", other),
    }

    let code = "\n{\n    var a = 3\n";
    let e = err_kinds(code);
    assert!(e[0] == ParserErr::UnclosedBlock);
}

#[test]
fn precedence_and_left_associativity() {
    let stmts = lex_and_parse("2 + 3 * 4").unwrap();
    let (left, op, right) = as_binary(stmt_exprs(&stmts)[0]);
    assert_eq!(as_int(left), 2);
    assert_eq!(op, "+");
    let (l2, op2, r2) = as_binary(right);
    assert_eq!(as_int(l2), 3);
    assert_eq!(op2, "*");
    assert_eq!(as_int(r2), 4);

    let stmts = lex_and_parse("8 - 3 - 2").unwrap();
    let (left, op, right) = as_binary(stmt_exprs(&stmts)[0]);
    let (l2, op2, r2) = as_binary(left);
    assert_eq!(as_int(l2), 8);
    assert_eq!(op2, "-");
    assert_eq!(as_int(r2), 3);
    assert_eq!(op, "-");
    assert_eq!(as_int(right), 2);
}

#[test]
fn assignment_right_associativity() {
    let stmts = lex_and_parse("a = b = 3").unwrap();
    let (name, value) = as_assign(stmt_exprs(&stmts)[0]);
    assert_eq!(name, "a");
    let (name2, value2) = as_assign(value);
    assert_eq!(name2, "b");
    assert_eq!(as_int(value2), 3);
}

#[test]
fn two_malformed_declarations_give_two_errors() {
    let code = "var 1\nvar 2";
    let e = err_kinds(code);
    assert_eq!(e, vec![ParserErr::VarDeclNoName, ParserErr::VarDeclNoName]);
}

#[test]
fn parse_empty_source() {
    let stmts = lex_and_parse("").unwrap();
    assert!(stmts.is_empty());
    let stmts = lex_and_parse("\n\n\n").unwrap();
    assert!(stmts.is_empty());
}

#[test]
fn int_literal_overflow() {
    let e = err_kinds("99999999999999999999");
    assert_eq!(e, vec![ParserErr::ParsingInt]);

    let stmts = lex_and_parse("9223372036854775807").unwrap();
    assert_eq!(as_int(stmt_exprs(&stmts)[0]), i64::MAX);
}

#[test]
fn unexpected_eof_and_unknown_token() {
    let e = err_kinds("!");
    assert_eq!(e, vec![ParserErr::UnexpectedEof]);

    let e = err_kinds(")");
    assert_eq!(e, vec![ParserErr::UnknownToken(")".to_string())]);
}

#[test]
fn error_locations_are_statement_spans() {
    // The span starts where the statement started and ends where the parser
    // stood after resynchronizing.
    let errs = lex_and_parse("var \nvar b if").err().unwrap();
    assert_eq!(errs[0].err, ParserErr::VarDeclNoName);
    assert_eq!(errs[0].loc, Loc::new(0, 5));
    assert_eq!(errs[1].err, ParserErr::WrongRhsVarDecl);
    assert_eq!(errs[1].loc, Loc::new(5, 13));
}

#[test]
fn parser_new_parses() {
    let mut lexer = Lexer::new();
    let tokens = lexer.tokenize("print 1 + 2").unwrap();
    let mut parser = Parser::new();
    let stmts = parser.parse(&tokens).unwrap();
    match &stmts[0] {
        Stmt::Print(p) => {
            let (l, op, r) = as_binary(&p.expr);
            assert_eq!(as_int(l), 1);
            assert_eq!(op, "+");
            assert_eq!(as_int(r), 2);
        },
        other => panic!("expected a print statement, got {:?}", other),
    }
}
