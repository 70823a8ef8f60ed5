use redsharp::ast::{Expr, Operator, Statement};
use redsharp::compiler::{CompileError, Compiler};
use redsharp::lexer::{Token, Tokenizer};
use redsharp::nodes::NodeType;
use redsharp::parser::parse;
use redsharp::precedence::Precedence;

fn ident(name: &str) -> Box<Expr> {
    Box::new(Expr::Identifier(name.to_string()))
}

fn num(value: u32) -> Box<Expr> {
    Box::new(Expr::Int { value })
}

#[test]
fn tokenizer_reads_operators_and_skips_comments() {
    let mut t = Tokenizer::new("a<=b // note\n != _x1 && 42;");
    let mut tokens = Vec::new();
    while let Some(tok) = t.next() {
        tokens.push(tok);
    }
    assert_eq!(
        tokens,
        vec![
            Token::Identifier("a"),
            Token::Lte,
            Token::Identifier("b"),
            Token::Ne,
            Token::Identifier("_x1"),
            Token::And,
            Token::Int("42"),
            Token::Semicolon,
        ]
    );
}

#[test]
fn tokenizer_keywords() {
    let mut t = Tokenizer::new("if let else return fn true false iffy");
    let mut tokens = Vec::new();
    while let Some(tok) = t.next() {
        tokens.push(tok);
    }
    assert_eq!(
        tokens,
        vec![
            Token::If,
            Token::Let,
            Token::Else,
            Token::Return,
            Token::Func,
            Token::True,
            Token::False,
            Token::Identifier("iffy"),
        ]
    );
}

#[test]
fn token_precedences() {
    assert_eq!(Token::Plus.precedence(), Precedence::Sum);
    assert_eq!(Token::Star.precedence(), Precedence::Product);
    assert_eq!(Token::Assign.precedence(), Precedence::Assign);
    assert_eq!(Token::OpenBracket.precedence(), Precedence::Index);
    assert_eq!(Token::Semicolon.precedence(), Precedence::Lowest);
    assert!(Precedence::Sum.rank() < Precedence::Product.rank());
}

#[test]
fn parse_let_and_sum() {
    let ast = parse("let a = 5; a + 2;").unwrap();
    assert_eq!(
        ast,
        vec![
            Statement::Let("a".to_string(), Expr::Int { value: 5 }),
            Statement::Expression(Expr::Infix { left: ident("a"), operator: Operator::Add, right: num(2) }),
        ]
    );
}

#[test]
fn parse_respects_precedence() {
    let ast = parse("1 + 2 * 3").unwrap();
    assert_eq!(
        ast,
        vec![Statement::Expression(Expr::Infix {
            left: num(1),
            operator: Operator::Add,
            right: Box::new(Expr::Infix { left: num(2), operator: Operator::Multiply, right: num(3) }),
        })]
    );
}

#[test]
fn parse_compound_assignment() {
    let ast = parse("a += 2").unwrap();
    assert_eq!(
        ast,
        vec![Statement::Expression(Expr::Assignment {
            left: ident("a"),
            right: Box::new(Expr::Infix { left: ident("a"), operator: Operator::Add, right: num(2) }),
        })]
    );
}

#[test]
fn parse_if_and_function() {
    let ast = parse("if a { 1 } else { 2 } fn f(x, y) { x }").unwrap();
    assert_eq!(
        ast,
        vec![
            Statement::Expression(Expr::If {
                condition: ident("a"),
                consequence: vec![Statement::Expression(Expr::Int { value: 1 })],
                alternative: Some(vec![Statement::Expression(Expr::Int { value: 2 })]),
            }),
            Statement::Expression(Expr::Function {
                name: "f".to_string(),
                parameters: vec!["x".to_string(), "y".to_string()],
                body: vec![Statement::Expression(Expr::Identifier("x".to_string()))],
            }),
        ]
    );
}

#[test]
fn parse_stops_at_an_unknown_character() {
    assert_eq!(parse("a @ b").unwrap(), vec![Statement::Expression(Expr::Identifier("a".to_string()))]);
    assert_eq!(parse("").unwrap(), vec![]);
}

#[test]
fn parse_errors() {
    assert!(parse("let = 5").is_err());
    assert!(parse("(1 + 2").is_err());
    assert!(parse("1.5").is_err());
    assert!(parse("\"text\"").is_err());
    assert!(parse("99999999999").is_err());
    assert!(parse("fn f(1) { }").is_err());
}

#[test]
fn compile_sum_of_variables() {
    let mut c = Compiler::new();
    let ast = parse("let a = 1; let b = 2; a + b;").unwrap();
    assert_eq!(c.compile(ast), Ok(()));
    assert_eq!(c.nodes.len(), 3);
    assert!(matches!(c.nodes[2].node, NodeType::Operator(Operator::Add)));
    assert_eq!(c.edges.len(), 2);
    assert_eq!(c.edges[0].0, c.nodes[0].id);
    assert_eq!(c.edges[0].1, c.nodes[0].outputs[0].id);
    assert_eq!(c.edges[0].2, c.nodes[2].id);
    assert_eq!(c.edges[0].3, c.nodes[2].inputs[0].id);
    assert_eq!(c.edges[1].0, c.nodes[1].id);
    assert_eq!(c.edges[1].3, c.nodes[2].inputs[1].id);
}

#[test]
fn compile_assignment_of_a_sum() {
    let mut c = Compiler::new();
    let ast = parse("let a = 1; a = a + 3;").unwrap();
    assert_eq!(c.compile(ast), Ok(()));
    // a, then the int 3, the adder, the setter
    assert_eq!(c.nodes.len(), 4);
    assert!(matches!(c.nodes[1].node, NodeType::Int(3)));
    assert!(matches!(c.nodes[2].node, NodeType::Operator(Operator::Add)));
    assert!(matches!(c.nodes[3].node, NodeType::Assign));
    assert_eq!(c.edges.len(), 4);
    // the setter's 8-bit output feeds the variable
    let set = &c.nodes[3];
    assert_eq!(c.edges[3].0, set.id);
    assert_eq!(c.edges[3].1, set.outputs[1].id);
    assert_eq!(c.edges[3].2, c.nodes[0].id);
    assert_eq!(c.edges[3].3, c.nodes[0].inputs[0].id);
}

#[test]
fn compile_rejects_unsupported_programs() {
    let mut c = Compiler::new();
    assert_eq!(c.compile(parse("b + 1;").unwrap()), Err(CompileError::UnsupportedExpression));
    let mut c = Compiler::new();
    assert_eq!(c.compile(parse("let a = b;").unwrap()), Err(CompileError::InvalidDeclareValue));
    let mut c = Compiler::new();
    assert_eq!(c.compile(parse("return 1;").unwrap()), Err(CompileError::UnsupportedStatement));
    let mut c = Compiler::new();
    assert_eq!(c.compile(parse("let a = 1; a * 2;").unwrap()), Err(CompileError::UnsupportedExpression));
}

#[test]
fn compile_expression_of_an_integer() {
    let mut c = Compiler::new();
    let n = c.compile_expression(Expr::Int { value: 7 });
    assert!(matches!(n.node, NodeType::Int(7)));
    assert!(c.nodes.is_empty() && c.edges.is_empty());
    assert!(c.can_compile(&Expr::Int { value: 1 }));
    assert!(!c.can_compile(&Expr::Identifier("x".to_string())));
}

#[test]
fn tokenizer_reads_a_statement() {
    let mut t = Tokenizer::new("let x1 = 42; a <= b // c\n!= ");
    let mut tokens = Vec::new();
    while let Some(tok) = t.next() {
        tokens.push(tok);
    }
    assert_eq!(
        tokens,
        vec![
            Token::Let,
            Token::Identifier("x1"),
            Token::Assign,
            Token::Int("42"),
            Token::Semicolon,
            Token::Identifier("a"),
            Token::Lte,
            Token::Identifier("b"),
            Token::Ne,
        ]
    );
}

#[test]
fn parse_assignment_of_a_sum() {
    assert_eq!(
        parse("a = 1 + 2 * 3").unwrap(),
        vec![Statement::Expression(Expr::Assignment {
            left: ident("a"),
            right: Box::new(Expr::Infix {
                left: num(1),
                operator: Operator::Add,
                right: Box::new(Expr::Infix { left: num(2), operator: Operator::Multiply, right: num(3) }),
            }),
        })]
    );
    assert!(parse(")").is_err());
}

#[test]
fn compile_let_gives_one_variable_node() {
    let mut c = Compiler::new();
    assert_eq!(c.compile(parse("let a = 5").unwrap()), Ok(()));
    assert_eq!(c.nodes.len(), 1);
    assert!(matches!(&c.nodes[0].node, NodeType::VarInt { name, value: 5 } if name == "a"));
    assert_eq!(c.nodes[0].inputs.iter().map(|p| p.size).collect::<Vec<u8>>(), vec![8, 1]);
    assert!(c.edges.is_empty());
}

#[test]
fn compile_sum_of_integers() {
    let mut c = Compiler::new();
    let r = c.compile_expression(Expr::Infix { left: num(1), operator: Operator::Add, right: num(2) });
    assert!(matches!(r.node, NodeType::Operator(Operator::Add)));
    assert_eq!(c.nodes.len(), 2);
    assert!(matches!(c.nodes[0].node, NodeType::Int(1)));
    assert!(matches!(c.nodes[1].node, NodeType::Int(2)));
    let (n0, n1) = (&c.nodes[0], &c.nodes[1]);
    assert_eq!(
        c.edges,
        vec![
            (n0.id.clone(), n0.outputs[0].id.clone(), r.id.clone(), r.inputs[0].id.clone()),
            (n1.id.clone(), n1.outputs[0].id.clone(), r.id.clone(), r.inputs[1].id.clone()),
        ]
    );
}
