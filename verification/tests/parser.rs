use rcc::errors::{CompileError, ParseError};
use rcc::node::{Ast, BinOpType, Node};
use rcc::parser::Lexer;
use rcc::token_list::TokenList;
use rcc::token::{Token, TokenKind};
use rcc::tokenizer::Tokenizer;
use rcc::ty::Ty;

fn parse_program(source: &str) -> Vec<Node> {
    let token_list = Tokenizer::new(source).tokenize().unwrap();
    Lexer::new(token_list).program().unwrap()
}

fn parse_error(source: &str) -> ParseError {
    let token_list = Tokenizer::new(source).tokenize().unwrap();
    Lexer::new(token_list).program().unwrap_err()
}

fn fundef_body(node: &Node) -> &Vec<Node> {
    match &node.ast {
        Ast::Fundef { body, .. } => body,
        other => panic!("expected a function definition, got {:?}", other),
    }
}

fn num(v: u32) -> Node {
    Node {
        ast: Ast::Num(v),
        ty: Some(Ty::Int),
    }
}

fn int_bin(op: BinOpType, lhs: Node, rhs: Node) -> Node {
    Node {
        ast: Ast::BinOp(op, Box::new(lhs), Box::new(rhs)),
        ty: Some(Ty::Int),
    }
}

fn local(name: &str, offset: u32, ty: Ty) -> Node {
    Node {
        ast: Ast::LocalVar {
            name: name.to_owned(),
            offset,
        },
        ty: Some(ty),
    }
}

#[test]
fn additive_operators_associate_left() {
    let nodes = parse_program("int f() { return 1+2-3; }");
    let body = fundef_body(&nodes[0]);
    let expected = Node {
        ast: Ast::Return(Box::new(int_bin(
            BinOpType::Sub,
            int_bin(BinOpType::Add, num(1), num(2)),
            num(3),
        ))),
        ty: None,
    };
    assert_eq!(body[0], expected);
}

#[test]
fn multiplicative_operators_associate_left() {
    let nodes = parse_program("int f() { return 2*3/4; }");
    let body = fundef_body(&nodes[0]);
    let expected = Node {
        ast: Ast::Return(Box::new(int_bin(
            BinOpType::Div,
            int_bin(BinOpType::Mul, num(2), num(3)),
            num(4),
        ))),
        ty: None,
    };
    assert_eq!(body[0], expected);
}

#[test]
fn comparisons_associate_left_and_normalize_swaps() {
    let nodes = parse_program("int f() { return 1 < 2 < 3; }");
    let body = fundef_body(&nodes[0]);
    let expected = Node {
        ast: Ast::Return(Box::new(int_bin(
            BinOpType::LessThan,
            int_bin(BinOpType::LessThan, num(1), num(2)),
            num(3),
        ))),
        ty: None,
    };
    assert_eq!(body[0], expected);

    // A greater-than comparison becomes a swapped less-than.
    let nodes = parse_program("int f() { return 1 > 2; }");
    let body = fundef_body(&nodes[0]);
    let expected = Node {
        ast: Ast::Return(Box::new(int_bin(BinOpType::LessThan, num(2), num(1)))),
        ty: None,
    };
    assert_eq!(body[0], expected);

    let nodes = parse_program("int f() { return 1 == 2 != 0; }");
    let body = fundef_body(&nodes[0]);
    let expected = Node {
        ast: Ast::Return(Box::new(int_bin(
            BinOpType::NotEqual,
            int_bin(BinOpType::Equal, num(1), num(2)),
            num(0),
        ))),
        ty: None,
    };
    assert_eq!(body[0], expected);
}

#[test]
fn assignment_associates_right() {
    let nodes = parse_program("int f() { int a; int b; int c; a = b = c; }");
    let body = fundef_body(&nodes[0]);
    let inner = Node {
        ast: Ast::Assign(
            Box::new(local("b", 24, Ty::Int)),
            Box::new(local("c", 28, Ty::Int)),
        ),
        ty: Some(Ty::Int),
    };
    let expected = Node {
        ast: Ast::Assign(Box::new(local("a", 20, Ty::Int)), Box::new(inner)),
        ty: Some(Ty::Int),
    };
    assert_eq!(body[3], expected);
}

#[test]
fn pointer_addition_scales_by_element_size() {
    // A Ptr(Int) base scales its other operand by 4.
    let nodes = parse_program("int f() { int *p; p + 1; }");
    let body = fundef_body(&nodes[0]);
    let ptr_int = Ty::Ptr(Box::new(Ty::Int));
    let expected = Node {
        ast: Ast::BinOp(
            BinOpType::Add,
            Box::new(local("p", 24, ptr_int.clone())),
            Box::new(int_bin(BinOpType::Mul, num(1), num(4))),
        ),
        ty: Some(ptr_int),
    };
    assert_eq!(body[1], expected);

    // A Ptr(Ptr(Int)) base scales by 8.
    let nodes = parse_program("int f() { int **q; q + 1; }");
    let body = fundef_body(&nodes[0]);
    let ptr_ptr_int = Ty::Ptr(Box::new(Ty::Ptr(Box::new(Ty::Int))));
    let expected = Node {
        ast: Ast::BinOp(
            BinOpType::Add,
            Box::new(local("q", 24, ptr_ptr_int.clone())),
            Box::new(int_bin(BinOpType::Mul, num(1), num(8))),
        ),
        ty: Some(ptr_ptr_int),
    };
    assert_eq!(body[1], expected);

    // Subtraction scales the same way.
    let nodes = parse_program("int f() { int *p; p - 2; }");
    let body = fundef_body(&nodes[0]);
    let ptr_int = Ty::Ptr(Box::new(Ty::Int));
    let expected = Node {
        ast: Ast::BinOp(
            BinOpType::Sub,
            Box::new(local("p", 24, ptr_int.clone())),
            Box::new(int_bin(BinOpType::Mul, num(2), num(4))),
        ),
        ty: Some(ptr_int),
    };
    assert_eq!(body[1], expected);

    // An Int base adds plainly: no scaling node appears.
    let nodes = parse_program("int f() { int x; x + 1; }");
    let body = fundef_body(&nodes[0]);
    let expected = Node {
        ast: Ast::BinOp(
            BinOpType::Add,
            Box::new(local("x", 20, Ty::Int)),
            Box::new(num(1)),
        ),
        ty: Some(Ty::Int),
    };
    assert_eq!(body[1], expected);
}

#[test]
fn sizeof_is_a_compile_time_literal() {
    let nodes = parse_program("int f() { return sizeof(1); }");
    let body = fundef_body(&nodes[0]);
    assert_eq!(
        body[0],
        Node {
            ast: Ast::Return(Box::new(num(4))),
            ty: None,
        }
    );

    let nodes = parse_program("int f() { int *p; return sizeof(p); }");
    let body = fundef_body(&nodes[0]);
    assert_eq!(
        body[1],
        Node {
            ast: Ast::Return(Box::new(num(8))),
            ty: None,
        }
    );

    let nodes = parse_program("int f() { int a[3]; return sizeof(a); }");
    let body = fundef_body(&nodes[0]);
    assert_eq!(
        body[1],
        Node {
            ast: Ast::Return(Box::new(num(12))),
            ty: None,
        }
    );
}

#[test]
fn array_indexing_desugars_to_scaled_dereference() {
    let nodes = parse_program("int f() { int a[3]; a[2]; }");
    let body = fundef_body(&nodes[0]);
    let array_ty = Ty::Array(Box::new(Ty::Int), 3);
    let sum = Node {
        ast: Ast::BinOp(
            BinOpType::Add,
            Box::new(local("a", 28, array_ty.clone())),
            Box::new(int_bin(BinOpType::Mul, num(2), num(4))),
        ),
        ty: Some(array_ty),
    };
    let expected = Node {
        ast: Ast::Deref(Box::new(sum)),
        ty: Some(Ty::Int),
    };
    assert_eq!(body[1], expected);
}

#[test]
fn function_frame_size_is_resolved() {
    let nodes = parse_program("int f() { int a; int b; return a; }");
    match &nodes[0].ast {
        Ast::Fundef {
            name, stack_size, ..
        } => {
            assert_eq!(name, "f");
            // 16-byte base plus two 4-byte locals, rounded up to 32.
            assert_eq!(*stack_size, 32);
        }
        other => panic!("expected a function definition, got {:?}", other),
    }
}

#[test]
fn global_declarations_register_and_annotate() {
    let nodes = parse_program("int g; int f() { return g; }");
    assert_eq!(
        nodes[0],
        Node {
            ast: Ast::GlobalVarDef("g".to_owned(), Ty::Int),
            ty: None,
        }
    );
    let body = fundef_body(&nodes[1]);
    assert_eq!(
        body[0],
        Node {
            ast: Ast::Return(Box::new(Node {
                ast: Ast::GlobalVar {
                    name: "g".to_owned(),
                },
                ty: Some(Ty::Int),
            })),
            ty: None,
        }
    );
}

#[test]
fn undefined_variable_is_rejected() {
    match parse_error("int f() { return x; }") {
        ParseError::UndefinedVariable { name } => assert_eq!(name, "x"),
        other => panic!("expected an undefined-variable error, got {:?}", other),
    }
}

#[test]
fn array_is_not_an_assignable_lvalue() {
    assert!(matches!(
        parse_error("int f() { int a[2]; a = 1; }"),
        ParseError::InvalidLvalue { .. }
    ));
}

#[test]
fn dereferencing_an_int_is_rejected() {
    assert!(matches!(
        parse_error("int f() { int x; return *x; }"),
        ParseError::NotReferenceType { .. }
    ));
}

#[test]
fn a_seventh_call_argument_is_rejected() {
    assert!(matches!(
        parse_error("int f() { return g(1,2,3,4,5,6,7); }"),
        ParseError::UnexpectedToken { .. }
    ));
}

#[test]
fn a_seventh_parameter_is_rejected() {
    assert!(matches!(
        parse_error("int f(int a, int b, int c, int d, int e, int g, int h) { return 1; }"),
        ParseError::UnexpectedToken { .. }
    ));
}

#[test]
fn a_missing_expression_is_rejected() {
    assert!(matches!(
        parse_error("int f() { return ; }"),
        ParseError::ExpectedNumber { .. }
    ));
}

#[test]
fn an_unclosed_body_is_rejected() {
    assert!(matches!(
        parse_error("int f() {"),
        ParseError::UnexpectedEof
    ));
}

#[test]
fn an_unrepresentable_array_type_is_rejected() {
    assert!(matches!(
        parse_error("int a[100000][100000][100000];"),
        ParseError::TypeTooLarge { .. }
    ));
}

#[test]
fn compile_reports_parse_errors_without_output() {
    // A reference to an undeclared name aborts the whole compilation;
    // no assembly comes back.
    let result = rcc::compile("int f() { return x; }");
    assert!(matches!(
        result,
        Err(CompileError::Parse(ParseError::UndefinedVariable { .. }))
    ));
}

#[test]
fn too_many_locals_is_rejected() {
    // Three two-gigabyte arrays outgrow the 32-bit offset counter.
    assert!(matches!(
        parse_error(
            "int f() { int a[500000000]; int b[500000000]; int c[500000000]; return 0; }"
        ),
        ParseError::TooManyLocals { .. }
    ));
}

#[test]
fn node_constructors_build_annotated_nodes() {
    let n = Node::new_num(7);
    assert_eq!(n, num(7));
    let v = Node::new_local_var("x".to_owned(), 20, Ty::Int);
    assert_eq!(v, local("x", 20, Ty::Int));
    let b = Node::new_bin_op_node(
        BinOpType::Add,
        Box::new(Node::new_num(1)),
        Box::new(Node::new_num(2)),
        Some(Ty::Int),
    );
    assert_eq!(b, int_bin(BinOpType::Add, num(1), num(2)));
    let w = Node::new(Ast::Num(3), Some(Ty::Int));
    assert_eq!(w, num(3));
}

#[test]
fn label_indices_are_handed_out_in_order() {
    let generator = rcc::codegen::CodeGenerator::new(Vec::new());
    let mut counter: u64 = 0;
    assert_eq!(generator.increment_label_index(&mut counter), 0);
    assert_eq!(generator.increment_label_index(&mut counter), 1);
    assert_eq!(generator.increment_label_index(&mut counter), 2);
    assert_eq!(counter, 3);
}

#[test]
fn tokens_can_be_built_by_hand() {
    // int f ( ) { return 7 ; }
    let tokens = vec![
        Token::new_syntax_item(0, TokenKind::Int),
        Token::new_ident(4, "f"),
        Token::new_syntax_item(5, TokenKind::LParen),
        Token::new_syntax_item(6, TokenKind::RParen),
        Token::new_syntax_item(8, TokenKind::LBrace),
        Token::new_syntax_item(10, TokenKind::Return),
        Token::new_num(17, 7),
        Token::new_syntax_item(18, TokenKind::Semicolon),
        Token::new_syntax_item(20, TokenKind::RBrace),
    ];
    assert_eq!(tokens[1].position(), 4);
    let token_list = TokenList::new("int f() { return 7; }", tokens);
    let nodes = Lexer::new(token_list).program().unwrap();
    let body = fundef_body(&nodes[0]);
    assert_eq!(
        body[0],
        Node {
            ast: Ast::Return(Box::new(num(7))),
            ty: None,
        }
    );
}
