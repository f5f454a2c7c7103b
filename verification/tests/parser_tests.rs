use dubious::ast_build::{
    build_precedence_table, find_arr_dims, flatten, parse, parse_const, parse_enum, parse_statement, parse_struct, parse_type, Ast, Atom, BinOp, Expression, Literal, Statement,
    UnOp,
};
use dubious::lexer::{lex, Token};
use dubious::shared::{CompileError, ErrorMessage, Type};

fn parse_source(body: &str) -> Result<Ast, CompileError> {
    let src = format!("// <main.dpl>\n{}", body);
    let tokens = lex(&src).unwrap();
    parse(&tokens)
}

fn main_body(ast: &Ast) -> &Vec<dubious::shared::Typed<dubious::shared::TokenWithDebugInfo<Statement>>> {
    match &ast.program.internal_tok.functions[0].expr.internal_tok.body.expr.internal_tok {
        Statement::Compound(v) => v,
        other => panic!("body is not a block: {:?}", other),
    }
}

fn returned(stmt: &Statement) -> &Expression {
    match stmt {
        Statement::Return(e) => &e.expr.internal_tok,
        other => panic!("not a return: {:?}", other),
    }
}

fn int_of(e: &Expression) -> i64 {
    match e {
        Expression::Atom(a) => match &a.expr.internal_tok {
            Atom::Literal(l) => match l.expr.internal_tok {
                Literal::Int(i) => i,
                _ => panic!("not an int"),
            },
            _ => panic!("not a literal"),
        },
        _ => panic!("not an atom: {:?}", e),
    }
}

#[test]
fn precedence_table_has_fifteen_levels() {
    let table = build_precedence_table();
    assert_eq!(table.len(), 15);
    assert!(table[0].binary_ops.is_empty() && table[0].unary_ops.is_empty());
    assert_eq!(table[1].binary_ops, vec![BinOp::MemberAccess, BinOp::NamespaceAccess]);
    assert_eq!(table[2].unary_ops.len(), 8);
    assert_eq!(table[3].binary_ops, vec![BinOp::Multiply, BinOp::Divide, BinOp::Modulus]);
    assert_eq!(table[13].binary_ops, vec![BinOp::LogicalOr]);
    assert_eq!(table[14].assignment_ops.len(), 11);
}

#[test]
fn parse_minimal_program() {
    let ast = parse_source("fn main(): int { return 0; }").unwrap();
    assert_eq!(ast.program.internal_tok.id, "toplevel");
    assert_eq!(ast.program.internal_tok.functions.len(), 1);
    let f = &ast.program.internal_tok.functions[0].expr.internal_tok;
    assert_eq!(f.id.internal_tok, "main");
    assert!(matches!(f.return_type.internal_tok, Type::Int));
    let body = main_body(&ast);
    assert_eq!(body.len(), 1);
    assert_eq!(int_of(returned(&body[0].expr.internal_tok)), 0);
}

#[test]
fn multiplication_binds_tighter_than_addition() {
    let ast = parse_source("fn main(): int { return 1 + 2 * 3; }").unwrap();
    let body = main_body(&ast);
    match returned(&body[0].expr.internal_tok) {
        Expression::BinaryOp(l, r, BinOp::Add) => {
            assert_eq!(int_of(&l.expr.internal_tok), 1);
            match &r.expr.internal_tok {
                Expression::BinaryOp(a, b, BinOp::Multiply) => {
                    assert_eq!(int_of(&a.expr.internal_tok), 2);
                    assert_eq!(int_of(&b.expr.internal_tok), 3);
                },
                other => panic!("{:?}", other),
            }
        },
        other => panic!("{:?}", other),
    }
}

#[test]
fn greater_or_equal_is_read_from_two_tokens() {
    let ast = parse_source("fn main(): int { return a >= b; }").unwrap();
    let body = main_body(&ast);
    assert!(matches!(returned(&body[0].expr.internal_tok), Expression::BinaryOp(_, _, BinOp::GreaterOrEqualThan)));
}

#[test]
fn cast_binds_looser_than_binary_operators() {
    let ast = parse_source("fn main(): int { return -x + y : float; }").unwrap();
    let body = main_body(&ast);
    match returned(&body[0].expr.internal_tok) {
        Expression::TypeCast(inner, t) => {
            assert!(matches!(t.internal_tok, Type::Float));
            assert!(matches!(&inner.expr.internal_tok, Expression::BinaryOp(_, _, BinOp::Add)));
        },
        other => panic!("{:?}", other),
    }
}

#[test]
fn cast_binds_tighter_than_assignment() {
    let ast = parse_source("fn main(): int { a = b || c : int; return 0; }").unwrap();
    let body = main_body(&ast);
    match &body[0].expr.internal_tok {
        Statement::Expression(e) => match &e.expr.internal_tok {
            Expression::Assignment(_, v, _) => {
                assert!(matches!(&v.expr.internal_tok, Expression::TypeCast(x, _)
                    if matches!(&x.expr.internal_tok, Expression::BinaryOp(_, _, BinOp::LogicalOr))));
            },
            other => panic!("{:?}", other),
        },
        other => panic!("{:?}", other),
    }
}

#[test]
fn assignment_target_must_be_an_lvalue() {
    let err = parse_source("fn main(): int { 1 = 2; return 0; }").unwrap_err();
    assert!(matches!(err.message, ErrorMessage::Text(ref m) if m.starts_with("Invalid reassignment identifier")));
}

#[test]
fn body_without_braces_is_made_a_block() {
    let ast = parse_source("fn main(): int return 1;").unwrap();
    let body = main_body(&ast);
    assert_eq!(body.len(), 1);
    assert_eq!(int_of(returned(&body[0].expr.internal_tok)), 1);
}

#[test]
fn if_branches_are_made_blocks() {
    let ast = parse_source("fn main(): int { if x y = 1; else y = 2; return 0; }").unwrap();
    let body = main_body(&ast);
    match &body[0].expr.internal_tok {
        Statement::If(_, t, Some(e)) => {
            assert!(matches!(t.expr.internal_tok, Statement::Compound(ref v) if v.len() == 1));
            assert!(matches!(e.expr.internal_tok, Statement::Compound(ref v) if v.len() == 1));
        },
        other => panic!("{:?}", other),
    }
}

#[test]
fn for_initialization_also_stands_before_the_loop() {
    let ast = parse_source("fn main(): int { for (let i: int = 0; i < 3; i += 1) x = i; return 0; }").unwrap();
    let body = main_body(&ast);
    assert_eq!(body.len(), 3);
    assert!(matches!(body[0].expr.internal_tok, Statement::Let(_, Some(_), _)));
    match &body[1].expr.internal_tok {
        Statement::For(init, _, _, b) => {
            assert!(matches!(init.expr.internal_tok, Statement::Let(_, Some(_), _)));
            assert!(matches!(b.expr.internal_tok, Statement::Compound(_)));
        },
        other => panic!("{:?}", other),
    }
}

#[test]
fn array_literal_is_made_rectangular_and_flat() {
    let ast = parse_source("fn main(): int { let a[2, 2]: array[int] = [[7], [1, 2]]; return 0; }").unwrap();
    let body = main_body(&ast);
    match &body[0].expr.internal_tok {
        Statement::Let(_, Some(e), t) => {
            assert!(matches!(t.internal_tok, Type::Array(_)));
            match &e.expr.internal_tok {
                Expression::Atom(a) => match &a.expr.internal_tok {
                    Atom::Array(elements, dim) => {
                        assert_eq!(*dim, 2);
                        let values: Vec<i64> = elements.iter().map(|x| int_of(&x.expr.internal_tok)).collect();
                        assert_eq!(values, vec![7, 0, 1, 2]);
                    },
                    other => panic!("{:?}", other),
                },
                other => panic!("{:?}", other),
            }
        },
        other => panic!("{:?}", other),
    }
}

#[test]
fn string_literal_is_an_array_of_pieces() {
    let ast = parse_source("fn main(): int { let s: str = \"hello world\"; return 0; }").unwrap();
    let body = main_body(&ast);
    match &body[0].expr.internal_tok {
        Statement::Let(_, Some(e), _) => match &e.expr.internal_tok {
            Expression::Atom(a) => match &a.expr.internal_tok {
                Atom::Array(pieces, dim) => {
                    assert_eq!(pieces.len(), 2);
                    // (11 + 3) / 8
                    assert_eq!(*dim, 1);
                },
                other => panic!("{:?}", other),
            },
            other => panic!("{:?}", other),
        },
        other => panic!("{:?}", other),
    }
}

#[test]
fn generic_type_is_parsed() {
    let tokens = lex("// <f>\nS:<int, *float>;").unwrap();
    let (t, next) = parse_type(&tokens, 0).unwrap();
    assert_eq!(next, 7);
    match t.internal_tok {
        Type::GenericBinding(name, args) => {
            assert_eq!(name, "S");
            assert_eq!(args.len(), 2);
            assert!(matches!(args[0].internal_tok, Type::Int));
            assert!(matches!(args[1].internal_tok, Type::Pointer(_)));
        },
        other => panic!("{:?}", other),
    }
}

#[test]
fn declarations_of_every_kind() {
    let ast = parse_source(
        "const N: int = 3; struct P:<T> { x: T; y: int; } enum C { A, B } fn main(): int { return N; }",
    )
    .unwrap();
    let ns = &ast.program.internal_tok;
    assert_eq!(ns.constants.len(), 1);
    assert_eq!(ns.structs.len(), 1);
    assert_eq!(ns.structs[0].internal_tok.members.len(), 2);
    assert_eq!(ns.structs[0].internal_tok.generics.len(), 1);
    assert_eq!(ns.enums[0].internal_tok.variants.len(), 2);
    assert_eq!(ns.functions.len(), 1);
}

#[test]
fn namespace_is_parsed_into_the_tree() {
    let ast = parse_source("namespace m; fn f(): int { return 1; } spacename; fn main(): int { return 0; }").unwrap();
    let ns = &ast.program.internal_tok;
    assert_eq!(ns.sub_namespaces.len(), 1);
    assert_eq!(ns.sub_namespaces[0].internal_tok.id, "m");
    assert_eq!(ns.sub_namespaces[0].internal_tok.functions.len(), 1);
    assert_eq!(ns.functions.len(), 1);
}

#[test]
fn toplevel_cannot_name_a_namespace() {
    let err = parse_source("namespace toplevel; spacename;").unwrap_err();
    assert!(matches!(err.message, ErrorMessage::Text(ref m) if m == "cannot use 'toplevel' as a namespace name"));
}

#[test]
fn namespace_needs_spacename() {
    let err = parse_source("namespace m; fn f(): int { return 1; }").unwrap_err();
    assert!(matches!(err.message, ErrorMessage::Text(ref m) if m == "unexpected EOF: Missing 'spacename' keyword"));
}

#[test]
fn spacename_outside_namespace_is_an_error() {
    let err = parse_source("spacename;").unwrap_err();
    assert!(matches!(err.message, ErrorMessage::Text(ref m) if m == "cannot use 'spacename' outside of a namespace"));
}

#[test]
fn missing_semicolon_is_reported_where_found() {
    let err = parse_source("fn main(): int {\n return 0 }").unwrap_err();
    assert_eq!(err.line, 2);
    assert_eq!(err.file, "main.dpl");
    match err.message {
        ErrorMessage::Expected(what, found) => {
            assert_eq!(what, "semicolon");
            assert!(matches!(found, Token::RBrace));
        },
        other => panic!("{:?}", other),
    }
}

#[test]
fn constant_must_be_assigned() {
    let err = parse_source("const N: int;").unwrap_err();
    assert!(matches!(err.message, ErrorMessage::Expected(ref w, _) if w.starts_with("assignment operator")));
}

#[test]
fn union_is_no_keyword() {
    let err = parse_source("union U { }").unwrap_err();
    match err.message {
        ErrorMessage::Expected(what, found) => {
            assert_eq!(what, "function, constant, struct, enum or union declaration");
            assert!(matches!(found, Token::Identifier(ref s) if s == "union"));
        },
        other => panic!("{:?}", other),
    }
}

#[test]
fn literals_as_text() {
    assert_eq!(Literal::Bool(true).to_text(), "0xFFFFFFFFFFFFFFFF");
    assert_eq!(Literal::Bool(false).to_text(), "0");
    assert_eq!(Literal::Int(-42).to_text(), "-42");
    assert_eq!(Literal::Int(i64::MIN).to_text(), "-9223372036854775808");
    assert_eq!(Literal::Int(0).to_text(), "0");
    assert_eq!(Literal::Hex(255).to_text(), "0xff");
    assert_eq!(Literal::Hex(-1).to_text(), "0xffffffffffffffff");
    assert_eq!(Literal::Binary(5).to_text(), "0b101");
    assert_eq!(Literal::Char("a".to_string()).to_text(), "'a'");
    assert_eq!(Literal::Float("1.50".to_string()).to_text(), "1.50");
}

fn element(e: Expression) -> dubious::shared::Typed<dubious::shared::TokenWithDebugInfo<Expression>> {
    dubious::shared::Typed::new(dubious::shared::TokenWithDebugInfo { internal_tok: e, line: 1, file: String::new() })
}

fn atom_element(a: Atom) -> dubious::shared::Typed<dubious::shared::TokenWithDebugInfo<Expression>> {
    element(Expression::Atom(dubious::shared::Typed::new(dubious::shared::TokenWithDebugInfo {
        internal_tok: a,
        line: 1,
        file: String::new(),
    })))
}

fn int_element(v: i64) -> dubious::shared::Typed<dubious::shared::TokenWithDebugInfo<Expression>> {
    atom_element(Atom::Literal(dubious::shared::Typed::new(dubious::shared::TokenWithDebugInfo {
        internal_tok: Literal::Int(v),
        line: 1,
        file: String::new(),
    })))
}

#[test]
fn array_dimensions_take_the_largest_nested_size() {
    let a = Atom::Array(
        vec![
            atom_element(Atom::Array(vec![int_element(1), int_element(2), int_element(3)], 3)),
            atom_element(Atom::Array(vec![int_element(4)], 1)),
            int_element(5),
        ],
        3,
    );
    assert_eq!(find_arr_dims(&a), Some(vec![3, 3]));
}

#[test]
fn array_dimensions_merge_position_by_position() {
    let deep = Atom::Array(vec![atom_element(Atom::Array(vec![int_element(1), int_element(2)], 2))], 1);
    let a = Atom::Array(vec![atom_element(deep), atom_element(Atom::Array(vec![int_element(5)], 4))], 2);
    assert_eq!(find_arr_dims(&a), Some(vec![2, 4, 2]));
    assert_eq!(find_arr_dims(&Atom::Array(Vec::new(), 0)), Some(vec![0]));
}

#[test]
fn only_an_array_has_dimensions() {
    let a = Atom::Variable(dubious::shared::TokenWithDebugInfo { internal_tok: "x".to_string(), line: 1, file: String::new() });
    assert_eq!(find_arr_dims(&a), None);
}

#[test]
fn flatten_puts_nested_elements_in_place() {
    let inner = atom_element(Atom::Array(vec![int_element(1), int_element(2)], 2));
    let flat = flatten(&vec![inner, int_element(3), atom_element(Atom::Array(vec![int_element(4)], 1))]);
    let values: Vec<i64> = flat.iter().map(|x| int_of(&x.expr.internal_tok)).collect();
    assert_eq!(values, vec![1, 2, 3, 4]);
}

#[test]
fn string_literal_pieces_hold_eight_characters() {
    let ast = parse_source("fn main(): int { let s: str = \"abcdefghij\"; return 0; }").unwrap();
    let body = main_body(&ast);
    match &body[0].expr.internal_tok {
        Statement::Let(_, Some(e), _) => match &e.expr.internal_tok {
            Expression::Atom(a) => match &a.expr.internal_tok {
                Atom::Array(pieces, dim) => {
                    let texts: Vec<String> = pieces
                        .iter()
                        .map(|p| match &p.expr.internal_tok {
                            Expression::Atom(x) => match &x.expr.internal_tok {
                                Atom::Literal(l) => match &l.expr.internal_tok {
                                    Literal::Char(c) => c.clone(),
                                    other => panic!("{:?}", other),
                                },
                                other => panic!("{:?}", other),
                            },
                            other => panic!("{:?}", other),
                        })
                        .collect();
                    assert_eq!(texts, vec!["abcdefgh".to_string(), "ij".to_string()]);
                    assert_eq!(*dim, 1);
                },
                other => panic!("{:?}", other),
            },
            other => panic!("{:?}", other),
        },
        other => panic!("{:?}", other),
    }
}

#[test]
fn struct_members_need_no_semicolon_between_them() {
    let tokens = lex("// <f>\nstruct P:<T, U> { x: int y: T;; z: array[U]; }").unwrap();
    let (st, next) = parse_struct(&tokens, 0).unwrap();
    assert_eq!(next, tokens.len() - 1);
    let s = st.internal_tok;
    assert_eq!(s.id.internal_tok, "P");
    let names: Vec<String> = s.members.iter().map(|m| m.0.internal_tok.clone()).collect();
    assert_eq!(names, vec!["x".to_string(), "y".to_string(), "z".to_string()]);
    assert!(matches!(s.members[0].1.internal_tok, Type::Int));
    assert!(matches!(s.members[1].1.internal_tok, Type::Struct(ref n) if n == "T"));
    assert!(matches!(s.members[2].1.internal_tok, Type::Array(_)));
    let generics: Vec<String> = s.generics.iter().map(|g| g.internal_tok.clone()).collect();
    assert_eq!(generics, vec!["T".to_string(), "U".to_string()]);
}

#[test]
fn struct_member_without_type_is_refused() {
    let tokens = lex("// <f>\nstruct P { x; }").unwrap();
    assert!(parse_struct(&tokens, 0).is_err());
}

#[test]
fn enum_variants_in_order() {
    let tokens = lex("// <f>\nenum C { Red, Green, Blue }").unwrap();
    let (en, next) = parse_enum(&tokens, 0).unwrap();
    assert_eq!(next, 9);
    assert_eq!(next, tokens.len() - 1);
    let names: Vec<String> = en.internal_tok.variants.iter().map(|v| v.internal_tok.clone()).collect();
    assert_eq!(names, vec!["Red".to_string(), "Green".to_string(), "Blue".to_string()]);
    let bad = lex("// <f>\nenum C { Red, }").unwrap();
    assert!(parse_enum(&bad, 0).is_err());
}

#[test]
fn nested_generic_type_is_parsed() {
    let tokens = lex("// <f>\nm::S:<array[int], *T:<char>>;").unwrap();
    let (t, next) = parse_type(&tokens, 0).unwrap();
    assert_eq!(next, tokens.len() - 2);
    match t.internal_tok {
        Type::Namespace(n, inner) => {
            assert_eq!(n, "m");
            match inner.internal_tok {
                Type::GenericBinding(s, args) => {
                    assert_eq!(s, "S");
                    assert_eq!(args.len(), 2);
                    assert!(matches!(args[0].internal_tok, Type::Array(_)));
                    assert!(matches!(args[1].internal_tok, Type::Pointer(_)));
                },
                other => panic!("{:?}", other),
            }
        },
        other => panic!("{:?}", other),
    }
}

#[test]
fn constant_takes_a_literal() {
    let tokens = lex("// <f>\nconst N: int = 3;").unwrap();
    let (_, next) = parse_const(&tokens, 0).unwrap();
    assert_eq!(next, 7);
    let bad = lex("// <f>\nconst N: int = x;").unwrap();
    assert!(parse_const(&bad, 0).is_err());
}

#[test]
fn simple_statements_have_exact_forms() {
    let tokens = lex("// <f>\nbreak;").unwrap();
    let (s, next) = parse_statement(&tokens, 0).unwrap();
    assert!(matches!(s.internal_tok, Statement::Break));
    assert_eq!(next, 2);
    let tokens = lex("// <f>\ncontinue x").unwrap();
    assert!(parse_statement(&tokens, 0).is_err());
    let tokens = lex("// <f>\nasm \"nop\" : int;").unwrap();
    let (s, next) = parse_statement(&tokens, 0).unwrap();
    assert_eq!(next, 5);
    match s.internal_tok {
        Statement::Asm(code, t) => {
            assert_eq!(code.internal_tok, "nop");
            assert!(matches!(t.internal_tok, Type::Int));
        },
        other => panic!("{:?}", other),
    }
    let tokens = lex("// <f>\nasm \"nop\";").unwrap();
    let (s, next) = parse_statement(&tokens, 0).unwrap();
    assert_eq!(next, 3);
    assert!(matches!(s.internal_tok, Statement::Asm(_, ref t) if matches!(t.internal_tok, Type::Void)));
}

#[test]
fn let_statements_with_and_without_a_value() {
    let tokens = lex("// <f>\nlet x: int;").unwrap();
    let (s, next) = parse_statement(&tokens, 0).unwrap();
    assert_eq!(next, 5);
    assert!(matches!(s.internal_tok, Statement::Let(_, None, ref t) if matches!(t.internal_tok, Type::Int)));
    let tokens = lex("// <f>\nlet x: float = 1.5;").unwrap();
    let (s, _) = parse_statement(&tokens, 0).unwrap();
    assert!(matches!(s.internal_tok, Statement::Let(_, Some(_), ref t) if matches!(t.internal_tok, Type::Float)));
    let tokens = lex("// <f>\nlet x int;").unwrap();
    assert!(parse_statement(&tokens, 0).is_err());
}

#[test]
fn functions_with_empty_bodies_parse() {
    let ast = parse_source("fn main(): int {} fn f(): void {}").unwrap();
    let functions = &ast.program.internal_tok.functions;
    assert_eq!(functions.len(), 2);
    for f in functions {
        assert!(f.expr.internal_tok.args.is_empty());
        assert!(f.expr.internal_tok.generics.is_empty());
        assert!(matches!(&f.expr.internal_tok.body.expr.internal_tok, Statement::Compound(v) if v.is_empty()));
    }
    assert!(ast.program.internal_tok.sub_namespaces.is_empty());
}

#[test]
fn array_literal_of_one_name_has_size_one() {
    let ast = parse_source("fn main(): int { let a: array[int] = [x]; return 0; }").unwrap();
    match &main_body(&ast)[0].expr.internal_tok {
        Statement::Let(_, Some(e), _) => match &e.expr.internal_tok {
            Expression::Atom(a) => assert!(matches!(&a.expr.internal_tok, Atom::Array(v, 1) if v.len() == 1)),
            other => panic!("not an atom: {:?}", other),
        },
        other => panic!("not a let with a value: {:?}", other),
    }
}

#[test]
fn lone_name_is_a_variable_statement() {
    let ast = parse_source("fn main(): int { x; return 0; }").unwrap();
    match &main_body(&ast)[0].expr.internal_tok {
        Statement::Expression(e) => match &e.expr.internal_tok {
            Expression::Atom(a) => assert!(matches!(&a.expr.internal_tok, Atom::Variable(v) if v.internal_tok == "x")),
            other => panic!("not an atom: {:?}", other),
        },
        other => panic!("not an expression statement: {:?}", other),
    }
}

#[test]
fn declarations_are_listed_in_the_order_written() {
    let ast = parse_source("const A: int = 1; fn f(): int {} fn g(): void {} struct S { x: int; }").unwrap();
    let ns = &ast.program.internal_tok;
    let names: Vec<String> = ns.functions.iter().map(|f| f.expr.internal_tok.id.internal_tok.clone()).collect();
    assert_eq!(names, vec!["f".to_string(), "g".to_string()]);
    assert_eq!(ns.constants.len(), 1);
    assert_eq!(ns.structs[0].internal_tok.id.internal_tok, "S");
}

#[test]
fn for_with_an_empty_header_field_is_refused() {
    assert!(parse_source("fn main(): int { for (;;) {} return 0; }").is_err());
}

#[test]
fn for_with_an_empty_header_reports_the_semicolon() {
    let err = parse_source("fn main(): int {\nfor (;;) {} return 0; }").unwrap_err();
    assert_eq!(err.line, 2);
    assert_eq!(err.file, "main.dpl");
    match &err.message {
        ErrorMessage::Expected(what, found) => {
            assert_eq!(what, "valid atom token");
            assert!(matches!(found, Token::Semicolon));
            assert_eq!(err.located_message(&format!("Expected {}, found: {:?}", what, found)), "main.dpl:2: Expected valid atom token, found: Semicolon");
        },
        other => panic!("{:?}", other),
    }
}

#[test]
fn if_bodies_stay_in_place() {
    let ast = parse_source("fn main(): int {\nif 1 {\nreturn 1;\n} else {\nreturn 2;\n}\n}").unwrap();
    match &main_body(&ast)[0].expr.internal_tok {
        Statement::If(_, a, Some(b)) => {
            assert_eq!(a.expr.line, 2);
            assert_eq!(b.expr.line, 4);
        },
        other => panic!("{:?}", other),
    }
}
