use dubious::ast_build::{parse, Ast, Atom, BinOp, Expression, Literal, Statement, UnOp};
use dubious::lexer::lex;
use dubious::logic_checker::{
    binop_result, check_program, get_all_functions_structs_enums_consts, mangle, number_text, qualify, unop_result,
    Declarations,
};
use dubious::shared::{error, type_to_string, types_equal, CompileError, ErrorMessage, TokenWithDebugInfo, Type};

fn check_source(body: &str) -> Result<Ast, CompileError> {
    let src = format!("// <main.dpl>\n{}", body);
    let tokens = lex(&src).unwrap();
    let ast = parse(&tokens).unwrap();
    check_program(&ast)
}

fn message(e: &CompileError) -> String {
    match &e.message {
        ErrorMessage::Text(m) => m.clone(),
        ErrorMessage::Expected(w, _) => w.clone(),
    }
}

fn function_names(ast: &Ast) -> Vec<String> {
    ast.program.internal_tok.functions.iter().map(|f| f.expr.internal_tok.id.internal_tok.clone()).collect()
}

fn ty(t: Type) -> TokenWithDebugInfo<Type> {
    TokenWithDebugInfo { internal_tok: t, line: 0, file: String::new() }
}

#[test]
fn minimal_program_checks() {
    let ast = check_source("fn main(): int { return 0; }").unwrap();
    assert_eq!(function_names(&ast), vec!["toplevel::main".to_string()]);
    let main = &ast.program.internal_tok.functions[0];
    assert!(matches!(main.type_, Type::Int));
    assert!(matches!(main.expr.internal_tok.body.type_, Type::Int));
    assert!(ast.program.internal_tok.sub_namespaces.is_empty());
}

#[test]
fn main_is_required() {
    let err = check_source("fn f(): int { return 0; }").unwrap_err();
    assert!(message(&err).starts_with("Main function not found"));
}

#[test]
fn main_must_return_an_int() {
    let err = check_source("fn main(): float { return 1.0; }").unwrap_err();
    assert_eq!(message(&err), "Main function must return an integer");
}

#[test]
fn start_is_reserved() {
    let err = check_source("fn _start(): int { return 0; } fn main(): int { return 0; }").unwrap_err();
    assert!(message(&err).starts_with("Function cannot be called '_start'"));
}

#[test]
fn functions_are_declared_once() {
    let err = check_source("fn f(): int { return 0; } fn f(): int { return 1; } fn main(): int { return 0; }").unwrap_err();
    assert_eq!(message(&err), "Function 'f' is declared more than once");
}

#[test]
fn body_type_must_be_return_type() {
    let err = check_source("fn main(): int { return 1.5; }").unwrap_err();
    assert_eq!(message(&err), "Function 'toplevel::main' body type (float) does not match return type (int)");
}

#[test]
fn arithmetic_needs_one_numeric_type() {
    let err = check_source("fn main(): int { return 1 + 2.0; }").unwrap_err();
    assert_eq!(message(&err), "Invalid types for arithmetic operation: 'int' and 'float'");
}

#[test]
fn comparison_gives_bool() {
    let ast = check_source("fn main(): int { let b: bool = 1 < 2; return 0; }").unwrap();
    let body = &ast.program.internal_tok.functions[0].expr.internal_tok.body.expr.internal_tok;
    match body {
        Statement::Compound(v) => {
            assert!(matches!(v[0].type_, Type::Bool));
            match &v[0].expr.internal_tok {
                Statement::Let(_, Some(e), _) => {
                    assert!(matches!(e.type_, Type::Bool));
                    assert!(matches!(e.expr.internal_tok, Expression::BinaryOp(_, _, BinOp::LessThan)));
                },
                other => panic!("{:?}", other),
            }
        },
        other => panic!("{:?}", other),
    }
}

#[test]
fn if_condition_must_be_bool() {
    let err = check_source("fn main(): int { if 1 { return 0; } return 0; }").unwrap_err();
    assert_eq!(message(&err), "Condition in if statement is not a boolean: 'int'");
}

#[test]
fn let_type_must_match_value() {
    let err = check_source("fn main(): int { let x: int = 1.5; return 0; }").unwrap_err();
    assert_eq!(message(&err), "Variable type does not match expression type: 'int' and 'float'");
}

#[test]
fn variables_must_be_in_scope() {
    let err = check_source("fn main(): int { return y; }").unwrap_err();
    assert_eq!(message(&err), "Variable 'y' not in scope");
}

#[test]
fn block_variables_leave_scope() {
    let err = check_source("fn main(): int { { let x: int = 1; } return x; }").unwrap_err();
    assert_eq!(message(&err), "Variable 'x' not in scope");
}

#[test]
fn function_arguments_are_checked() {
    let err = check_source("fn f(a: int): int { return a; } fn main(): int { return f(1.5); }").unwrap_err();
    assert_eq!(message(&err), "Argument 0 of function 'toplevel::f' has type 'float', but 'int' was expected");
    let err = check_source("fn f(a: int): int { return a; } fn main(): int { return f(); }").unwrap_err();
    assert_eq!(message(&err), "Function 'toplevel::f' expects 1 arguments, but 0 were provided");
}

#[test]
fn generic_function_is_instantiated_once() {
    let ast = check_source(
        "fn id:<T>(x: T): T { return x; } fn main(): int { let a: int = id:<int>(3); return id:<int>(a); }",
    )
    .unwrap();
    assert_eq!(function_names(&ast), vec!["toplevel::id..int".to_string(), "toplevel::main".to_string()]);
    let inst = &ast.program.internal_tok.functions[0];
    assert!(matches!(inst.type_, Type::Int));
    assert!(inst.expr.internal_tok.generics.is_empty());
}

#[test]
fn generic_function_needs_its_bindings() {
    let err = check_source("fn id:<T>(x: T): T { return x; } fn main(): int { return id:<int, int>(3); }").unwrap_err();
    assert_eq!(message(&err), "Function 'toplevel::id' expects 1 generics, but 2 were provided");
}

#[test]
fn struct_members_are_indexed() {
    let ast = check_source("struct P { x: int; y: int; } fn main(): int { let p: P = P{1, 2}; return p.y; }").unwrap();
    let body = &ast.program.internal_tok.functions[0].expr.internal_tok.body.expr.internal_tok;
    match body {
        Statement::Compound(v) => match &v[1].expr.internal_tok {
            Statement::Return(e) => {
                assert!(matches!(e.type_, Type::Int));
                match &e.expr.internal_tok {
                    Expression::BinaryOp(_, idx, BinOp::MemberAccess) => match &idx.expr.internal_tok {
                        Expression::Atom(a) => match &a.expr.internal_tok {
                            Atom::Literal(l) => assert!(matches!(l.expr.internal_tok, Literal::Int(1))),
                            other => panic!("{:?}", other),
                        },
                        other => panic!("{:?}", other),
                    },
                    other => panic!("{:?}", other),
                }
            },
            other => panic!("{:?}", other),
        },
        other => panic!("{:?}", other),
    }
}

#[test]
fn struct_member_named_len_is_refused() {
    let err = check_source("struct P { len: int; } fn main(): int { return 0; }").unwrap_err();
    assert_eq!(message(&err), "Struct 'toplevel::P' has a member named 'len': 'len' is a reserved member name");
}

#[test]
fn struct_members_are_distinct() {
    let err = check_source("struct P { x: int; x: int; } fn main(): int { return 0; }").unwrap_err();
    assert_eq!(message(&err), "Struct 'toplevel::P' has duplicate member 'x'");
}

#[test]
fn enum_variant_is_its_index() {
    let ast = check_source("enum C { Red, Green } fn main(): int { let c: C = C.Green; return 0; }").unwrap();
    let body = &ast.program.internal_tok.functions[0].expr.internal_tok.body.expr.internal_tok;
    match body {
        Statement::Compound(v) => match &v[0].expr.internal_tok {
            Statement::Let(_, Some(e), t) => {
                assert!(matches!(&t.internal_tok, Type::Enum(n) if n == "toplevel::C"));
                assert!(matches!(&e.type_, Type::Enum(n) if n == "toplevel::C"));
            },
            other => panic!("{:?}", other),
        },
        other => panic!("{:?}", other),
    }
}

#[test]
fn enum_variants_are_distinct() {
    let err = check_source("enum C { A, A } fn main(): int { return 0; }").unwrap_err();
    assert_eq!(message(&err), "Enum 'toplevel::C' has duplicate variant 'A'");
}

#[test]
fn namespaces_are_merged() {
    let ast = check_source("namespace m; fn f(): int { return 1; } spacename; fn main(): int { return m::f(); }").unwrap();
    assert_eq!(function_names(&ast), vec!["toplevel::main".to_string(), "toplevel::m::f".to_string()]);
    assert!(ast.program.internal_tok.sub_namespaces.is_empty());
}

#[test]
fn constants_have_their_declared_type() {
    let ast = check_source("const N: int = 3; fn main(): int { return N; }").unwrap();
    assert_eq!(ast.program.internal_tok.constants.len(), 1);
    let err = check_source("const N: int = 1.5; fn main(): int { return 0; }").unwrap_err();
    assert_eq!(message(&err), "Constant 'toplevel::N' type does not match expression type: 'int' and 'float'");
}

#[test]
fn pointers_dereference_to_their_target() {
    check_source("fn main(): int { let x: int = 1; let p: *int = &x; return *p; }").unwrap();
    let err = check_source("fn main(): int { let x: int = 1; return *x; }").unwrap_err();
    assert_eq!(message(&err), "Dereferencing a non-pointer type: 'int'");
}

#[test]
fn compound_assignment_needs_numbers() {
    check_source("fn main(): int { let x: int = 1; x += 2; return x; }").unwrap();
    let err = check_source("fn main(): int { let b: bool = true; b += false; return 0; }").unwrap_err();
    assert_eq!(
        message(&err),
        "This assignment operation is only supported for integers and floats, but got 'bool' and 'bool'"
    );
}

#[test]
fn array_elements_share_a_type() {
    let err = check_source("fn main(): int { let a[2]: array[int] = [1, 2.0]; return 0; }").unwrap_err();
    assert_eq!(message(&err), "Array elements are not of the same type: 'int' and 'float'");
}

#[test]
fn multidimensional_access_becomes_flat() {
    let ast = check_source("fn main(): int { let a[2, 3]: array[int] = [0, 1, 2, 3, 4, 5]; return a[1, 2]; }").unwrap();
    let body = &ast.program.internal_tok.functions[0].expr.internal_tok.body.expr.internal_tok;
    match body {
        Statement::Compound(v) => match &v[1].expr.internal_tok {
            Statement::Return(e) => {
                assert!(matches!(e.type_, Type::Int));
                match &e.expr.internal_tok {
                    Expression::ArrayAccess(_, idx) => {
                        assert_eq!(idx.len(), 1);
                        assert!(matches!(idx[0].expr.internal_tok, Expression::BinaryOp(_, _, BinOp::Add)));
                    },
                    other => panic!("{:?}", other),
                }
            },
            other => panic!("{:?}", other),
        },
        other => panic!("{:?}", other),
    }
}

#[test]
fn type_texts() {
    assert_eq!(type_to_string(&Type::Array(Box::new(ty(Type::Pointer(Box::new(ty(Type::Char))))))), "[*char]");
    assert_eq!(
        type_to_string(&Type::GenericBinding("S".to_string(), vec![ty(Type::Int), ty(Type::Bool)])),
        "S<int, bool>"
    );
    assert_eq!(type_to_string(&Type::Namespace("m".to_string(), Box::new(ty(Type::Struct("P".to_string()))))), "m::P");
}

#[test]
fn types_compare_without_positions() {
    let a = Type::Pointer(Box::new(TokenWithDebugInfo { internal_tok: Type::Int, line: 3, file: "a".to_string() }));
    let b = Type::Pointer(Box::new(TokenWithDebugInfo { internal_tok: Type::Int, line: 9, file: "b".to_string() }));
    assert!(types_equal(&a, &b));
    assert!(!types_equal(&a, &Type::Int));
}

#[test]
fn binary_operator_rules() {
    assert!(matches!(binop_result(BinOp::Add, &Type::Float, &Type::Float), Some(Type::Float)));
    assert!(matches!(binop_result(BinOp::Modulus, &Type::Int, &Type::Int), Some(Type::Int)));
    assert!(binop_result(BinOp::Modulus, &Type::Float, &Type::Float).is_none());
    assert!(matches!(binop_result(BinOp::LogicalXor, &Type::Bool, &Type::Bool), Some(Type::Bool)));
    assert!(matches!(binop_result(BinOp::Equal, &Type::Char, &Type::Char), Some(Type::Bool)));
    assert!(binop_result(BinOp::LessThan, &Type::Char, &Type::Char).is_none());
}

#[test]
fn names_are_qualified_and_mangled() {
    assert_eq!(qualify(&"toplevel::".to_string(), &"f".to_string()), "toplevel::f");
    assert_eq!(qualify(&"toplevel::".to_string(), &"a::f".to_string()), "a::f");
    assert_eq!(qualify(&"toplevel::m::".to_string(), &"toplevel".to_string()), "toplevel");
    assert_eq!(mangle(&"toplevel::S".to_string(), &vec![ty(Type::Int), ty(Type::Pointer(Box::new(ty(Type::Char))))]), "toplevel::S..int...char");
}

#[test]
fn numbers_as_text() {
    assert_eq!(number_text(0), "0");
    assert_eq!(number_text(1207), "1207");
}

#[test]
fn for_variable_stays_in_scope_after_the_loop() {
    check_source("fn main(): int { for (let i: int = 0; i < 3; i += 1) { } return i; }").unwrap();
}

#[test]
fn parameters_do_not_leak_out_of_functions() {
    let err = check_source("fn f(a: int): int { return a; } fn main(): int { return a; }").unwrap_err();
    assert_eq!(message(&err), "Variable 'a' not in scope");
}

#[test]
fn generic_struct_is_laid_out_for_its_arguments() {
    let ast = check_source(
        "struct B:<T> { v: T; } fn main(): int { let b: B:<int> = B:<int>{3}; return b.v; }",
    )
    .unwrap();
    assert_eq!(ast.program.internal_tok.functions.len(), 1);
}

fn declarations_of(body: &str) -> Result<Declarations, CompileError> {
    let src = format!("// <main.dpl>\n{}", body);
    let tokens = lex(&src).unwrap();
    let ast = parse(&tokens).unwrap();
    get_all_functions_structs_enums_consts(&ast.program, "")
}

fn declaration_error(body: &str) -> CompileError {
    match declarations_of(body) {
        Ok(_) => panic!("declarations accepted"),
        Err(e) => e,
    }
}

#[test]
fn constants_are_declared_once() {
    let err = declaration_error("const N: int = 1; const N: int = 2; fn main(): int { return 0; }");
    assert_eq!(message(&err), "Constant 'toplevel::N' is declared more than once");
}

#[test]
fn structs_are_declared_once() {
    let err = declaration_error("struct P { x: int; } struct P:<T> { y: T; } fn main(): int { return 0; }");
    assert_eq!(message(&err), "Struct 'toplevel::P' is declared more than once");
}

#[test]
fn an_enum_may_not_take_a_struct_name() {
    let err = declaration_error("struct P { x: int; } enum P { A } fn main(): int { return 0; }");
    assert_eq!(message(&err), "Enum 'toplevel::P' has the same name as a struct");
}

#[test]
fn an_enum_may_share_a_generic_struct_name() {
    let d = declarations_of("struct P:<T> { x: T; } enum P { A } fn main(): int { return 0; }").ok().unwrap();
    assert!(d.enums.contains_key("toplevel::P"));
    assert!(d.generic_structs.contains_key("toplevel::P"));
    assert!(!d.concrete_structs.contains_key("toplevel::P"));
}

#[test]
fn declarations_are_qualified_by_namespace() {
    let d = declarations_of(
        "namespace m; fn f(): int { return 1; } const N: int = 2; spacename; fn f(): int { return 0; } fn main(): int { return 0; }",
    )
    .ok()
    .unwrap();
    assert!(d.concrete_functions.contains_key("toplevel::f"));
    assert!(d.concrete_functions.contains_key("toplevel::m::f"));
    assert!(d.constants.contains_key("toplevel::m::N"));
    assert!(!d.constants.contains_key("toplevel::N"));
    assert!(d.concrete_functions.contains_key("toplevel::main"));
}

#[test]
fn duplicates_in_an_inner_namespace_are_found() {
    let err = declaration_error("namespace m; enum E { A } enum E { B } spacename; fn main(): int { return 0; }");
    assert_eq!(message(&err), "Enum 'toplevel::m::E' is declared more than once");
}

#[test]
fn unary_operators_follow_their_rules() {
    let f = String::new();
    assert!(matches!(unop_result(UnOp::UnaryMinus, &Type::Float, 0, &f), Some(Type::Float)));
    assert!(matches!(unop_result(UnOp::PreIncrement, &Type::Int, 0, &f), Some(Type::Int)));
    assert!(unop_result(UnOp::UnaryMinus, &Type::Bool, 0, &f).is_none());
    assert!(matches!(unop_result(UnOp::LogicalNot, &Type::Bool, 0, &f), Some(Type::Bool)));
    assert!(unop_result(UnOp::LogicalNot, &Type::Int, 0, &f).is_none());
    let p = Type::Pointer(Box::new(ty(Type::Char)));
    assert!(matches!(unop_result(UnOp::Dereference, &p, 0, &f), Some(Type::Char)));
    assert!(unop_result(UnOp::Dereference, &Type::Int, 0, &f).is_none());
    match unop_result(UnOp::AddressOf, &Type::Int, 3, &f) {
        Some(Type::Pointer(inner)) => {
            assert!(matches!(inner.internal_tok, Type::Int));
            assert_eq!(inner.line, 3);
        },
        other => panic!("{:?}", other),
    }
    assert!(unop_result(UnOp::NotAUnaryOp, &Type::Int, 0, &f).is_none());
}

#[test]
fn a_cast_gives_the_target_type() {
    let ast = check_source("fn main(): int { let f: float = 1.5; return f : int; }").unwrap();
    let main = &ast.program.internal_tok.functions[0];
    assert!(matches!(main.expr.internal_tok.body.type_, Type::Int));
    let err = check_source("fn main(): int { let f: float = 1.5; return f; }").unwrap_err();
    assert!(!message(&err).is_empty());
}

#[test]
fn calling_an_unknown_function_is_refused() {
    let err = check_source("fn main(): int { return g(1); }").unwrap_err();
    assert_eq!(message(&err), "Function 'toplevel::g' not in scope");
}

#[test]
fn a_call_has_the_return_type_of_its_function() {
    let ast = check_source("fn f(x: int): float { return 1.5; } fn main(): int { let y: float = f(2); return 0; }").unwrap();
    assert_eq!(ast.program.internal_tok.functions.len(), 2);
    let err = check_source("fn f(x: int): float { return 1.5; } fn main(): int { let y: int = f(2); return 0; }").unwrap_err();
    assert!(!message(&err).is_empty());
}

#[test]
fn struct_instances_follow_the_declaration() {
    let err = check_source("struct P { x: int; y: int; } fn main(): int { let p: P = P{1}; return 0; }").unwrap_err();
    assert_eq!(message(&err), "Struct 'toplevel::P' has 2 members, but 1 were provided");
    let err = check_source("fn main(): int { let p: int = Q{1}; return 0; }").unwrap_err();
    assert_eq!(message(&err), "Struct 'toplevel::Q' not in scope");
    let err = check_source("struct P { x: int; } fn main(): int { let p: P = P{1.5}; return 0; }").unwrap_err();
    assert!(message(&err).starts_with("Struct member type does not match expression type"));
}

#[test]
fn member_access_follows_the_declaration() {
    let err = check_source("enum C { A } fn main(): int { let c: C = C.B; return 0; }").unwrap_err();
    assert_eq!(message(&err), "Enum 'toplevel::C' does not have variant 'B'");
    let err = check_source("struct P { x: int; } fn main(): int { let p: P = P{1}; return p.y; }").unwrap_err();
    assert_eq!(message(&err), "Struct 'toplevel::P' does not have member 'y'");
    let ast = check_source("struct P { x: int; y: int; } fn main(): int { let p: P = P{1, 2}; return p.len; }").unwrap();
    assert!(matches!(ast.program.internal_tok.functions[0].expr.internal_tok.body.type_, Type::Int));
}

#[test]
fn declarations_are_visible_before_they_appear() {
    let ast = check_source("fn main(): int { let p: P = P{N}; return f(p.x); } fn f(a: int): int { return a; } struct P { x: int; } const N: int = 3;")
        .unwrap();
    assert_eq!(ast.program.internal_tok.functions.len(), 2);
}

#[test]
fn toplevel_path_reaches_everything() {
    let ast = check_source("namespace m; fn g(): int { return 2; } spacename; fn main(): int { return toplevel::m::g(); }").unwrap();
    assert!(function_names(&ast).contains(&"toplevel::m::g".to_string()));
}

#[test]
fn literal_statements_check_whatever_the_context() {
    let ast = check_source("fn main(): int { let x: int = 1; true; return 2; }").unwrap();
    let main = &ast.program.internal_tok.functions[0];
    assert!(matches!(main.expr.internal_tok.body.type_, Type::Int));
}

#[test]
fn body_of_the_wrong_literal_type_is_refused() {
    let err = check_source("fn main(): int { return true; }").unwrap_err();
    assert!(message(&err).contains("body type"));
}

#[test]
fn checked_declarations_keep_their_names() {
    let ast = check_source("const N: int = 3; enum E { A, B } fn main(): int { return N; }").unwrap();
    let ns = &ast.program.internal_tok;
    match &ns.constants[0].expr.internal_tok {
        dubious::ast_build::Constant::Constant(id, _, _) => assert_eq!(id.internal_tok, "toplevel::N"),
    }
    assert_eq!(ns.enums[0].internal_tok.id.internal_tok, "E");
}

#[test]
fn let_variable_is_in_scope_for_later_statements() {
    let ast = check_source("fn main(): int { let x: int = 5; x; return x; }").unwrap();
    let body = &ast.program.internal_tok.functions[0].expr.internal_tok.body;
    assert!(matches!(body.type_, Type::Int));
    match &body.expr.internal_tok {
        Statement::Compound(v) => {
            assert!(matches!(v[1].type_, Type::Int));
            assert!(matches!(v[2].type_, Type::Int));
        },
        other => panic!("{:?}", other),
    }
}

#[test]
fn errors_are_reported_with_file_and_line() {
    let token = TokenWithDebugInfo { internal_tok: 0, line: 3, file: "a.dpl".to_string() };
    let e = error("bad", &token);
    assert_eq!(message(&e), "bad");
    assert_eq!(e.located_message("bad"), "a.dpl:3: bad");
}

#[test]
fn if_and_else_branches_must_agree() {
    let err = check_source("fn main(): int { if true { 1; } else { 2.0; } return 0; }").unwrap_err();
    assert_eq!(message(&err), "If and else branches have different types: 'int' and 'float'");
    let ast = check_source("fn main(): int { if true { 1; } else { let y: int = 2; y; } return 0; }").unwrap();
    let body = &ast.program.internal_tok.functions[0].expr.internal_tok.body.expr.internal_tok;
    match body {
        Statement::Compound(v) => assert!(matches!(v[0].type_, Type::Int)),
        other => panic!("{:?}", other),
    }
}

#[test]
fn while_condition_must_be_bool() {
    let err = check_source("fn main(): int { while 1.5 { 1; } return 0; }").unwrap_err();
    assert_eq!(message(&err), "Condition in while statement is not a boolean: 'float'");
}

fn int_literal_value(e: &Expression) -> Option<i64> {
    match e {
        Expression::Atom(a) => match &a.expr.internal_tok {
            Atom::Literal(l) => match l.expr.internal_tok {
                Literal::Int(v) => Some(v),
                _ => None,
            },
            _ => None,
        },
        _ => None,
    }
}

/// `((0 * d1 + i1) * d2 + i2)`, read back as its literals.
fn row_major_parts(e: &Expression) -> Vec<(i64, i64)> {
    match e {
        Expression::BinaryOp(scaled, i, BinOp::Add) => match &scaled.expr.internal_tok {
            Expression::BinaryOp(prev, d, BinOp::Multiply) => {
                let mut parts = row_major_parts(&prev.expr.internal_tok);
                parts.push((int_literal_value(&d.expr.internal_tok).unwrap(), int_literal_value(&i.expr.internal_tok).unwrap()));
                parts
            },
            other => panic!("{:?}", other),
        },
        other => {
            assert_eq!(int_literal_value(other), Some(0));
            Vec::new()
        },
    }
}

#[test]
fn flat_index_is_row_major() {
    let ast = check_source("fn main(): int { let a[2, 2]: array[int] = [0, 1, 2, 3]; return a[1, 0]; }").unwrap();
    let body = &ast.program.internal_tok.functions[0].expr.internal_tok.body.expr.internal_tok;
    match body {
        Statement::Compound(v) => match &v[1].expr.internal_tok {
            Statement::Return(e) => match &e.expr.internal_tok {
                Expression::ArrayAccess(_, idx) => {
                    assert_eq!(row_major_parts(&idx[0].expr.internal_tok), vec![(2, 1), (2, 0)]);
                },
                other => panic!("{:?}", other),
            },
            other => panic!("{:?}", other),
        },
        other => panic!("{:?}", other),
    }
}

#[test]
fn struct_members_must_exist() {
    let err = check_source("struct P { x: int; } fn main(): int { let p: P = P{1}; return p.z; }").unwrap_err();
    assert_eq!(message(&err), "Struct 'toplevel::P' does not have member 'z'");
}

#[test]
fn operators_on_variables_follow_the_typing_rules() {
    let err = check_source("fn main(): int { let x: int = 1; let y: float = 2.0; x + y; return 0; }").unwrap_err();
    assert_eq!(message(&err), "Invalid types for arithmetic operation: 'int' and 'float'");
    let ast = check_source("fn main(): int { let x: int = 1; let b: bool = x < 2; return x * 3; }").unwrap();
    let body = &ast.program.internal_tok.functions[0].expr.internal_tok.body.expr.internal_tok;
    match body {
        Statement::Compound(v) => {
            assert!(matches!(v[1].type_, Type::Bool));
            assert!(matches!(v[2].type_, Type::Int));
        },
        other => panic!("{:?}", other),
    }
}

#[test]
fn let_can_copy_an_earlier_variable() {
    let ast = check_source("fn main(): int { let x: int = 5; let y: int = x; return y; }").unwrap();
    let body = &ast.program.internal_tok.functions[0].expr.internal_tok.body;
    assert!(matches!(body.type_, Type::Int));
    let err = check_source("fn main(): int { let x: int = 5; let y: float = x; return 0; }").unwrap_err();
    assert_eq!(message(&err), "Variable type does not match expression type: 'float' and 'int'");
}

#[test]
fn let_can_bind_an_operation_on_earlier_variables() {
    let ast = check_source("fn main(): int { let x: int = 2; let y: int = x * 3; let b: bool = y < x; return y; }").unwrap();
    let body = &ast.program.internal_tok.functions[0].expr.internal_tok.body;
    assert!(matches!(body.type_, Type::Int));
    match &body.expr.internal_tok {
        Statement::Compound(v) => assert!(matches!(v[2].type_, Type::Bool)),
        other => panic!("{:?}", other),
    }
    let err = check_source("fn main(): int { let x: int = 2; let y: bool = x * 3; return 0; }").unwrap_err();
    assert_eq!(message(&err), "Variable type does not match expression type: 'bool' and 'int'");
}
