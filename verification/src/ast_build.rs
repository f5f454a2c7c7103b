//! The parser: turns a list of tokens into an abstract syntax tree (AST).
//!
//! Operator precedence, from the highest to the lowest:
//! 1. Member access (.) Namespace access (::)
//! 2. Pre increment (++a) Pre decrement (--a) Unary plus (+a) Unary minus (-a)
//!    Logical not (!a) Bitwise not (~a) Dereference (*a) Address of (&a)
//! 3. Multiplication (a * b) Division (a / b) Modulus (a % b)
//! 4. Addition (a + b) Subtraction (a - b)
//! 5. Bitwise left shift (a << b) Bitwise right shift (a >> b)
//! 6. Less than (a < b) Greater than (a > b) Less than or equal to (a <= b)
//!    Greater than or equal to (a >= b)
//! 7. Equal to (a == b) Not equal to (a != b)
//! 8. Bitwise and (a & b)
//! 9. Bitwise xor (a ^ b)
//! 10. Bitwise or (a | b)
//! 11. Logical and (a && b)
//! 12. Logical xor (a ^^ b)
//! 13. Logical or (a || b)
//! 14. Assignment (a = b) and the compound assignments (a += b, a -= b, a *= b,
//!     a /= b, a %= b, a <<= b, a >>= b, a &= b, a ^= b, a |= b)
use vstd::prelude::*;

use crate::lexer::{operator_spelling, Operator, SpecToken, Token};
use crate::shared::{
    error, error_unexpected_token, same_type, same_types, CompileError, ErrorMessage, TokenWithDebugInfo, Type,
    Typed,
};
use crate::text::{chars_of, same_text, substring};

verus! {

/// A literal value. A float literal is kept as the text it was written with.
#[derive(Debug)]
pub enum Literal {
    Bool(bool),
    Int(i64),
    Float(String),
    Hex(i64),
    Binary(i64),
    Char(String),
}

/// The smallest unit of an expression.
#[derive(Debug)]
pub enum Atom {
    Literal(Typed<TokenWithDebugInfo<Literal>>),
    Expression(Box<Typed<TokenWithDebugInfo<Expression>>>),
    Variable(TokenWithDebugInfo<String>),
    /// `id:<T1, T2, ...>(args)`
    FunctionCall(
        TokenWithDebugInfo<String>,
        Vec<Typed<TokenWithDebugInfo<Expression>>>,
        Vec<TokenWithDebugInfo<Type>>,
    ),
    /// An array literal, with its number of elements in the first dimension.
    Array(Vec<Typed<TokenWithDebugInfo<Expression>>>, i64),
    /// `id:<T1, T2, ...>{fields}`
    StructInstance(
        TokenWithDebugInfo<String>,
        Vec<Typed<TokenWithDebugInfo<Expression>>>,
        Vec<TokenWithDebugInfo<Type>>,
    ),
}

/// The left hand side of a `let` binding.
#[derive(Debug)]
pub enum AssignmentIdentifier {
    Variable(TokenWithDebugInfo<String>),
    Dereference(Box<Typed<TokenWithDebugInfo<AssignmentIdentifier>>>),
    /// `identifier[dim1, dim2, ...]`
    Array(TokenWithDebugInfo<String>, Vec<Typed<TokenWithDebugInfo<Expression>>>),
}

/// The left hand side of an assignment: a variable, a dereferenced address,
/// an array element or a struct member.
#[derive(Debug)]
pub enum ReassignmentIdentifier {
    Variable(TokenWithDebugInfo<String>),
    Dereference(Box<Typed<TokenWithDebugInfo<Expression>>>),
    Array(Box<Typed<TokenWithDebugInfo<Expression>>>, Vec<Typed<TokenWithDebugInfo<Expression>>>),
    MemberAccess(Box<Typed<TokenWithDebugInfo<Expression>>>, Box<Typed<TokenWithDebugInfo<Expression>>>),
}

/// A prefix unary operator.
#[derive(Debug, PartialEq, Eq, Structural, Clone, Copy)]
pub enum UnOp {
    PreIncrement,
    PreDecrement,
    UnaryPlus,
    UnaryMinus,
    LogicalNot,
    BitwiseNot,
    Dereference,
    AddressOf,
    NotAUnaryOp,
}

/// A binary operator.
#[derive(Debug, PartialEq, Eq, Structural, Clone, Copy)]
pub enum BinOp {
    MemberAccess,
    Multiply,
    Divide,
    Modulus,
    Add,
    Subtract,
    LeftShift,
    RightShift,
    LessThan,
    GreaterThan,
    LessOrEqualThan,
    GreaterOrEqualThan,
    Equal,
    NotEqual,
    BitwiseAnd,
    BitwiseXor,
    BitwiseOr,
    LogicalAnd,
    LogicalXor,
    LogicalOr,
    NamespaceAccess,
    NotABinaryOp,
}

/// An assignment operator.
#[derive(Debug, PartialEq, Eq, Structural, Clone, Copy)]
pub enum AssignmentOp {
    Assign,
    AddAssign,
    SubtractAssign,
    MultiplyAssign,
    DivideAssign,
    ModulusAssign,
    LeftShiftAssign,
    RightShiftAssign,
    BitwiseAndAssign,
    BitwiseXorAssign,
    BitwiseOrAssign,
    NotAnAssignmentOp,
}

/// The operators that share one level of precedence.
#[derive(Debug)]
pub struct PrecedenceLevel {
    pub binary_ops: Vec<BinOp>,
    pub unary_ops: Vec<UnOp>,
    pub assignment_ops: Vec<AssignmentOp>,
}

/// An expression: atoms combined by operators.
#[derive(Debug)]
pub enum Expression {
    Atom(Typed<TokenWithDebugInfo<Atom>>),
    UnaryOp(Box<Typed<TokenWithDebugInfo<Expression>>>, UnOp),
    BinaryOp(
        Box<Typed<TokenWithDebugInfo<Expression>>>,
        Box<Typed<TokenWithDebugInfo<Expression>>>,
        BinOp,
    ),
    Assignment(
        Typed<TokenWithDebugInfo<ReassignmentIdentifier>>,
        Box<Typed<TokenWithDebugInfo<Expression>>>,
        AssignmentOp,
    ),
    TypeCast(Box<Typed<TokenWithDebugInfo<Expression>>>, TokenWithDebugInfo<Type>),
    ArrayAccess(Box<Typed<TokenWithDebugInfo<Expression>>>, Vec<Typed<TokenWithDebugInfo<Expression>>>),
}

/// A statement: a single instruction of the program.
#[derive(Debug)]
pub enum Statement {
    Let(
        TokenWithDebugInfo<AssignmentIdentifier>,
        Option<Typed<TokenWithDebugInfo<Expression>>>,
        TokenWithDebugInfo<Type>,
    ),
    If(
        Typed<TokenWithDebugInfo<Expression>>,
        Box<Typed<TokenWithDebugInfo<Statement>>>,
        Option<Box<Typed<TokenWithDebugInfo<Statement>>>>,
    ),
    While(Typed<TokenWithDebugInfo<Expression>>, Box<Typed<TokenWithDebugInfo<Statement>>>),
    Loop(Box<Typed<TokenWithDebugInfo<Statement>>>),
    Dowhile(Typed<TokenWithDebugInfo<Expression>>, Box<Typed<TokenWithDebugInfo<Statement>>>),
    For(
        Box<Typed<TokenWithDebugInfo<Statement>>>,
        Typed<TokenWithDebugInfo<Expression>>,
        Typed<TokenWithDebugInfo<Expression>>,
        Box<Typed<TokenWithDebugInfo<Statement>>>,
    ),
    Return(Typed<TokenWithDebugInfo<Expression>>),
    Expression(Typed<TokenWithDebugInfo<Expression>>),
    Compound(Vec<Typed<TokenWithDebugInfo<Statement>>>),
    Break,
    Continue,
    Asm(TokenWithDebugInfo<String>, TokenWithDebugInfo<Type>),
}

/// A function: `fn id:<generics>(args): return_type body`.
#[derive(Debug)]
pub struct Function {
    pub id: TokenWithDebugInfo<String>,
    pub args: Vec<(TokenWithDebugInfo<String>, TokenWithDebugInfo<Type>)>,
    pub body: Typed<TokenWithDebugInfo<Statement>>,
    pub return_type: TokenWithDebugInfo<Type>,
    pub generics: Vec<TokenWithDebugInfo<String>>,
}

/// A constant: a name bound to a literal in the global scope.
#[derive(Debug)]
pub enum Constant {
    Constant(TokenWithDebugInfo<String>, Typed<TokenWithDebugInfo<Literal>>, TokenWithDebugInfo<Type>),
}

/// A struct declaration.
#[derive(Debug)]
pub struct Struct {
    pub id: TokenWithDebugInfo<String>,
    pub members: Vec<(TokenWithDebugInfo<String>, TokenWithDebugInfo<Type>)>,
    pub generics: Vec<TokenWithDebugInfo<String>>,
}

/// An enum declaration.
#[derive(Debug)]
pub struct Enum {
    pub id: TokenWithDebugInfo<String>,
    pub variants: Vec<TokenWithDebugInfo<String>>,
}

/// A namespace and what it declares.
#[derive(Debug)]
pub struct Namespace {
    pub id: String,
    pub functions: Vec<Typed<TokenWithDebugInfo<Function>>>,
    pub constants: Vec<Typed<TokenWithDebugInfo<Constant>>>,
    pub structs: Vec<TokenWithDebugInfo<Struct>>,
    pub enums: Vec<TokenWithDebugInfo<Enum>>,
    pub sub_namespaces: Vec<TokenWithDebugInfo<Namespace>>,
}

/// The abstract syntax tree of a program.
#[derive(Debug)]
pub struct Ast {
    pub program: TokenWithDebugInfo<Namespace>,
}


// ---------------------------------------------------------------------------
// Copies of AST nodes.

/// A copy of a string with its debug information.
pub fn clone_name(n: &TokenWithDebugInfo<String>) -> (res: TokenWithDebugInfo<String>)
    ensures
        res.internal_tok@ == n.internal_tok@,
        res.line == n.line,
        res.file@ == n.file@,
{
    TokenWithDebugInfo { internal_tok: n.internal_tok.clone(), line: n.line, file: n.file.clone() }
}

/// A copy of a list of names.
pub fn clone_names(v: &Vec<TokenWithDebugInfo<String>>) -> (res: Vec<TokenWithDebugInfo<String>>)
    ensures
        res@.len() == v@.len(),
        forall|i: int| 0 <= i < v@.len() ==> #[trigger] res@[i].internal_tok@ == v@[i].internal_tok@,
{
    let mut out: Vec<TokenWithDebugInfo<String>> = Vec::new();
    let mut i: usize = 0;
    while i < v.len()
        invariant
            i <= v@.len(),
            out@.len() == i,
            forall|j: int| 0 <= j < i ==> #[trigger] out@[j].internal_tok@ == v@[j].internal_tok@,
        decreases v@.len() - i,
    {
        out.push(clone_name(&v[i]));
        i = i + 1;
    }
    out
}

/// A copy of a type.
pub fn clone_type(t: &Type) -> (res: Type)
    ensures
        same_type(res, *t),
    decreases t,
{
    match t {
        Type::Int => Type::Int,
        Type::Float => Type::Float,
        Type::Void => Type::Void,
        Type::Char => Type::Char,
        Type::Bool => Type::Bool,
        Type::Pointer(b) => Type::Pointer(Box::new(clone_type_info(b))),
        Type::Array(b) => Type::Array(Box::new(clone_type_info(b))),
        Type::Struct(s) => Type::Struct(s.clone()),
        Type::Enum(s) => Type::Enum(s.clone()),
        Type::Namespace(s, b) => Type::Namespace(s.clone(), Box::new(clone_type_info(b))),
        Type::GenericBinding(s, v) => Type::GenericBinding(s.clone(), clone_type_infos(v)),
    }
}

/// A copy of a type with its debug information.
pub fn clone_type_info(t: &TokenWithDebugInfo<Type>) -> (res: TokenWithDebugInfo<Type>)
    ensures
        res.line == t.line,
        res.file == t.file,
        same_type(res.internal_tok, t.internal_tok),
    decreases t,
{
    TokenWithDebugInfo { internal_tok: clone_type(&t.internal_tok), line: t.line, file: t.file.clone() }
}

/// A copy of a list of types.
pub fn clone_type_infos(v: &Vec<TokenWithDebugInfo<Type>>) -> (res: Vec<TokenWithDebugInfo<Type>>)
    ensures
        res@.len() == v@.len(),
        same_types(res@, v@, v@.len() as int),
    decreases v,
{
    let mut out: Vec<TokenWithDebugInfo<Type>> = Vec::new();
    let mut i: usize = 0;
    while i < v.len()
        invariant
            i <= v@.len(),
            out@.len() == i,
            forall|j: int| 0 <= j < i ==> #[trigger] same_type(out@[j].internal_tok, v@[j].internal_tok),
        decreases v@.len() - i,
    {
        assert(decreases_to!(v => v@[i as int]));
        out.push(clone_type_info(&v[i]));
        i = i + 1;
    }
    proof {
        lemma_same_types_elementwise(out@, v@, v@.len() as int);
    }
    out
}

/// Two lists whose types agree index by index hold the same types.
pub proof fn lemma_same_types_elementwise(
    xs: Seq<TokenWithDebugInfo<Type>>,
    ys: Seq<TokenWithDebugInfo<Type>>,
    k: int,
)
    requires
        0 <= k <= xs.len(),
        k <= ys.len(),
        forall|j: int| 0 <= j < k ==> #[trigger] same_type(xs[j].internal_tok, ys[j].internal_tok),
    ensures
        same_types(xs, ys, k),
    decreases k,
{
    if k > 0 {
        lemma_same_types_elementwise(xs, ys, k - 1);
        assert(same_type(xs[k - 1].internal_tok, ys[k - 1].internal_tok));
    }
}


/// A copy of a literal.
pub fn clone_literal(l: &Literal) -> (res: Literal)
    ensures
        res == *l,
{
    match l {
        Literal::Bool(b) => Literal::Bool(*b),
        Literal::Int(i) => Literal::Int(*i),
        Literal::Float(f) => Literal::Float(f.clone()),
        Literal::Hex(i) => Literal::Hex(*i),
        Literal::Binary(i) => Literal::Binary(*i),
        Literal::Char(c) => Literal::Char(c.clone()),
    }
}

/// A copy of a typed literal with its debug information.
pub fn clone_typed_literal(l: &Typed<TokenWithDebugInfo<Literal>>) -> (res: Typed<
    TokenWithDebugInfo<Literal>,
>)
    ensures
        res.expr == l.expr,
        same_type(res.type_, l.type_),
{
    Typed {
        expr: TokenWithDebugInfo {
            internal_tok: clone_literal(&l.expr.internal_tok),
            line: l.expr.line,
            file: l.expr.file.clone(),
        },
        type_: clone_type(&l.type_),
    }
}

/// A copy of an atom.
pub(crate) fn clone_atom(a: &Atom) -> (res: Atom)
    ensures
        a is Literal <==> res is Literal,
        a is Expression <==> res is Expression,
        a is Variable <==> res is Variable,
        a is FunctionCall <==> res is FunctionCall,
        a is Array <==> res is Array,
        a is StructInstance <==> res is StructInstance,
        a matches Atom::Literal(l) ==> (res matches Atom::Literal(m) && m.expr.internal_tok == l.expr.internal_tok),
        a matches Atom::Variable(v) ==> (res matches Atom::Variable(w) && w.internal_tok@ == v.internal_tok@),
    decreases a,
{
    match a {
        Atom::Literal(l) => Atom::Literal(clone_typed_literal(l)),
        Atom::Expression(e) => Atom::Expression(Box::new(clone_typed_expression(e))),
        Atom::Variable(v) => Atom::Variable(clone_name(v)),
        Atom::FunctionCall(id, args, generics) => Atom::FunctionCall(
            clone_name(id),
            clone_typed_expressions(args),
            clone_type_infos(generics),
        ),
        Atom::Array(v, d) => Atom::Array(clone_typed_expressions(v), *d),
        Atom::StructInstance(id, fields, generics) => Atom::StructInstance(
            clone_name(id),
            clone_typed_expressions(fields),
            clone_type_infos(generics),
        ),
    }
}

/// A copy of an expression.
pub(crate) fn clone_expression(e: &Expression) -> (res: Expression)
    ensures
        e is Atom <==> res is Atom,
        e is UnaryOp <==> res is UnaryOp,
        e is BinaryOp <==> res is BinaryOp,
        e is Assignment <==> res is Assignment,
        e is TypeCast <==> res is TypeCast,
        e is ArrayAccess <==> res is ArrayAccess,
        is_array_literal(res) == is_array_literal(*e),
        crate::logic_checker::literal_of(res) == crate::logic_checker::literal_of(*e),
        crate::logic_checker::variable_of(res) == crate::logic_checker::variable_of(*e),
        e matches Expression::BinaryOp(_, _, op) ==> (res matches Expression::BinaryOp(_, _, o) && o == op),
    decreases e,
{
    match e {
        Expression::Atom(a) => Expression::Atom(
            Typed {
                expr: TokenWithDebugInfo {
                    internal_tok: clone_atom(&a.expr.internal_tok),
                    line: a.expr.line,
                    file: a.expr.file.clone(),
                },
                type_: clone_type(&a.type_),
            },
        ),
        Expression::UnaryOp(x, op) => Expression::UnaryOp(Box::new(clone_typed_expression(x)), *op),
        Expression::BinaryOp(x, y, op) => Expression::BinaryOp(
            Box::new(clone_typed_expression(x)),
            Box::new(clone_typed_expression(y)),
            *op,
        ),
        Expression::Assignment(r, x, op) => Expression::Assignment(
            Typed {
                expr: TokenWithDebugInfo {
                    internal_tok: clone_reassignment_identifier(&r.expr.internal_tok),
                    line: r.expr.line,
                    file: r.expr.file.clone(),
                },
                type_: clone_type(&r.type_),
            },
            Box::new(clone_typed_expression(x)),
            *op,
        ),
        Expression::TypeCast(x, t) => Expression::TypeCast(
            Box::new(clone_typed_expression(x)),
            clone_type_info(t),
        ),
        Expression::ArrayAccess(x, idx) => Expression::ArrayAccess(
            Box::new(clone_typed_expression(x)),
            clone_typed_expressions(idx),
        ),
    }
}

/// A copy of an expression with its debug information.
pub fn clone_expression_info(e: &TokenWithDebugInfo<Expression>) -> (res: TokenWithDebugInfo<
    Expression,
>)
    ensures
        res.line == e.line,
        res.file@ == e.file@,
        is_array_literal(res.internal_tok) == is_array_literal(e.internal_tok),
        crate::logic_checker::literal_of(res.internal_tok) == crate::logic_checker::literal_of(e.internal_tok),
    decreases e,
{
    TokenWithDebugInfo {
        internal_tok: clone_expression(&e.internal_tok),
        line: e.line,
        file: e.file.clone(),
    }
}

/// A copy of a typed expression.
pub fn clone_typed_expression(e: &Typed<TokenWithDebugInfo<Expression>>) -> (res: Typed<
    TokenWithDebugInfo<Expression>,
>)
    ensures
        res.expr.line == e.expr.line,
        res.expr.file@ == e.expr.file@,
        is_array_literal(res.expr.internal_tok) == is_array_literal(e.expr.internal_tok),
    decreases e,
{
    Typed { expr: clone_expression_info(&e.expr), type_: clone_type(&e.type_) }
}

/// Whether `e` is an array literal.
pub open spec fn is_array_literal(e: Expression) -> bool {
    e matches Expression::Atom(a) && a.expr.internal_tok is Array
}

/// A copy of a list of typed expressions.
pub fn clone_typed_expressions(v: &Vec<Typed<TokenWithDebugInfo<Expression>>>) -> (res: Vec<
    Typed<TokenWithDebugInfo<Expression>>,
>)
    ensures
        res@.len() == v@.len(),
        forall|i: int|
            0 <= i < v@.len() ==> is_array_literal(#[trigger] res@[i].expr.internal_tok) == is_array_literal(
                v@[i].expr.internal_tok,
            ),
    decreases v,
{
    let mut out: Vec<Typed<TokenWithDebugInfo<Expression>>> = Vec::new();
    let mut i: usize = 0;
    while i < v.len()
        invariant
            i <= v@.len(),
            out@.len() == i,
            forall|j: int|
                0 <= j < i ==> is_array_literal(#[trigger] out@[j].expr.internal_tok) == is_array_literal(
                    v@[j].expr.internal_tok,
                ),
        decreases v@.len() - i,
    {
        assert(decreases_to!(v => v@[i as int]));
        out.push(clone_typed_expression(&v[i]));
        i = i + 1;
    }
    out
}

/// A copy of the left hand side of an assignment.
pub(crate) fn clone_reassignment_identifier(r: &ReassignmentIdentifier) -> (res: ReassignmentIdentifier)
    ensures
        r is Variable <==> res is Variable,
        r is Dereference <==> res is Dereference,
        r is Array <==> res is Array,
        r is MemberAccess <==> res is MemberAccess,
    decreases r,
{
    match r {
        ReassignmentIdentifier::Variable(v) => ReassignmentIdentifier::Variable(clone_name(v)),
        ReassignmentIdentifier::Dereference(e) => ReassignmentIdentifier::Dereference(
            Box::new(clone_typed_expression(e)),
        ),
        ReassignmentIdentifier::Array(e, idx) => ReassignmentIdentifier::Array(
            Box::new(clone_typed_expression(e)),
            clone_typed_expressions(idx),
        ),
        ReassignmentIdentifier::MemberAccess(a, b) => ReassignmentIdentifier::MemberAccess(
            Box::new(clone_typed_expression(a)),
            Box::new(clone_typed_expression(b)),
        ),
    }
}

/// Whether two left hand sides of a `let` are of the same kind and bind
/// the same name: a variable by its name and position, an array by its
/// name and number of dimensions.
pub open spec fn same_target(a: AssignmentIdentifier, b: AssignmentIdentifier) -> bool {
    &&& a is Variable <==> b is Variable
    &&& a is Dereference <==> b is Dereference
    &&& a is Array <==> b is Array
    &&& (b matches AssignmentIdentifier::Variable(v) ==> same_variable(a, v))
    &&& (b matches AssignmentIdentifier::Array(v, d) ==> same_array(a, v, d@.len()))
}

/// Whether `a` binds the variable `v`: same name and position.
pub open spec fn same_variable(a: AssignmentIdentifier, v: TokenWithDebugInfo<String>) -> bool {
    &&& a matches AssignmentIdentifier::Variable(w)
    &&& w.internal_tok@ == v.internal_tok@
    &&& w.line == v.line
    &&& w.file@ == v.file@
}

/// Whether `a` binds the array `v` with `n` dimensions.
pub open spec fn same_array(a: AssignmentIdentifier, v: TokenWithDebugInfo<String>, n: nat) -> bool {
    &&& a matches AssignmentIdentifier::Array(w, e)
    &&& w.internal_tok@ == v.internal_tok@
    &&& e@.len() == n
}

/// A copy of the left hand side of a `let` binding.
pub(crate) fn clone_assignment_identifier(a: &AssignmentIdentifier) -> (res: AssignmentIdentifier)
    ensures
        same_target(res, *a),
    decreases a,
{
    match a {
        AssignmentIdentifier::Variable(v) => AssignmentIdentifier::Variable(clone_name(v)),
        AssignmentIdentifier::Dereference(b) => AssignmentIdentifier::Dereference(
            Box::new(
                Typed {
                    expr: TokenWithDebugInfo {
                        internal_tok: clone_assignment_identifier(&b.expr.internal_tok),
                        line: b.expr.line,
                        file: b.expr.file.clone(),
                    },
                    type_: clone_type(&b.type_),
                },
            ),
        ),
        AssignmentIdentifier::Array(v, dims) => AssignmentIdentifier::Array(
            clone_name(v),
            clone_typed_expressions(dims),
        ),
    }
}

/// Whether two statements are of the same kind.
pub open spec fn same_kind(a: Statement, b: Statement) -> bool {
    &&& a is Let <==> b is Let
    &&& a is If <==> b is If
    &&& a is While <==> b is While
    &&& a is Loop <==> b is Loop
    &&& a is Dowhile <==> b is Dowhile
    &&& a is For <==> b is For
    &&& a is Expression <==> b is Expression
    &&& a is Return <==> b is Return
    &&& a is Compound <==> b is Compound
    &&& a is Break <==> b is Break
    &&& a is Continue <==> b is Continue
    &&& a is Asm <==> b is Asm
}

/// A copy of a statement.
pub(crate) fn clone_statement(s: &Statement) -> (res: Statement)
    ensures
        s is Let <==> res is Let,
        s is If <==> res is If,
        s is While <==> res is While,
        s is Loop <==> res is Loop,
        s is Dowhile <==> res is Dowhile,
        s is For <==> res is For,
        s is Expression <==> res is Expression,
        s is Return <==> res is Return,
        s is Compound <==> res is Compound,
        s is Break <==> res is Break,
        s is Continue <==> res is Continue,
        s is Asm <==> res is Asm,
    decreases s,
{
    match s {
        Statement::Let(id, e, t) => Statement::Let(
            TokenWithDebugInfo {
                internal_tok: clone_assignment_identifier(&id.internal_tok),
                line: id.line,
                file: id.file.clone(),
            },
            match e {
                Some(e) => Some(clone_typed_expression(e)),
                None => None,
            },
            clone_type_info(t),
        ),
        Statement::If(c, a, b) => Statement::If(
            clone_typed_expression(c),
            Box::new(clone_typed_statement(a)),
            match b {
                Some(b) => Some(Box::new(clone_typed_statement(b))),
                None => None,
            },
        ),
        Statement::While(c, b) => Statement::While(
            clone_typed_expression(c),
            Box::new(clone_typed_statement(b)),
        ),
        Statement::Loop(b) => Statement::Loop(Box::new(clone_typed_statement(b))),
        Statement::Dowhile(c, b) => Statement::Dowhile(
            clone_typed_expression(c),
            Box::new(clone_typed_statement(b)),
        ),
        Statement::For(i, c, st, b) => Statement::For(
            Box::new(clone_typed_statement(i)),
            clone_typed_expression(c),
            clone_typed_expression(st),
            Box::new(clone_typed_statement(b)),
        ),
        Statement::Return(e) => Statement::Return(clone_typed_expression(e)),
        Statement::Expression(e) => Statement::Expression(clone_typed_expression(e)),
        Statement::Compound(v) => Statement::Compound(clone_typed_statements(v)),
        Statement::Break => Statement::Break,
        Statement::Continue => Statement::Continue,
        Statement::Asm(a, t) => Statement::Asm(clone_name(a), clone_type_info(t)),
    }
}

/// A copy of a typed statement with its debug information.
pub fn clone_typed_statement(s: &Typed<TokenWithDebugInfo<Statement>>) -> (res: Typed<
    TokenWithDebugInfo<Statement>,
>)
    ensures
        res.expr.line == s.expr.line,
        res.expr.file@ == s.expr.file@,
        same_kind(res.expr.internal_tok, s.expr.internal_tok),
    decreases s,
{
    Typed {
        expr: TokenWithDebugInfo {
            internal_tok: clone_statement(&s.expr.internal_tok),
            line: s.expr.line,
            file: s.expr.file.clone(),
        },
        type_: clone_type(&s.type_),
    }
}

/// A copy of a list of typed statements.
pub fn clone_typed_statements(v: &Vec<Typed<TokenWithDebugInfo<Statement>>>) -> (res: Vec<
    Typed<TokenWithDebugInfo<Statement>>,
>)
    ensures
        res@.len() == v@.len(),
    decreases v,
{
    let mut out: Vec<Typed<TokenWithDebugInfo<Statement>>> = Vec::new();
    let mut i: usize = 0;
    while i < v.len()
        invariant
            i <= v@.len(),
            out@.len() == i,
        decreases v@.len() - i,
    {
        assert(decreases_to!(v => v@[i as int]));
        out.push(clone_typed_statement(&v[i]));
        i = i + 1;
    }
    out
}


// ---------------------------------------------------------------------------
// Reading tokens.

/// The token at `i` of `tokens`, as a value.
pub open spec fn tok(tokens: Seq<TokenWithDebugInfo<Token>>, i: int) -> SpecToken {
    tokens[i].internal_tok@
}

/// The error for a token list that ends before the parser is done with it.
pub fn end_of_tokens() -> (res: CompileError)
    ensures
        res.line == 0,
        res.file@ == Seq::<char>::empty(),
        res.message matches crate::shared::ErrorMessage::Text(m) && m@ == "Unexpected end of tokens"@,
{
    CompileError {
        file: String::new(),
        line: 0,
        message: crate::shared::ErrorMessage::Text(String::from_str("Unexpected end of tokens")),
    }
}

/// The token at `pos`; an error if the list ends before it.
fn token_at(tokens: &Vec<TokenWithDebugInfo<Token>>, pos: usize) -> (res: Result<
    &TokenWithDebugInfo<Token>,
    CompileError,
>)
    ensures
        pos < tokens@.len() <==> res is Ok,
        res matches Ok(t) ==> *t == tokens@[pos as int],
        tokens@.len() <= usize::MAX,
{
    let n = tokens.len();
    if pos < n {
        Ok(&tokens[pos])
    } else {
        Err(end_of_tokens())
    }
}

/// Whether the token at `i` is the operator `op`.
pub open spec fn is_operator_at(tokens: Seq<TokenWithDebugInfo<Token>>, i: int, op: Operator) -> bool {
    0 <= i < tokens.len() && tok(tokens, i) == SpecToken::Operator(op)
}

/// How the binary operator `op` is spelled in DPL source (nothing for the
/// placeholder `NotABinaryOp`).
pub open spec fn binop_spelling(op: BinOp) -> Seq<char> {
    match op {
        BinOp::MemberAccess => seq!['.'],
        BinOp::Multiply => seq!['*'],
        BinOp::Divide => seq!['/'],
        BinOp::Modulus => seq!['%'],
        BinOp::Add => seq!['+'],
        BinOp::Subtract => seq!['-'],
        BinOp::LeftShift => seq!['<', '<'],
        BinOp::RightShift => seq!['>', '>'],
        BinOp::LessThan => seq!['<'],
        BinOp::GreaterThan => seq!['>'],
        BinOp::LessOrEqualThan => seq!['<', '='],
        BinOp::GreaterOrEqualThan => seq!['>', '='],
        BinOp::Equal => seq!['=', '='],
        BinOp::NotEqual => seq!['!', '='],
        BinOp::BitwiseAnd => seq!['&'],
        BinOp::BitwiseXor => seq!['^'],
        BinOp::BitwiseOr => seq!['|'],
        BinOp::LogicalAnd => seq!['&', '&'],
        BinOp::LogicalXor => seq!['^', '^'],
        BinOp::LogicalOr => seq!['|', '|'],
        BinOp::NamespaceAccess => seq![':', ':'],
        BinOp::NotABinaryOp => Seq::empty(),
    }
}

/// The spelling of the operator token at `p`; nothing for another token.
pub open spec fn operator_text_at(tokens: Seq<TokenWithDebugInfo<Token>>, p: int) -> Seq<char> {
    match tok(tokens, p) {
        SpecToken::Operator(o) => operator_spelling(o),
        _ => Seq::empty(),
    }
}

/// The parser reads each binary operator from what is written: the operator
/// found at `p` is spelled by the operator token there, or (for `>=` and
/// `>>`) by the two operator tokens from there.
pub proof fn lemma_binary_operators_read_as_spelled(tokens: Seq<TokenWithDebugInfo<Token>>, p: int)
    ensures
        binary_operator_at(tokens, p) matches Some(op) ==> (op != BinOp::NotABinaryOp ==> (binop_spelling(op)
            == operator_text_at(tokens, p) || binop_spelling(op) == operator_text_at(tokens, p) + operator_text_at(
            tokens,
            p + 1,
        ))),
{
    if binary_operator_at(tokens, p) is Some && 0 <= p + 1 < tokens.len() {
        assert(seq!['>'] + seq!['='] =~= seq!['>', '=']);
        assert(seq!['>'] + seq!['>'] =~= seq!['>', '>']);
    }
}

/// How the prefix operator `op` is spelled (nothing for `NotAUnaryOp`).
pub open spec fn unop_spelling(op: UnOp) -> Seq<char> {
    match op {
        UnOp::PreIncrement => seq!['+', '+'],
        UnOp::PreDecrement => seq!['-', '-'],
        UnOp::UnaryPlus => seq!['+'],
        UnOp::UnaryMinus => seq!['-'],
        UnOp::LogicalNot => seq!['!'],
        UnOp::BitwiseNot => seq!['~'],
        UnOp::Dereference => seq!['*'],
        UnOp::AddressOf => seq!['&'],
        UnOp::NotAUnaryOp => Seq::empty(),
    }
}

/// How the assignment operator `op` is spelled (nothing for
/// `NotAnAssignmentOp`).
pub open spec fn assignop_spelling(op: AssignmentOp) -> Seq<char> {
    match op {
        AssignmentOp::Assign => seq!['='],
        AssignmentOp::AddAssign => seq!['+', '='],
        AssignmentOp::SubtractAssign => seq!['-', '='],
        AssignmentOp::MultiplyAssign => seq!['*', '='],
        AssignmentOp::DivideAssign => seq!['/', '='],
        AssignmentOp::ModulusAssign => seq!['%', '='],
        AssignmentOp::LeftShiftAssign => seq!['<', '<', '='],
        AssignmentOp::RightShiftAssign => seq!['>', '>', '='],
        AssignmentOp::BitwiseAndAssign => seq!['&', '='],
        AssignmentOp::BitwiseXorAssign => seq!['^', '='],
        AssignmentOp::BitwiseOrAssign => seq!['|', '='],
        AssignmentOp::NotAnAssignmentOp => Seq::empty(),
    }
}

/// The parser reads prefix and assignment operators from what is written:
/// a prefix operator is spelled by its token, and the assignment operator
/// found at `p` by the operator token there, or (for `<<=` and `>>=`) by
/// the two or three operator tokens from there.
pub proof fn lemma_unary_and_assignment_operators_read_as_spelled(
    tokens: Seq<TokenWithDebugInfo<Token>>,
    o: Operator,
    p: int,
)
    ensures
        unary_operator_of(SpecToken::Operator(o)) matches Some(op) ==> unop_spelling(op) == operator_spelling(o),
        assignment_operator_at(tokens, p) matches Some(op) ==> (op != AssignmentOp::NotAnAssignmentOp ==> (
        assignop_spelling(op) == operator_text_at(tokens, p) || assignop_spelling(op) == operator_text_at(tokens, p)
            + operator_text_at(tokens, p + 1) || assignop_spelling(op) == operator_text_at(tokens, p)
            + operator_text_at(tokens, p + 1) + operator_text_at(tokens, p + 2))),
{
    assert(seq!['<', '<'] + seq!['='] =~= seq!['<', '<', '=']);
    assert(seq!['>'] + seq!['>'] + seq!['='] =~= seq!['>', '>', '=']);
}

/// The binary operator that begins at `p`: `>=` and `>>` are read from two
/// `>`/`=` tokens, and `<<=` and `>>=` are no binary operators. `None` if
/// the list ends before the operator can be told.
pub open spec fn binary_operator_at(tokens: Seq<TokenWithDebugInfo<Token>>, p: int) -> Option<BinOp> {
    if !(0 <= p < tokens.len()) {
        None
    } else {
        match tok(tokens, p) {
            SpecToken::Operator(op) => match op {
                Operator::Multiply => Some(BinOp::Multiply),
                Operator::Divide => Some(BinOp::Divide),
                Operator::Modulus => Some(BinOp::Modulus),
                Operator::Add => Some(BinOp::Add),
                Operator::Subtract => Some(BinOp::Subtract),
                Operator::LeftShift => if p + 1 >= tokens.len() {
                    None
                } else if is_operator_at(tokens, p + 1, Operator::Assign) {
                    Some(BinOp::NotABinaryOp)
                } else {
                    Some(BinOp::LeftShift)
                },
                Operator::LessThan => Some(BinOp::LessThan),
                Operator::LessOrEqualThan => Some(BinOp::LessOrEqualThan),
                Operator::Equal => Some(BinOp::Equal),
                Operator::NotEqual => Some(BinOp::NotEqual),
                Operator::BitwiseAnd => Some(BinOp::BitwiseAnd),
                Operator::BitwiseXor => Some(BinOp::BitwiseXor),
                Operator::BitwiseOr => Some(BinOp::BitwiseOr),
                Operator::LogicalAnd => Some(BinOp::LogicalAnd),
                Operator::LogicalXor => Some(BinOp::LogicalXor),
                Operator::LogicalOr => Some(BinOp::LogicalOr),
                Operator::MemberAccess => Some(BinOp::MemberAccess),
                Operator::DoubleColon => Some(BinOp::NamespaceAccess),
                Operator::GreaterThan => if p + 1 >= tokens.len() {
                    None
                } else if is_operator_at(tokens, p + 1, Operator::Assign) {
                    Some(BinOp::GreaterOrEqualThan)
                } else if is_operator_at(tokens, p + 1, Operator::GreaterThan) {
                    if p + 2 >= tokens.len() {
                        None
                    } else if is_operator_at(tokens, p + 2, Operator::Assign) {
                        Some(BinOp::NotABinaryOp)
                    } else {
                        Some(BinOp::RightShift)
                    }
                } else {
                    Some(BinOp::GreaterThan)
                },
                _ => Some(BinOp::NotABinaryOp),
            },
            _ => Some(BinOp::NotABinaryOp),
        }
    }
}

/// The assignment operator that begins at `p`: `<<=` and `>>=` are read from
/// several tokens. `None` if the list ends before the operator can be told.
pub open spec fn assignment_operator_at(tokens: Seq<TokenWithDebugInfo<Token>>, p: int) -> Option<
    AssignmentOp,
> {
    if !(0 <= p < tokens.len()) {
        None
    } else {
        match tok(tokens, p) {
            SpecToken::Operator(op) => match op {
                Operator::Assign => Some(AssignmentOp::Assign),
                Operator::AddAssign => Some(AssignmentOp::AddAssign),
                Operator::SubtractAssign => Some(AssignmentOp::SubtractAssign),
                Operator::MultiplyAssign => Some(AssignmentOp::MultiplyAssign),
                Operator::DivideAssign => Some(AssignmentOp::DivideAssign),
                Operator::ModulusAssign => Some(AssignmentOp::ModulusAssign),
                Operator::LeftShift => if p + 1 >= tokens.len() {
                    None
                } else if is_operator_at(tokens, p + 1, Operator::Assign) {
                    Some(AssignmentOp::LeftShiftAssign)
                } else {
                    Some(AssignmentOp::NotAnAssignmentOp)
                },
                Operator::GreaterThan => if p + 1 >= tokens.len() {
                    None
                } else if is_operator_at(tokens, p + 1, Operator::GreaterThan) {
                    if p + 2 >= tokens.len() {
                        None
                    } else if is_operator_at(tokens, p + 2, Operator::Assign) {
                        Some(AssignmentOp::RightShiftAssign)
                    } else {
                        Some(AssignmentOp::NotAnAssignmentOp)
                    }
                } else {
                    Some(AssignmentOp::NotAnAssignmentOp)
                },
                Operator::BitwiseAndAssign => Some(AssignmentOp::BitwiseAndAssign),
                Operator::BitwiseXorAssign => Some(AssignmentOp::BitwiseXorAssign),
                Operator::BitwiseOrAssign => Some(AssignmentOp::BitwiseOrAssign),
                _ => Some(AssignmentOp::NotAnAssignmentOp),
            },
            _ => Some(AssignmentOp::NotAnAssignmentOp),
        }
    }
}

/// Whether `e` is the error that the token at `k` is not the `what` that
/// was expected there.
pub open spec fn expected_at(ts: Seq<TokenWithDebugInfo<Token>>, k: int, what: Seq<char>, e: CompileError) -> bool {
    &&& e.file == ts[k].file
    &&& e.line == ts[k].line
    &&& e.message matches ErrorMessage::Expected(w, t) && w@ == what && t@ == ts[k].internal_tok@
}

/// The prefix operator that the token `t` writes: `NotAUnaryOp` for a token
/// that is no operator, and `None` for an operator that cannot be a prefix.
pub open spec fn unary_operator_of(t: SpecToken) -> Option<UnOp> {
    match t {
        SpecToken::Operator(op) => match op {
            Operator::Increment => Some(UnOp::PreIncrement),
            Operator::Decrement => Some(UnOp::PreDecrement),
            Operator::Add => Some(UnOp::UnaryPlus),
            Operator::Subtract => Some(UnOp::UnaryMinus),
            Operator::LogicalNot => Some(UnOp::LogicalNot),
            Operator::BitwiseNot => Some(UnOp::BitwiseNot),
            Operator::Multiply => Some(UnOp::Dereference),
            Operator::BitwiseAnd => Some(UnOp::AddressOf),
            _ => None,
        },
        _ => Some(UnOp::NotAUnaryOp),
    }
}

/// Whether the token at `i` is `Operator(op)`.
fn operator_is(tokens: &Vec<TokenWithDebugInfo<Token>>, i: usize, op: Operator) -> (res: bool)
    ensures
        res == is_operator_at(tokens@, i as int, op),
{
    if i < tokens.len() {
        match &tokens[i].internal_tok {
            Token::Operator(o) => *o == op,
            _ => false,
        }
    } else {
        false
    }
}

/// The binary operator that begins at `pos`, located at that token.
pub fn get_bin_operator_from_tokens(tokens: &Vec<TokenWithDebugInfo<Token>>, pos: usize) -> (res:
    Result<TokenWithDebugInfo<BinOp>, CompileError>)
    ensures
        match binary_operator_at(tokens@, pos as int) {
            Some(op) => res matches Ok(r) && r.internal_tok == op && r.line == tokens@[pos as int].line
                && r.file@ == tokens@[pos as int].file@,
            None => res is Err,
        },
{
    let len = tokens.len();
    let token = token_at(tokens, pos)?;
    assert(pos < len);
    let op = match &token.internal_tok {
        Token::Operator(op) => match op {
            Operator::Multiply => BinOp::Multiply,
            Operator::Divide => BinOp::Divide,
            Operator::Modulus => BinOp::Modulus,
            Operator::Add => BinOp::Add,
            Operator::Subtract => BinOp::Subtract,
            Operator::LeftShift => {
                token_at(tokens, pos + 1)?;
                if operator_is(tokens, pos + 1, Operator::Assign) {
                    BinOp::NotABinaryOp
                } else {
                    BinOp::LeftShift
                }
            },
            Operator::LessThan => BinOp::LessThan,
            Operator::LessOrEqualThan => BinOp::LessOrEqualThan,
            Operator::Equal => BinOp::Equal,
            Operator::NotEqual => BinOp::NotEqual,
            Operator::BitwiseAnd => BinOp::BitwiseAnd,
            Operator::BitwiseXor => BinOp::BitwiseXor,
            Operator::BitwiseOr => BinOp::BitwiseOr,
            Operator::LogicalAnd => BinOp::LogicalAnd,
            Operator::LogicalXor => BinOp::LogicalXor,
            Operator::LogicalOr => BinOp::LogicalOr,
            Operator::MemberAccess => BinOp::MemberAccess,
            Operator::DoubleColon => BinOp::NamespaceAccess,
            Operator::GreaterThan => {
                // `>` followed by `=` or `>` is read here rather than in the
                // lexer, so that `S:<T>= e` and `f:<S:<T>>(a)` close their
                // generic bindings.
                token_at(tokens, pos + 1)?;
                if operator_is(tokens, pos + 1, Operator::Assign) {
                    BinOp::GreaterOrEqualThan
                } else if operator_is(tokens, pos + 1, Operator::GreaterThan) {
                    token_at(tokens, pos + 2)?;
                    if operator_is(tokens, pos + 2, Operator::Assign) {
                        BinOp::NotABinaryOp
                    } else {
                        BinOp::RightShift
                    }
                } else {
                    BinOp::GreaterThan
                }
            },
            _ => BinOp::NotABinaryOp,
        },
        _ => BinOp::NotABinaryOp,
    };
    Ok(TokenWithDebugInfo { internal_tok: op, line: token.line, file: token.file.clone() })
}

/// The assignment operator that begins at `pos`, located at that token.
pub fn get_assign_operator_from_tokens(tokens: &Vec<TokenWithDebugInfo<Token>>, pos: usize) -> (res:
    Result<TokenWithDebugInfo<AssignmentOp>, CompileError>)
    ensures
        match assignment_operator_at(tokens@, pos as int) {
            Some(op) => res matches Ok(r) && r.internal_tok == op && r.line == tokens@[pos as int].line
                && r.file@ == tokens@[pos as int].file@,
            None => res is Err,
        },
{
    let len = tokens.len();
    let token = token_at(tokens, pos)?;
    assert(pos < len);
    let op = match &token.internal_tok {
        Token::Operator(op) => match op {
            Operator::Assign => AssignmentOp::Assign,
            Operator::AddAssign => AssignmentOp::AddAssign,
            Operator::SubtractAssign => AssignmentOp::SubtractAssign,
            Operator::MultiplyAssign => AssignmentOp::MultiplyAssign,
            Operator::DivideAssign => AssignmentOp::DivideAssign,
            Operator::ModulusAssign => AssignmentOp::ModulusAssign,
            Operator::LeftShift => {
                token_at(tokens, pos + 1)?;
                if operator_is(tokens, pos + 1, Operator::Assign) {
                    AssignmentOp::LeftShiftAssign
                } else {
                    AssignmentOp::NotAnAssignmentOp
                }
            },
            Operator::GreaterThan => {
                token_at(tokens, pos + 1)?;
                if operator_is(tokens, pos + 1, Operator::GreaterThan) {
                    token_at(tokens, pos + 2)?;
                    if operator_is(tokens, pos + 2, Operator::Assign) {
                        AssignmentOp::RightShiftAssign
                    } else {
                        AssignmentOp::NotAnAssignmentOp
                    }
                } else {
                    AssignmentOp::NotAnAssignmentOp
                }
            },
            Operator::BitwiseAndAssign => AssignmentOp::BitwiseAndAssign,
            Operator::BitwiseXorAssign => AssignmentOp::BitwiseXorAssign,
            Operator::BitwiseOrAssign => AssignmentOp::BitwiseOrAssign,
            _ => AssignmentOp::NotAnAssignmentOp,
        },
        _ => AssignmentOp::NotAnAssignmentOp,
    };
    Ok(TokenWithDebugInfo { internal_tok: op, line: token.line, file: token.file.clone() })
}

/// The prefix operator that `token` writes, located at it; an error for an
/// operator that cannot be a prefix.
pub fn get_un_operator_from_token(token: &TokenWithDebugInfo<Token>) -> (res: Result<
    TokenWithDebugInfo<UnOp>,
    CompileError,
>)
    ensures
        match unary_operator_of(token.internal_tok@) {
            Some(op) => res matches Ok(r) && r.internal_tok == op && r.line == token.line
                && r.file@ == token.file@,
            None => res matches Err(e) && e.line == token.line && e.file@ == token.file@,
        },
{
    let op = match &token.internal_tok {
        Token::Operator(op) => match op {
            Operator::Increment => UnOp::PreIncrement,
            Operator::Decrement => UnOp::PreDecrement,
            Operator::Add => UnOp::UnaryPlus,
            Operator::Subtract => UnOp::UnaryMinus,
            Operator::LogicalNot => UnOp::LogicalNot,
            Operator::BitwiseNot => UnOp::BitwiseNot,
            Operator::Multiply => UnOp::Dereference,
            Operator::BitwiseAnd => UnOp::AddressOf,
            _ => return Err(error_unexpected_token("valid unary operator", token)),
        },
        _ => UnOp::NotAUnaryOp,
    };
    Ok(TokenWithDebugInfo { internal_tok: op, line: token.line, file: token.file.clone() })
}


// ---------------------------------------------------------------------------
// Literals, types and the precedence table.

/// Whether `lit` of type `ty` is the literal that the token `t` writes.
pub open spec fn literal_of_token(t: Token, lit: Literal, ty: Type) -> bool {
    match t {
        Token::IntLiteral(i) => lit == Literal::Int(i) && ty == Type::Int,
        Token::FloatLiteral(f) => lit matches Literal::Float(g) && g@ == f@ && ty == Type::Float,
        Token::HexLiteral(h) => lit == Literal::Hex(h) && ty == Type::Int,
        Token::BinLiteral(b) => lit == Literal::Binary(b) && ty == Type::Int,
        Token::BoolLiteral(b) => lit == Literal::Bool(b) && ty == Type::Bool,
        Token::CharLiteral(c) => lit matches Literal::Char(d) && d@ == c@ && ty == Type::Char,
        _ => false,
    }
}

/// Whether the token `t` writes a literal.
pub open spec fn is_literal_token(t: Token) -> bool {
    t is IntLiteral || t is FloatLiteral || t is HexLiteral || t is BinLiteral || t is BoolLiteral
        || t is CharLiteral
}

/// The literal that `token` writes, with its type, located at the token; an
/// error for a token that writes no literal.
pub fn parse_literal(token: &TokenWithDebugInfo<Token>) -> (res: Result<
    Typed<TokenWithDebugInfo<Literal>>,
    CompileError,
>)
    ensures
        is_literal_token(token.internal_tok) <==> res is Ok,
        res matches Ok(l) ==> literal_of_token(token.internal_tok, l.expr.internal_tok, l.type_)
            && l.expr.line == token.line && l.expr.file@ == token.file@,
        res matches Err(e) ==> e.line == token.line && e.file@ == token.file@,
{
    let (lit, ty) = match &token.internal_tok {
        Token::IntLiteral(i) => (Literal::Int(*i), Type::Int),
        Token::FloatLiteral(f) => (Literal::Float(f.clone()), Type::Float),
        Token::HexLiteral(h) => (Literal::Hex(*h), Type::Int),
        Token::BinLiteral(b) => (Literal::Binary(*b), Type::Int),
        Token::BoolLiteral(b) => (Literal::Bool(*b), Type::Bool),
        Token::CharLiteral(c) => (Literal::Char(c.clone()), Type::Char),
        _ => return Err(error_unexpected_token("constant", token)),
    };
    Ok(
        Typed::new_with_type(
            TokenWithDebugInfo { internal_tok: lit, line: token.line, file: token.file.clone() },
            ty,
        ),
    )
}

/// The operators of precedence level `i` of the table: binary, unary and
/// assignment operators. Level 0 holds the atoms and no operator.
pub open spec fn precedence_level(i: int) -> (Seq<BinOp>, Seq<UnOp>, Seq<AssignmentOp>) {
    if i == 1 {
        (seq![BinOp::MemberAccess, BinOp::NamespaceAccess], seq![], seq![])
    } else if i == 2 {
        (
            seq![],
            seq![
                UnOp::PreIncrement,
                UnOp::PreDecrement,
                UnOp::UnaryPlus,
                UnOp::UnaryMinus,
                UnOp::LogicalNot,
                UnOp::BitwiseNot,
                UnOp::Dereference,
                UnOp::AddressOf,
            ],
            seq![],
        )
    } else if i == 3 {
        (seq![BinOp::Multiply, BinOp::Divide, BinOp::Modulus], seq![], seq![])
    } else if i == 4 {
        (seq![BinOp::Add, BinOp::Subtract], seq![], seq![])
    } else if i == 5 {
        (seq![BinOp::LeftShift, BinOp::RightShift], seq![], seq![])
    } else if i == 6 {
        (
            seq![
                BinOp::LessThan,
                BinOp::GreaterThan,
                BinOp::LessOrEqualThan,
                BinOp::GreaterOrEqualThan,
            ],
            seq![],
            seq![],
        )
    } else if i == 7 {
        (seq![BinOp::Equal, BinOp::NotEqual], seq![], seq![])
    } else if i == 8 {
        (seq![BinOp::BitwiseAnd], seq![], seq![])
    } else if i == 9 {
        (seq![BinOp::BitwiseXor], seq![], seq![])
    } else if i == 10 {
        (seq![BinOp::BitwiseOr], seq![], seq![])
    } else if i == 11 {
        (seq![BinOp::LogicalAnd], seq![], seq![])
    } else if i == 12 {
        (seq![BinOp::LogicalXor], seq![], seq![])
    } else if i == 13 {
        (seq![BinOp::LogicalOr], seq![], seq![])
    } else if i == 14 {
        (
            seq![],
            seq![],
            seq![
                AssignmentOp::Assign,
                AssignmentOp::AddAssign,
                AssignmentOp::SubtractAssign,
                AssignmentOp::MultiplyAssign,
                AssignmentOp::DivideAssign,
                AssignmentOp::ModulusAssign,
                AssignmentOp::LeftShiftAssign,
                AssignmentOp::RightShiftAssign,
                AssignmentOp::BitwiseAndAssign,
                AssignmentOp::BitwiseXorAssign,
                AssignmentOp::BitwiseOrAssign,
            ],
        )
    } else {
        (seq![], seq![], seq![])
    }
}

/// Whether `table` is the precedence table of the language.
pub open spec fn is_precedence_table(table: Seq<PrecedenceLevel>) -> bool {
    &&& table.len() == 15
    &&& forall|i: int|
        0 <= i < 15 ==> (#[trigger] table[i]).binary_ops@ == precedence_level(i).0
            && table[i].unary_ops@ == precedence_level(i).1 && table[i].assignment_ops@
            == precedence_level(i).2
}

/// A precedence level with the given operators.
fn level(binary_ops: Vec<BinOp>, unary_ops: Vec<UnOp>, assignment_ops: Vec<AssignmentOp>) -> (res:
    PrecedenceLevel)
    ensures
        res.binary_ops == binary_ops,
        res.unary_ops == unary_ops,
        res.assignment_ops == assignment_ops,
{
    PrecedenceLevel { binary_ops, unary_ops, assignment_ops }
}

/// The precedence table of the language, from the atoms (level 0) to the
/// assignments (level 14).
pub fn build_precedence_table() -> (res: Vec<PrecedenceLevel>)
    ensures
        is_precedence_table(res@),
{
    let mut t: Vec<PrecedenceLevel> = Vec::new();
    t.push(level(vec![], vec![], vec![]));
    t.push(level(vec![BinOp::MemberAccess, BinOp::NamespaceAccess], vec![], vec![]));
    t.push(
        level(
            vec![],
            vec![
                UnOp::PreIncrement,
                UnOp::PreDecrement,
                UnOp::UnaryPlus,
                UnOp::UnaryMinus,
                UnOp::LogicalNot,
                UnOp::BitwiseNot,
                UnOp::Dereference,
                UnOp::AddressOf,
            ],
            vec![],
        ),
    );
    t.push(level(vec![BinOp::Multiply, BinOp::Divide, BinOp::Modulus], vec![], vec![]));
    t.push(level(vec![BinOp::Add, BinOp::Subtract], vec![], vec![]));
    t.push(level(vec![BinOp::LeftShift, BinOp::RightShift], vec![], vec![]));
    t.push(
        level(
            vec![
                BinOp::LessThan,
                BinOp::GreaterThan,
                BinOp::LessOrEqualThan,
                BinOp::GreaterOrEqualThan,
            ],
            vec![],
            vec![],
        ),
    );
    t.push(level(vec![BinOp::Equal, BinOp::NotEqual], vec![], vec![]));
    t.push(level(vec![BinOp::BitwiseAnd], vec![], vec![]));
    t.push(level(vec![BinOp::BitwiseXor], vec![], vec![]));
    t.push(level(vec![BinOp::BitwiseOr], vec![], vec![]));
    t.push(level(vec![BinOp::LogicalAnd], vec![], vec![]));
    t.push(level(vec![BinOp::LogicalXor], vec![], vec![]));
    t.push(level(vec![BinOp::LogicalOr], vec![], vec![]));
    t.push(
        level(
            vec![],
            vec![],
            vec![
                AssignmentOp::Assign,
                AssignmentOp::AddAssign,
                AssignmentOp::SubtractAssign,
                AssignmentOp::MultiplyAssign,
                AssignmentOp::DivideAssign,
                AssignmentOp::ModulusAssign,
                AssignmentOp::LeftShiftAssign,
                AssignmentOp::RightShiftAssign,
                AssignmentOp::BitwiseAndAssign,
                AssignmentOp::BitwiseXorAssign,
                AssignmentOp::BitwiseOrAssign,
            ],
        ),
    );
    assert forall|i: int| 0 <= i < 15 implies (#[trigger] t@[i]).binary_ops@ == precedence_level(i).0
        && t@[i].unary_ops@ == precedence_level(i).1 && t@[i].assignment_ops@
        == precedence_level(i).2 by {
        assert(precedence_level(i).0 =~= t@[i].binary_ops@);
        assert(precedence_level(i).1 =~= t@[i].unary_ops@);
        assert(precedence_level(i).2 =~= t@[i].assignment_ops@);
    }
    t
}


/// Whether a type parsed from `pos` to `q` as `t` has the shape that the token
/// at `pos` announces: a primitive type name, `*` for a pointer, or an
/// identifier for a struct, a namespaced type or a generic binding.
pub open spec fn type_head(tokens: Seq<TokenWithDebugInfo<Token>>, pos: int, t: Type, q: int) -> bool {
    match tok(tokens, pos) {
        SpecToken::PrimitiveType(k) => if k == "int"@ {
            t == Type::Int && q == pos + 1
        } else if k == "float"@ {
            t == Type::Float && q == pos + 1
        } else if k == "bool"@ {
            t == Type::Bool && q == pos + 1
        } else if k == "void"@ {
            t == Type::Void && q == pos + 1
        } else if k == "char"@ {
            t == Type::Char && q == pos + 1
        } else if k == "str"@ {
            t matches Type::Array(inner) && inner.internal_tok == Type::Char && q == pos + 1
        } else {
            t is Array
        },
        SpecToken::Operator(Operator::Multiply) => t is Pointer,
        SpecToken::Identifier(id) => if pos + 1 < tokens.len() && tok(tokens, pos + 1)
            == SpecToken::Operator(Operator::DoubleColon) {
            t matches Type::Namespace(n, _) && n@ == id
        } else if pos + 1 < tokens.len() && tok(tokens, pos + 1) == SpecToken::BeginGeneric {
            t matches Type::GenericBinding(n, _) && n@ == id
        } else {
            t matches Type::Struct(n) && n@ == id && q == pos + 1
        },
        _ => false,
    }
}

/// Where the type written from `p` ends, the position after it; `None`
/// where the tokens there write no type. A type is a primitive type,
/// `array[T]`, `*T`, `N::T` (a type in the namespace `N`), `S:<T1, ..., Tn>`
/// (a generic struct with its type arguments), or a name.
pub open spec fn type_end(ts: Seq<TokenWithDebugInfo<Token>>, p: int) -> Option<int>
    decreases ts.len() - p, 0int,
{
    if p < 0 || p >= ts.len() {
        None
    } else {
        match tok(ts, p) {
            SpecToken::PrimitiveType(k) => if k == "int"@ || k == "float"@ || k == "bool"@ || k == "void"@
                || k == "char"@ || k == "str"@ {
                Some(p + 1)
            } else if k == "array"@ && p + 1 < ts.len() && tok(ts, p + 1) == SpecToken::LBracket {
                match type_end(ts, p + 2) {
                    Some(q) => if 0 <= q < ts.len() && tok(ts, q) == SpecToken::RBracket {
                        Some(q + 1)
                    } else {
                        None
                    },
                    None => None,
                }
            } else {
                None
            },
            SpecToken::Operator(Operator::Multiply) => type_end(ts, p + 1),
            SpecToken::Identifier(_) => if p + 1 >= ts.len() {
                None
            } else if tok(ts, p + 1) == SpecToken::Operator(Operator::DoubleColon) {
                type_end(ts, p + 2)
            } else if tok(ts, p + 1) == SpecToken::BeginGeneric {
                type_args_end(ts, p + 2)
            } else {
                Some(p + 1)
            },
            _ => None,
        }
    }
}

/// Where the type arguments written from `p`, `T1, ..., Tn>`, end: the
/// position after the `>`.
pub open spec fn type_args_end(ts: Seq<TokenWithDebugInfo<Token>>, p: int) -> Option<int>
    decreases ts.len() - p, 1int,
{
    match type_end(ts, p) {
        Some(q) => if p < q < ts.len() {
            if tok(ts, q) == SpecToken::Operator(Operator::GreaterThan) {
                Some(q + 1)
            } else if tok(ts, q) == SpecToken::Comma {
                type_args_end(ts, q + 1)
            } else {
                None
            }
        } else {
            None
        },
        None => None,
    }
}

/// The position where the `i`-th of the type arguments written from `p`
/// begins.
pub open spec fn type_arg_start(ts: Seq<TokenWithDebugInfo<Token>>, p: int, i: nat) -> int
    decreases i,
{
    if i == 0 {
        p
    } else {
        match type_end(ts, type_arg_start(ts, p, (i - 1) as nat)) {
            Some(q) => q + 1,
            None => -1,
        }
    }
}

/// The number of type arguments written from `p`.
pub open spec fn type_arg_count(ts: Seq<TokenWithDebugInfo<Token>>, p: int) -> nat
    decreases ts.len() - p,
{
    match type_end(ts, p) {
        Some(q) => if p < q < ts.len() && tok(ts, q) == SpecToken::Comma {
            1 + type_arg_count(ts, q + 1)
        } else {
            1
        },
        None => 1,
    }
}

/// Whether `t` is the type written from `p` (where `type_end` finds one).
pub open spec fn type_written(ts: Seq<TokenWithDebugInfo<Token>>, p: int, t: Type) -> bool
    decreases t,
{
    match tok(ts, p) {
        SpecToken::PrimitiveType(k) => if k == "int"@ {
            t is Int
        } else if k == "float"@ {
            t is Float
        } else if k == "bool"@ {
            t is Bool
        } else if k == "void"@ {
            t is Void
        } else if k == "char"@ {
            t is Char
        } else if k == "str"@ {
            t matches Type::Array(inner) && inner.internal_tok is Char
        } else {
            t matches Type::Array(inner) && type_written(ts, p + 2, inner.internal_tok)
        },
        SpecToken::Operator(Operator::Multiply) => t matches Type::Pointer(inner) && type_written(
            ts,
            p + 1,
            inner.internal_tok,
        ),
        SpecToken::Identifier(id) => if tok(ts, p + 1) == SpecToken::Operator(Operator::DoubleColon) {
            t matches Type::Namespace(n, inner) && n@ == id && type_written(ts, p + 2, inner.internal_tok)
        } else if tok(ts, p + 1) == SpecToken::BeginGeneric {
            t matches Type::GenericBinding(n, args) && n@ == id && args@.len() == type_arg_count(ts, p + 2)
                && forall|i: int|
                0 <= i < args@.len() ==> type_written(
                    ts,
                    type_arg_start(ts, p + 2, i as nat),
                    (#[trigger] args@[i]).internal_tok,
                )
        } else {
            t matches Type::Struct(n) && n@ == id
        },
        _ => false,
    }
}

/// Parses a type that begins at `pos`; returns it, located at its first token,
/// and the position that follows it.
pub fn parse_type(tokens: &Vec<TokenWithDebugInfo<Token>>, pos: usize) -> (res: Result<
    (TokenWithDebugInfo<Type>, usize),
    CompileError,
>)
    ensures
        res is Ok <==> type_end(tokens@, pos as int) is Some,
        res matches Ok((t, q)) ==> pos < q <= tokens@.len() && type_end(tokens@, pos as int) == Some(q as int)
            && type_written(tokens@, pos as int, t.internal_tok) && type_head(
            tokens@,
            pos as int,
            t.internal_tok,
            q as int,
        ) && t.line == tokens@[pos as int].line && t.file@ == tokens@[pos as int].file@,
    decreases tokens@.len() - pos,
{
    let tok = token_at(tokens, pos)?;
    let (line, file) = (tok.line, tok.file.clone());
    let (t, next) = match &tok.internal_tok {
        Token::PrimitiveType(k) => {
            if same_text(k.as_str(), "int") {
                (Type::Int, pos + 1)
            } else if same_text(k.as_str(), "float") {
                (Type::Float, pos + 1)
            } else if same_text(k.as_str(), "bool") {
                (Type::Bool, pos + 1)
            } else if same_text(k.as_str(), "void") {
                (Type::Void, pos + 1)
            } else if same_text(k.as_str(), "char") {
                (Type::Char, pos + 1)
            } else if same_text(k.as_str(), "str") {
                (
                    Type::Array(
                        Box::new(
                            TokenWithDebugInfo { internal_tok: Type::Char, line, file: file.clone() },
                        ),
                    ),
                    pos + 1,
                )
            } else if same_text(k.as_str(), "array") {
                let next_tok = token_at(tokens, pos + 1)?;
                if !matches!(next_tok.internal_tok, Token::LBracket) {
                    return Err(error_unexpected_token("opening bracket", next_tok));
                }
                let (inner, q) = parse_type(tokens, pos + 2)?;
                let next_tok = token_at(tokens, q)?;
                if !matches!(next_tok.internal_tok, Token::RBracket) {
                    return Err(error_unexpected_token("closing bracket", next_tok));
                }
                (Type::Array(Box::new(inner)), q + 1)
            } else {
                return Err(error_unexpected_token("valid type keyword", tok));
            }
        },
        Token::Operator(Operator::Multiply) => {
            let (inner, q) = parse_type(tokens, pos + 1)?;
            (Type::Pointer(Box::new(inner)), q)
        },
        Token::Identifier(id) => {
            // The identifier may name a struct or an enum, or nothing at all:
            // the checker tells them apart.
            let next_tok = token_at(tokens, pos + 1)?;
            if matches!(next_tok.internal_tok, Token::Operator(Operator::DoubleColon)) {
                let (inner, q) = parse_type(tokens, pos + 2)?;
                (Type::Namespace(id.clone(), Box::new(inner)), q)
            } else if matches!(next_tok.internal_tok, Token::BeginGeneric) {
                let mut generics: Vec<TokenWithDebugInfo<Type>> = Vec::new();
                let mut p: usize = pos + 2;
                let ghost start = pos + 2;
                loop
                    invariant_except_break
                        p as int == type_arg_start(tokens@, start, generics@.len()),
                        type_args_end(tokens@, start) == type_args_end(tokens@, p as int),
                        type_arg_count(tokens@, start) == generics@.len() + type_arg_count(tokens@, p as int),
                    invariant
                        pos + 2 <= p <= tokens@.len(),
                        start == pos + 2,
                        type_end(tokens@, pos as int) == type_args_end(tokens@, start),
                        forall|i: int|
                            0 <= i < generics@.len() ==> type_written(
                                tokens@,
                                type_arg_start(tokens@, start, i as nat),
                                (#[trigger] generics@[i]).internal_tok,
                            ),
                    ensures
                        pos + 2 < p <= tokens@.len(),
                        type_args_end(tokens@, start) == Some(p as int),
                        type_arg_count(tokens@, start) == generics@.len(),
                    decreases tokens@.len() - p,
                {
                    let (g, q) = parse_type(tokens, p)?;
                    let ghost k = generics@.len();
                    generics.push(g);
                    assert(type_arg_start(tokens@, start, (k + 1) as nat) == q + 1);
                    let next_tok = token_at(tokens, q)?;
                    p = q + 1;
                    if matches!(next_tok.internal_tok, Token::Operator(Operator::GreaterThan)) {
                        break ;
                    } else if matches!(next_tok.internal_tok, Token::Comma) {
                        continue ;
                    } else {
                        return Err(error_unexpected_token("comma or '>'", next_tok));
                    }
                }
                (Type::GenericBinding(id.clone(), generics), p)
            } else {
                (Type::Struct(id.clone()), pos + 1)
            }
        },
        _ => return Err(error_unexpected_token("valid type token", tok)),
    };
    Ok((TokenWithDebugInfo { internal_tok: t, line, file }, next))
}


// ---------------------------------------------------------------------------
// Assignment targets and array literals.

/// Whether `e` says that what is assigned to is no modifiable lvalue.
pub open spec fn invalid_lvalue(e: CompileError) -> bool {
    e.message matches ErrorMessage::Text(m) && m@ == "Invalid reassignment identifier. Only modifiable lvalues are allowed."@
}

/// Reads an expression as the left hand side of an assignment: a variable, a
/// dereferenced address, an array element or a struct member. Any other
/// expression is an error, located at the expression.
pub fn parse_reassignment_identifier(expr: TokenWithDebugInfo<Expression>) -> (res: Result<
    TokenWithDebugInfo<ReassignmentIdentifier>,
    CompileError,
>)
    ensures
        match expr.internal_tok {
            Expression::Atom(a) => match a.expr.internal_tok {
                Atom::Variable(v) => res matches Ok(r) && r.internal_tok == ReassignmentIdentifier::Variable(
                    v,
                ) && r.line == a.expr.line && r.file == a.expr.file,
                _ => res matches Err(e) && e.line == expr.line && e.file == expr.file && invalid_lvalue(e),
            },
            Expression::UnaryOp(e, UnOp::Dereference) => res matches Ok(r) && r.internal_tok
                == ReassignmentIdentifier::Dereference(e),
            Expression::ArrayAccess(e, idx) => res matches Ok(r) && r.internal_tok
                == ReassignmentIdentifier::Array(e, idx),
            Expression::BinaryOp(a, b, BinOp::MemberAccess) => res matches Ok(r) && r.internal_tok
                == ReassignmentIdentifier::MemberAccess(a, b),
            _ => res matches Err(e) && e.line == expr.line && e.file == expr.file && invalid_lvalue(e),
        },
{
    let err = error("Invalid reassignment identifier. Only modifiable lvalues are allowed.", &expr);
    match expr.internal_tok {
        Expression::Atom(a) => match a.expr.internal_tok {
            Atom::Variable(v) => Ok(
                TokenWithDebugInfo {
                    internal_tok: ReassignmentIdentifier::Variable(v),
                    line: a.expr.line,
                    file: a.expr.file,
                },
            ),
            _ => Err(err),
        },
        Expression::UnaryOp(e, op) => {
            if op == UnOp::Dereference {
                let (line, file) = (e.expr.line, e.expr.file.clone());
                Ok(
                    TokenWithDebugInfo {
                        internal_tok: ReassignmentIdentifier::Dereference(e),
                        line,
                        file,
                    },
                )
            } else {
                Err(err)
            }
        },
        Expression::ArrayAccess(e, idx) => {
            let (line, file) = (e.expr.line, e.expr.file.clone());
            Ok(TokenWithDebugInfo { internal_tok: ReassignmentIdentifier::Array(e, idx), line, file })
        },
        Expression::BinaryOp(a, b, op) => {
            if op == BinOp::MemberAccess {
                let (line, file) = (a.expr.line, a.expr.file.clone());
                Ok(
                    TokenWithDebugInfo {
                        internal_tok: ReassignmentIdentifier::MemberAccess(a, b),
                        line,
                        file,
                    },
                )
            } else {
                Err(err)
            }
        },
        _ => Err(err),
    }
}

/// The nested array literal that an array element holds, if it holds one.
pub open spec fn nested_array(e: Typed<TokenWithDebugInfo<Expression>>) -> Option<
    (Vec<Typed<TokenWithDebugInfo<Expression>>>, i64),
> {
    match e.expr.internal_tok {
        Expression::Atom(a) => match a.expr.internal_tok {
            Atom::Array(sub, d) => Some((sub, d)),
            _ => None,
        },
        _ => None,
    }
}

/// The elements of the nested array literal that an array element holds;
/// none if it holds no array literal.
pub open spec fn nested_elements(e: Typed<TokenWithDebugInfo<Expression>>) -> Seq<
    Typed<TokenWithDebugInfo<Expression>>,
> {
    match nested_array(e) {
        Some((sub, _)) => sub@,
        None => Seq::empty(),
    }
}

/// Two lists of dimension sizes merged position by position: each position
/// has the larger size that the lists give it, and the result is as long as
/// the longer list.
pub open spec fn merge_dims(acc: Seq<i64>, sub: Seq<i64>) -> Seq<i64> {
    Seq::new(
        if acc.len() >= sub.len() {
            acc.len()
        } else {
            sub.len()
        },
        |k: int|
            if k < sub.len() && (k >= acc.len() || acc[k] < sub[k]) {
                sub[k]
            } else {
                acc[k]
            },
    )
}

/// The size of each dimension of an array literal: the number of elements
/// that it declares, then the dimensions that its nested literals give.
/// Empty for an atom that is no array.
pub open spec fn array_dims(a: Atom) -> Seq<i64>
    decreases a, 1nat, 0int,
{
    match a {
        Atom::Array(sub, d) => seq![d] + nested_dims(sub, sub@.len() as int),
        _ => Seq::empty(),
    }
}

/// The dimensions below the first that the first `n` elements of an array
/// literal give: those of each nested array literal, merged with
/// `merge_dims`.
pub open spec fn nested_dims(elements: Vec<Typed<TokenWithDebugInfo<Expression>>>, n: int) -> Seq<i64>
    decreases elements, 0nat, n,
{
    if n <= 0 || n > elements@.len() {
        Seq::empty()
    } else {
        let prev = nested_dims(elements, n - 1);
        proof {
            assert(decreases_to!(elements => elements@[n - 1]));
        }
        match elements@[n - 1].expr.internal_tok {
            Expression::Atom(atom) => match atom.expr.internal_tok {
                Atom::Array(_, _) => merge_dims(prev, array_dims(atom.expr.internal_tok)),
                _ => prev,
            },
            _ => prev,
        }
    }
}

/// The size of each dimension of an array literal: the first is the number
/// of elements the literal declares, and each next one is the largest size
/// that a nested literal has in it. `None` for an atom that is no array.
pub fn find_arr_dims(array: &Atom) -> (res: Option<Vec<i64>>)
    ensures
        res is Some <==> array is Array,
        res matches Some(dims) ==> dims@ == array_dims(*array),
    decreases array, 1nat, 0int,
{
    match array {
        Atom::Array(sub_elements, dim) => {
            let mut dims = dims_below(sub_elements);
            let ghost below = dims@;
            dims.insert(0, *dim);
            assert(dims@ =~= seq![*dim] + below);
            Some(dims)
        },
        _ => None,
    }
}

/// The sizes of the dimensions below the first of an array literal with the
/// elements `elements`: for each, the largest that a nested literal has.
fn dims_below(elements: &Vec<Typed<TokenWithDebugInfo<Expression>>>) -> (res: Vec<i64>)
    ensures
        res@ == nested_dims(*elements, elements@.len() as int),
    decreases elements, 0nat, elements@.len(),
{
    let mut dims: Vec<i64> = Vec::new();
    let mut i: usize = 0;
    while i < elements.len()
        invariant
            i <= elements@.len(),
            dims@ == nested_dims(*elements, i as int),
        decreases elements@.len() - i,
    {
        proof {
            assert(decreases_to!(elements => elements@[i as int]));
        }
        match &elements[i].expr.internal_tok {
            Expression::Atom(atom) => {
                if let Atom::Array(_, _) = &atom.expr.internal_tok {
                    if let Some(sub_dims) = find_arr_dims(&atom.expr.internal_tok) {
                        let ghost acc = dims@;
                        let mut k: usize = 0;
                        while k < sub_dims.len()
                            invariant
                                k <= sub_dims@.len(),
                                dims@.len() == if acc.len() >= k {
                                    acc.len()
                                } else {
                                    k as nat
                                },
                                forall|j: int|
                                    0 <= j < dims@.len() ==> #[trigger] dims@[j] == if j < k && (j >= acc.len()
                                        || acc[j] < sub_dims@[j]) {
                                        sub_dims@[j]
                                    } else {
                                        acc[j]
                                    },
                            decreases sub_dims@.len() - k,
                        {
                            if k >= dims.len() {
                                dims.push(sub_dims[k]);
                            } else if dims[k] < sub_dims[k] {
                                dims.set(k, sub_dims[k]);
                            }
                            k = k + 1;
                        }
                        assert(dims@ =~= merge_dims(acc, sub_dims@));
                    }
                }
            },
            _ => {},
        }
        i = i + 1;
    }
    dims
}

/// Whether `e` is the literal `0`, not typed yet, with each of its nodes
/// located at `line` of `file`.
pub open spec fn untyped_zero_at(e: Expression, line: usize, file: Seq<char>) -> bool {
    &&& e matches Expression::Atom(a)
    &&& a.type_ == Type::Void
    &&& a.expr.line == line
    &&& a.expr.file@ == file
    &&& a.expr.internal_tok matches Atom::Literal(l)
    &&& l.type_ == Type::Void
    &&& l.expr.line == line
    &&& l.expr.file@ == file
    &&& l.expr.internal_tok == Literal::Int(0)
}

/// The literal `0`, located at `line` of `file`, as an array element.
fn zero_element(line: usize, file: &String) -> (res: Typed<TokenWithDebugInfo<Expression>>)
    ensures
        res.type_ == Type::Void,
        res.expr.line == line,
        res.expr.file@ == file@,
        untyped_zero_at(res.expr.internal_tok, line, file@),
{
    Typed::new(
        TokenWithDebugInfo {
            internal_tok: Expression::Atom(
                Typed::new(
                    TokenWithDebugInfo {
                        internal_tok: Atom::Literal(
                            Typed::new(
                                TokenWithDebugInfo {
                                    internal_tok: Literal::Int(0),
                                    line,
                                    file: file.clone(),
                                },
                            ),
                        ),
                        line,
                        file: file.clone(),
                    },
                ),
            ),
            line,
            file: file.clone(),
        },
    )
}

/// An array element that holds the nested array literal `elements`, located at
/// `line` of `file`.
fn array_element(elements: Vec<Typed<TokenWithDebugInfo<Expression>>>, line: usize, file: String) -> (res:
    Typed<TokenWithDebugInfo<Expression>>)
    ensures
        nested_array(res) matches Some((sub, d)) && sub == elements,
{
    let n = elements.len() as i64;
    Typed::new(
        TokenWithDebugInfo {
            internal_tok: Expression::Atom(
                Typed::new(
                    TokenWithDebugInfo {
                        internal_tok: Atom::Array(elements, n),
                        line,
                        file: file.clone(),
                    },
                ),
            ),
            line,
            file,
        },
    )
}

/// Whether the array elements `elements` fill dimension `depth` of `dims`
/// and every dimension below it: there are at least `dims[depth]` of them,
/// and above the last dimension each one is a nested array literal that
/// fills the next dimension.
pub open spec fn fills_dims(elements: Seq<Typed<TokenWithDebugInfo<Expression>>>, depth: int, dims: Seq<i64>) -> bool
    decreases dims.len() - depth,
{
    if 0 <= depth < dims.len() {
        &&& elements.len() >= dims[depth]
        &&& (depth + 1 < dims.len() ==> forall|i: int|
            0 <= i < elements.len() ==> (#[trigger] nested_array(elements[i])) is Some
                && fills_dims(nested_elements(elements[i]), depth + 1, dims))
    } else {
        true
    }
}

/// Makes an array literal rectangular: below dimension `depth`, each element
/// becomes an array literal (a scalar `x` becoming `[x]`), and each array at
/// this depth is filled up to `max_dims[depth]` elements, with zeros in the
/// last dimension and with arrays above it. Elements are only added, never
/// taken away.
pub fn rectangularize_array(
    array: &mut Vec<Typed<TokenWithDebugInfo<Expression>>>,
    depth: usize,
    max_dims: &Vec<i64>,
)
    requires
        depth < max_dims@.len(),
        forall|k: int| 0 <= k < max_dims@.len() ==> 0 <= #[trigger] max_dims@[k] <= usize::MAX,
    ensures
        final(array)@.len() >= old(array)@.len(),
        fills_dims(final(array)@, depth as int, max_dims@),
    decreases max_dims@.len() - depth,
{
    let n_dims = max_dims.len();
    let max_size = max_dims[depth] as usize;
    assert(max_size as int == max_dims@[depth as int]);
    let ghost old_len = array@.len();
    let (line, file) = if array.len() > 0 {
        (array[0].expr.line, array[0].expr.file.clone())
    } else {
        (0, String::new())
    };
    let deeper = depth + 1 < n_dims;
    if deeper {
        let mut old_elements: Vec<Typed<TokenWithDebugInfo<Expression>>> = Vec::new();
        std::mem::swap(&mut old_elements, array);
        let mut rebuilt: Vec<Typed<TokenWithDebugInfo<Expression>>> = Vec::new();
        while old_elements.len() > 0
            invariant
                depth + 1 < max_dims@.len(),
                n_dims == max_dims@.len(),
                forall|k: int| 0 <= k < max_dims@.len() ==> 0 <= #[trigger] max_dims@[k] <= usize::MAX,
                rebuilt@.len() + old_elements@.len() == old_len,
                forall|j: int|
                    0 <= j < rebuilt@.len() ==> (#[trigger] nested_array(rebuilt@[j])) is Some
                        && fills_dims(nested_elements(rebuilt@[j]), depth + 1, max_dims@),
            decreases old_elements@.len(),
        {
            let elem = old_elements.remove(0);
            let Typed { expr, type_ } = elem;
            let TokenWithDebugInfo { internal_tok, line: eline, file: efile } = expr;
            let rebuilt_elem = match internal_tok {
                Expression::Atom(a) => {
                    let Typed { expr: aexpr, type_: atype } = a;
                    let TokenWithDebugInfo { internal_tok: atom, line: aline, file: afile } = aexpr;
                    match atom {
                        Atom::Array(mut sub, d) => {
                            rectangularize_array(&mut sub, depth + 1, max_dims);
                            Typed {
                                expr: TokenWithDebugInfo {
                                    internal_tok: Expression::Atom(
                                        Typed {
                                            expr: TokenWithDebugInfo {
                                                internal_tok: Atom::Array(sub, d),
                                                line: aline,
                                                file: afile,
                                            },
                                            type_: atype,
                                        },
                                    ),
                                    line: eline,
                                    file: efile,
                                },
                                type_,
                            }
                        },
                        other => {
                            let inner = TokenWithDebugInfo {
                                internal_tok: Expression::Atom(
                                    Typed {
                                        expr: TokenWithDebugInfo {
                                            internal_tok: other,
                                            line: aline,
                                            file: afile,
                                        },
                                        type_: atype,
                                    },
                                ),
                                line: eline,
                                file: efile.clone(),
                            };
                            let mut new_elem = vec![Typed::new(inner)];
                            rectangularize_array(&mut new_elem, depth + 1, max_dims);
                            let wrapped = array_element(new_elem, eline, efile);
                            Typed { expr: wrapped.expr, type_ }
                        },
                    }
                },
                other => {
                    let inner = TokenWithDebugInfo { internal_tok: other, line: eline, file: efile.clone() };
                    let mut new_elem = vec![Typed::new(inner)];
                    rectangularize_array(&mut new_elem, depth + 1, max_dims);
                    let wrapped = array_element(new_elem, eline, efile);
                    Typed { expr: wrapped.expr, type_ }
                },
            };
            rebuilt.push(rebuilt_elem);
        }
        *array = rebuilt;
    }
    while array.len() < max_size
        invariant
            depth < max_dims@.len(),
            n_dims == max_dims@.len(),
            deeper == (depth + 1 < max_dims@.len()),
            forall|k: int| 0 <= k < max_dims@.len() ==> 0 <= #[trigger] max_dims@[k] <= usize::MAX,
            max_size == max_dims@[depth as int],
            array@.len() >= old_len,
            deeper ==> forall|j: int|
                0 <= j < array@.len() ==> (#[trigger] nested_array(array@[j])) is Some
                    && fills_dims(nested_elements(array@[j]), depth + 1, max_dims@),
        decreases max_size - array@.len(),
    {
        if !deeper {
            array.push(zero_element(line, &file));
        } else {
            let mut new_elem: Vec<Typed<TokenWithDebugInfo<Expression>>> = Vec::new();
            rectangularize_array(&mut new_elem, depth + 1, max_dims);
            let (l, f) = if new_elem.len() > 0 {
                (new_elem[0].expr.line, new_elem[0].expr.file.clone())
            } else {
                (0, String::new())
            };
            array.push(array_element(new_elem, l, f));
        }
    }
}

/// The lines of a sequence of array elements.
pub open spec fn lines_of(s: Seq<Typed<TokenWithDebugInfo<Expression>>>) -> Seq<usize> {
    Seq::new(s.len(), |j: int| s[j].expr.line)
}

/// The lines of what an array element becomes when its array is flattened:
/// those of the elements of the array literal it holds, or its own.
pub open spec fn element_lines(e: Typed<TokenWithDebugInfo<Expression>>) -> Seq<usize> {
    match nested_array(e) {
        Some((sub, _)) => lines_of(sub@),
        None => seq![e.expr.line],
    }
}

/// The lines of the elements of a flattened array literal.
pub open spec fn flat_lines(s: Seq<Typed<TokenWithDebugInfo<Expression>>>) -> Seq<usize>
    decreases s.len(),
{
    if s.len() == 0 {
        Seq::empty()
    } else {
        flat_lines(s.drop_last()) + element_lines(s.last())
    }
}

/// The elements of an array literal, with the elements of each nested array
/// literal put in its place, in order.
pub fn flatten(array: &Vec<Typed<TokenWithDebugInfo<Expression>>>) -> (res: Vec<
    Typed<TokenWithDebugInfo<Expression>>,
>)
    ensures
        lines_of(res@) == flat_lines(array@),
{
    let mut flat_arr: Vec<Typed<TokenWithDebugInfo<Expression>>> = Vec::new();
    let mut i: usize = 0;
    while i < array.len()
        invariant
            i <= array@.len(),
            lines_of(flat_arr@) == flat_lines(
                array@.take(i as int),
            ),
        decreases array@.len() - i,
    {
        let ghost before = lines_of(flat_arr@);
        assert(array@.take(i + 1).drop_last() =~= array@.take(i as int));
        let elem = &array[i].expr;
        let mut nested = false;
        if let Expression::Atom(a) = &elem.internal_tok {
            if let Atom::Array(sub, _) = &a.expr.internal_tok {
                nested = true;
                let mut k: usize = 0;
                while k < sub.len()
                    invariant
                        k <= sub@.len(),
                        lines_of(flat_arr@) == before
                            + lines_of(sub@.take(k as int)),
                    decreases sub@.len() - k,
                {
                    let ghost fa = flat_arr@;
                    let c = clone_typed_expression(&sub[k]);
                    flat_arr.push(c);
                    assert(lines_of(flat_arr@) =~= lines_of(fa).push(sub@[k as int].expr.line));
                    assert(lines_of(sub@.take(k + 1)) =~= lines_of(sub@.take(k as int)).push(sub@[k as int].expr.line));
                    assert(lines_of(flat_arr@) =~= before + lines_of(sub@.take(k + 1)));
                    k = k + 1;
                }
                assert(sub@.take(sub@.len() as int) =~= sub@);
            }
        }
        if !nested {
            let ghost fa = flat_arr@;
            flat_arr.push(Typed::new(clone_expression_info(elem)));
            assert(lines_of(flat_arr@) =~= lines_of(fa).push(array@[i as int].expr.line));
            assert(lines_of(flat_arr@) =~= before
                + seq![array@[i as int].expr.line]);
        }
        i = i + 1;
    }
    assert(array@.take(array@.len() as int) =~= array@);
    flat_arr
}


// ---------------------------------------------------------------------------
// Atoms and expressions.

/// Whether the token at `i` is `t`.
fn token_is(tokens: &Vec<TokenWithDebugInfo<Token>>, i: usize, t: &Token) -> (res: bool)
    ensures
        res == (0 <= i < tokens@.len() && tok(tokens@, i as int) == t@),
{
    if i < tokens.len() {
        match (&tokens[i].internal_tok, t) {
            (Token::LParen, Token::LParen) => true,
            (Token::RParen, Token::RParen) => true,
            (Token::Comma, Token::Comma) => true,
            (Token::Semicolon, Token::Semicolon) => true,
            (Token::Colon, Token::Colon) => true,
            (Token::LBrace, Token::LBrace) => true,
            (Token::RBrace, Token::RBrace) => true,
            (Token::LBracket, Token::LBracket) => true,
            (Token::RBracket, Token::RBracket) => true,
            (Token::BeginGeneric, Token::BeginGeneric) => true,
            (Token::EOF, Token::EOF) => true,
            (Token::Operator(a), Token::Operator(b)) => *a == *b,
            (Token::Keyword(a), Token::Keyword(b)) => same_text(a.as_str(), b.as_str()),
            (Token::Identifier(a), Token::Identifier(b)) => same_text(a.as_str(), b.as_str()),
            (Token::PrimitiveType(a), Token::PrimitiveType(b)) => same_text(a.as_str(), b.as_str()),
            (Token::FloatLiteral(a), Token::FloatLiteral(b)) => same_text(a.as_str(), b.as_str()),
            (Token::CharLiteral(a), Token::CharLiteral(b)) => same_text(a.as_str(), b.as_str()),
            (Token::StringLiteral(a), Token::StringLiteral(b)) => same_text(a.as_str(), b.as_str()),
            (Token::IntLiteral(a), Token::IntLiteral(b)) => *a == *b,
            (Token::BinLiteral(a), Token::BinLiteral(b)) => *a == *b,
            (Token::HexLiteral(a), Token::HexLiteral(b)) => *a == *b,
            (Token::BoolLiteral(a), Token::BoolLiteral(b)) => *a == *b,
            _ => false,
        }
    } else {
        false
    }
}

/// Whether the token at `i` is the keyword `k`.
fn keyword_is(tokens: &Vec<TokenWithDebugInfo<Token>>, i: usize, k: &str) -> (res: bool)
    ensures
        res == (0 <= i < tokens@.len() && tok(tokens@, i as int) == SpecToken::Keyword(k@)),
{
    if i < tokens.len() {
        match &tokens[i].internal_tok {
            Token::Keyword(a) => same_text(a.as_str(), k),
            _ => false,
        }
    } else {
        false
    }
}

/// Whether `x` is one of `v`.
fn contains_binop(v: &Vec<BinOp>, x: BinOp) -> (res: bool)
    ensures
        res == v@.contains(x),
{
    let mut i: usize = 0;
    while i < v.len()
        invariant
            i <= v@.len(),
            forall|j: int| 0 <= j < i ==> v@[j] != x,
        decreases v@.len() - i,
    {
        if v[i] == x {
            return true;
        }
        i = i + 1;
    }
    false
}

/// Whether `x` is one of `v`.
fn contains_unop(v: &Vec<UnOp>, x: UnOp) -> (res: bool)
    ensures
        res == v@.contains(x),
{
    let mut i: usize = 0;
    while i < v.len()
        invariant
            i <= v@.len(),
            forall|j: int| 0 <= j < i ==> v@[j] != x,
        decreases v@.len() - i,
    {
        if v[i] == x {
            return true;
        }
        i = i + 1;
    }
    false
}

/// Whether `x` is one of `v`.
fn contains_assignop(v: &Vec<AssignmentOp>, x: AssignmentOp) -> (res: bool)
    ensures
        res == v@.contains(x),
{
    let mut i: usize = 0;
    while i < v.len()
        invariant
            i <= v@.len(),
            forall|j: int| 0 <= j < i ==> v@[j] != x,
        decreases v@.len() - i,
    {
        if v[i] == x {
            return true;
        }
        i = i + 1;
    }
    false
}

/// Whether an atom parsed from `pos` has the shape that the token at `pos`
/// announces: `[` an array literal, `(` a parenthesized expression, a
/// literal token that literal, a string literal an array of characters, and
/// an identifier a variable, a function call or a struct instance of that
/// name.
pub open spec fn atom_head(tokens: Seq<TokenWithDebugInfo<Token>>, pos: int, a: Atom) -> bool {
    match tok(tokens, pos) {
        SpecToken::LBracket => a is Array,
        SpecToken::LParen => a is Expression,
        SpecToken::StringLiteral(_) => a is Array,
        SpecToken::Identifier(id) => match a {
            Atom::Variable(v) => v.internal_tok@ == id,
            Atom::FunctionCall(n, _, _) => n.internal_tok@ == id,
            Atom::StructInstance(n, _, _) => n.internal_tok@ == id,
            _ => false,
        },
        _ => is_literal_token(tokens[pos].internal_tok) && (a matches Atom::Literal(l)
            && literal_of_token(tokens[pos].internal_tok, l.expr.internal_tok, l.type_)),
    }
}

/// Where the token after the name at `pos` and its type arguments, if it
/// has any (`name:<T1, ..., Tn>`), stands.
pub open spec fn after_name(ts: Seq<TokenWithDebugInfo<Token>>, pos: int) -> Option<int> {
    if pos + 1 < ts.len() && tok(ts, pos + 1) == SpecToken::BeginGeneric {
        type_args_end(ts, pos + 2)
    } else {
        Some(pos + 1)
    }
}

/// Whether `gs` are the type arguments written after the name at `pos`
/// (none where the name has none).
pub open spec fn bindings_written(ts: Seq<TokenWithDebugInfo<Token>>, pos: int, gs: Seq<TokenWithDebugInfo<Type>>) -> bool {
    if pos + 1 < ts.len() && tok(ts, pos + 1) == SpecToken::BeginGeneric {
        &&& gs.len() == type_arg_count(ts, pos + 2)
        &&& forall|i: int|
            0 <= i < gs.len() ==> type_written(ts, type_arg_start(ts, pos + 2, i as nat), (#[trigger] gs[i]).internal_tok)
    } else {
        gs.len() == 0
    }
}

/// The type of the literal that the token `t` writes.
fn literal_type(t: &Token) -> (res: Type)
    requires
        is_literal_token(*t),
    ensures
        forall|lit: Literal, ty: Type| literal_of_token(*t, lit, ty) ==> ty == res,
{
    match t {
        Token::IntLiteral(_) | Token::HexLiteral(_) | Token::BinLiteral(_) => Type::Int,
        Token::FloatLiteral(_) => Type::Float,
        Token::BoolLiteral(_) => Type::Bool,
        _ => Type::Char,
    }
}

/// The `i`-th piece of eight characters of the text `s` (the last piece
/// may be shorter).
pub open spec fn chunk_text(s: Seq<char>, i: int) -> Seq<char> {
    s.subrange(
        8 * i,
        if 8 * i + 8 <= s.len() {
            8 * i + 8
        } else {
            s.len() as int
        },
    )
}

/// Whether the array element `e` is the character literal `text`.
pub open spec fn is_char_piece(e: Typed<TokenWithDebugInfo<Expression>>, text: Seq<char>) -> bool {
    e.expr.internal_tok matches Expression::Atom(a) && a.expr.internal_tok matches Atom::Literal(l)
        && l.expr.internal_tok matches Literal::Char(c) && c@ == text
}

/// The characters of a string literal in pieces of eight, each a character
/// literal located at `line` of `file`.
fn string_chunks(s: &String, line: usize, file: &String) -> (res: Vec<Typed<TokenWithDebugInfo<Expression>>>)
    ensures
        res@.len() == (s@.len() + 7) / 8,
        forall|i: int| 0 <= i < res@.len() ==> is_char_piece(#[trigger] res@[i], chunk_text(s@, i)),
{
    let chars = chars_of(s.as_str());
    let mut out: Vec<Typed<TokenWithDebugInfo<Expression>>> = Vec::new();
    let mut start: usize = 0;
    while start < chars.len()
        invariant
            start <= chars@.len(),
            chars@ == s@,
            start == if 8 * out@.len() <= s@.len() {
                8 * out@.len() as int
            } else {
                s@.len() as int
            },
            out@.len() == 0 || 8 * (out@.len() - 1) < s@.len(),
            forall|i: int| 0 <= i < out@.len() ==> is_char_piece(#[trigger] out@[i], chunk_text(s@, i)),
        decreases chars@.len() - start,
    {
        let take = if chars.len() - start < 8 { chars.len() - start } else { 8 };
        let piece = substring(s.as_str(), start, take);
        assert(piece@ == chunk_text(s@, out@.len() as int));
        out.push(
            Typed::new(
                TokenWithDebugInfo {
                    internal_tok: Expression::Atom(
                        Typed::new(
                            TokenWithDebugInfo {
                                internal_tok: Atom::Literal(
                                    Typed::new(
                                        TokenWithDebugInfo {
                                            internal_tok: Literal::Char(piece),
                                            line,
                                            file: file.clone(),
                                        },
                                    ),
                                ),
                                line,
                                file: file.clone(),
                            },
                        ),
                    ),
                    line,
                    file: file.clone(),
                },
            ),
        );
        start = start + take;
    }
    assert(out@.len() == (s@.len() + 7) / 8) by (nonlinear_arith)
        requires
            8 * out@.len() >= s@.len(),
            out@.len() == 0 || 8 * (out@.len() - 1) < s@.len(),
    ;
    out
}

/// Parses the type arguments of a generic binding, `T1, T2, ...>`, that
/// begin at `pos` (after the `:<`); returns them and the position after the
/// closing `>`.
fn parse_generic_bindings(tokens: &Vec<TokenWithDebugInfo<Token>>, pos: usize) -> (res: Result<
    (Vec<TokenWithDebugInfo<Type>>, usize),
    CompileError,
>)
    ensures
        res is Ok <==> type_args_end(tokens@, pos as int) is Some,
        res matches Ok((g, q)) ==> {
            &&& pos < q <= tokens@.len()
            &&& g@.len() >= 1
            &&& type_args_end(tokens@, pos as int) == Some(q as int)
            &&& g@.len() == type_arg_count(tokens@, pos as int)
            &&& forall|i: int|
                0 <= i < g@.len() ==> type_written(
                    tokens@,
                    type_arg_start(tokens@, pos as int, i as nat),
                    (#[trigger] g@[i]).internal_tok,
                )
        },
{
    let mut generics: Vec<TokenWithDebugInfo<Type>> = Vec::new();
    let mut p: usize = pos;
    loop
        invariant
            pos <= p,
            p > pos ==> p <= tokens@.len() && generics@.len() >= 1,
            p as int == type_arg_start(tokens@, pos as int, generics@.len()),
            type_args_end(tokens@, pos as int) == type_args_end(tokens@, p as int),
            type_arg_count(tokens@, pos as int) == generics@.len() + type_arg_count(tokens@, p as int),
            forall|i: int|
                0 <= i < generics@.len() ==> type_written(
                    tokens@,
                    type_arg_start(tokens@, pos as int, i as nat),
                    (#[trigger] generics@[i]).internal_tok,
                ),
        decreases tokens@.len() - p,
    {
        let (g, q) = parse_type(tokens, p)?;
        let ghost k = generics@.len();
        generics.push(g);
        assert(type_arg_start(tokens@, pos as int, (k + 1) as nat) == q + 1);
        let next_tok = token_at(tokens, q)?;
        p = q + 1;
        if matches!(next_tok.internal_tok, Token::Operator(Operator::GreaterThan)) {
            return Ok((generics, p));
        } else if !matches!(next_tok.internal_tok, Token::Comma) {
            return Err(error_unexpected_token("comma or '>'", next_tok));
        }
    }
}

/// Parses the items of a list that begins at `pos` and ends with the token
/// `closer`: expressions, with commas between them skipped. Returns them and
/// the position after `closer`.
fn parse_expression_list(tokens: &Vec<TokenWithDebugInfo<Token>>, pos: usize, closer: &Token) -> (res:
    Result<(Vec<Typed<TokenWithDebugInfo<Expression>>>, usize), CompileError>)
    ensures
        res matches Ok((v, q)) ==> pos < q <= tokens@.len() && tok(tokens@, q - 1) == closer@,
        pos < tokens@.len() && tok(tokens@, pos as int) == closer@ ==> (res matches Ok((v, q)) && v@.len() == 0 && q
            == pos + 1),
        lone_operand_at(tokens@, pos as int) && tok(tokens@, pos + 1) == closer@ ==> (res matches Ok((v, q)) && v@.len()
            == 1 && q == pos + 2 && is_operand_expression(v@[0].expr.internal_tok)),
    decreases tokens@.len() - pos, 17nat,
{
    let ghost empty = pos < tokens@.len() && tok(tokens@, pos as int) == closer@;
    let ghost single = lone_operand_at(tokens@, pos as int) && tok(tokens@, pos + 1) == closer@;
    let mut items: Vec<Typed<TokenWithDebugInfo<Expression>>> = Vec::new();
    let mut p: usize = pos;
    loop
        invariant
            pos <= p,
            p > pos ==> p <= tokens@.len(),
            empty == (pos < tokens@.len() && tok(tokens@, pos as int) == closer@),
            single == (lone_operand_at(tokens@, pos as int) && tok(tokens@, pos + 1) == closer@),
            empty ==> p == pos && items@.len() == 0,
            single ==> (p == pos && items@.len() == 0) || (p == pos + 1 && items@.len() == 1
                && is_operand_expression(items@[0].expr.internal_tok)),
        decreases tokens@.len() - p,
    {
        token_at(tokens, p)?;
        if token_is(tokens, p, closer) {
            return Ok((items, p + 1));
        } else if token_is(tokens, p, &Token::Comma) {
            p = p + 1;
        } else {
            let (e, q) = parse_expression(tokens, p)?;
            items.push(Typed::new(e));
            p = q;
        }
    }
}

/// Parses an atom that begins at `pos`; returns it and the position after it.
pub fn parse_atom(tokens: &Vec<TokenWithDebugInfo<Token>>, pos: usize) -> (res: Result<
    (Typed<TokenWithDebugInfo<Atom>>, usize),
    CompileError,
>)
    ensures
        res matches Ok((a, q)) ==> pos < q <= tokens@.len() && atom_head(
            tokens@,
            pos as int,
            a.expr.internal_tok,
        ),
        pos + 1 < tokens@.len() && tok(tokens@, pos as int) is Identifier && tok(tokens@, pos + 1)
            != SpecToken::BeginGeneric && tok(tokens@, pos + 1) != SpecToken::LParen && tok(tokens@, pos + 1)
            != SpecToken::LBrace ==> (res matches Ok((a, q)) && q == pos + 1 && a.expr.internal_tok is Variable),
        pos < tokens@.len() && is_literal_token(tokens@[pos as int].internal_tok) ==> (res matches Ok((a, q)) && q == pos
            + 1 && a.expr.internal_tok is Literal),
        pos < tokens@.len() && tok(tokens@, pos as int) == SpecToken::Semicolon ==> (res matches Err(e) && expected_at(
            tokens@,
            pos as int,
            "valid atom token"@,
            e,
        )),
        res matches Ok((a, q)) ==> (tok(tokens@, pos as int) is Identifier ==> (after_name(tokens@, pos as int) matches Some(c)
            && c < tokens@.len() && {
            &&& tok(tokens@, c) == SpecToken::LParen ==> (a.expr.internal_tok matches Atom::FunctionCall(_, _, gs)
                && bindings_written(tokens@, pos as int, gs@))
            &&& tok(tokens@, c) == SpecToken::LBrace ==> (a.expr.internal_tok matches Atom::StructInstance(_, _, gs)
                && bindings_written(tokens@, pos as int, gs@))
            &&& tok(tokens@, c) != SpecToken::LParen && tok(tokens@, c) != SpecToken::LBrace ==> c == pos + 1
                && q == pos + 1 && a.expr.internal_tok is Variable
        })),
        pos < tokens@.len() ==> (tok(tokens@, pos as int) matches SpecToken::StringLiteral(text) ==> {
            &&& res matches Ok((a, q))
            &&& q == pos + 1
            &&& a.expr.internal_tok matches Atom::Array(pieces, dim)
            &&& dim == (vstd::utf8::encode_utf8(text).len() as usize + 3) / 8
            &&& pieces@.len() == (text.len() + 7) / 8
            &&& forall|i: int| 0 <= i < pieces@.len() ==> is_char_piece(#[trigger] pieces@[i], chunk_text(text, i))
        }),
    decreases tokens@.len() - pos, 0nat,
{
    let tok = token_at(tokens, pos)?;
    match &tok.internal_tok {
        Token::LBracket => {
            let (arr, q) = parse_array(tokens, pos + 1)?;
            Ok((Typed::new(arr), q))
        },
        Token::LParen => {
            let (inner, q) = parse_expression(tokens, pos + 1)?;
            token_at(tokens, q)?;
            if token_is(tokens, q, &Token::RParen) {
                Ok(
                    (
                        Typed::new(
                            TokenWithDebugInfo {
                                internal_tok: Atom::Expression(Box::new(Typed::new(inner))),
                                line: tok.line,
                                file: tok.file.clone(),
                            },
                        ),
                        q + 1,
                    ),
                )
            } else {
                Err(error_unexpected_token("closing parenthesis", tok))
            }
        },
        Token::IntLiteral(_) | Token::FloatLiteral(_) | Token::BinLiteral(_) | Token::HexLiteral(_)
        | Token::BoolLiteral(_) | Token::CharLiteral(_) => {
            let lit = parse_literal(tok)?;
            let t = literal_type(&tok.internal_tok);
            Ok(
                (
                    Typed::new_with_type(
                        TokenWithDebugInfo {
                            internal_tok: Atom::Literal(lit),
                            line: tok.line,
                            file: tok.file.clone(),
                        },
                        t,
                    ),
                    pos + 1,
                ),
            )
        },
        Token::StringLiteral(s) => {
            // The array's size is taken from the length of the text as
            // the language defines it, not from the number of pieces.
            let n = s.as_str().len();
            let chunks = string_chunks(s, tok.line, &tok.file);
            // (n + 3) / 8, without the addition.
            let extra: i64 = if n % 8 >= 5 { 1 } else { 0 };
            let dim: i64 = (n / 8) as i64 + extra;
            assert(n == vstd::utf8::encode_utf8(s@).len() as usize);
            assert(dim == (n + 3) / 8) by (nonlinear_arith)
                requires
                    extra == (if n % 8 >= 5 { 1int } else { 0int }),
                    dim == n / 8 + extra,
            ;
            Ok(
                (
                    Typed::new(
                        TokenWithDebugInfo {
                            internal_tok: Atom::Array(chunks, dim),
                            line: tok.line,
                            file: tok.file.clone(),
                        },
                    ),
                    pos + 1,
                ),
            )
        },
        Token::Identifier(s) => {
            let mut p: usize = pos + 1;
            token_at(tokens, p)?;
            let mut generics: Vec<TokenWithDebugInfo<Type>> = Vec::new();
            // `id:<T1, T2, ...>(args)`: the colon keeps the binding apart
            // from the `<` and `>` operators.
            if token_is(tokens, p, &Token::BeginGeneric) {
                let (g, q) = parse_generic_bindings(tokens, p + 1)?;
                generics = g;
                p = q;
                let next_tok = token_at(tokens, p)?;
                if !token_is(tokens, p, &Token::LParen) && !token_is(tokens, p, &Token::LBrace) {
                    return Err(
                        error_unexpected_token(
                            "function call '(' ( fn_id:<T1, T2, ..>(args) )",
                            next_tok,
                        ),
                    );
                }
            }
            let next_tok = token_at(tokens, p)?;
            let name = TokenWithDebugInfo { internal_tok: s.clone(), line: tok.line, file: tok.file.clone() };
            if token_is(tokens, p, &Token::LParen) {
                let (args, q) = parse_expression_list(tokens, p + 1, &Token::RParen)?;
                Ok(
                    (
                        Typed::new(
                            TokenWithDebugInfo {
                                internal_tok: Atom::FunctionCall(name, args, generics),
                                line: next_tok.line,
                                file: next_tok.file.clone(),
                            },
                        ),
                        q,
                    ),
                )
            } else if token_is(tokens, p, &Token::LBrace) {
                let (fields, q) = parse_expression_list(tokens, p + 1, &Token::RBrace)?;
                Ok(
                    (
                        Typed::new(
                            TokenWithDebugInfo {
                                internal_tok: Atom::StructInstance(name, fields, generics),
                                line: next_tok.line,
                                file: next_tok.file.clone(),
                            },
                        ),
                        q,
                    ),
                )
            } else {
                Ok(
                    (
                        Typed::new(
                            TokenWithDebugInfo {
                                internal_tok: Atom::Variable(name),
                                line: tok.line,
                                file: tok.file.clone(),
                            },
                        ),
                        pos + 1,
                    ),
                )
            }
        },
        _ => Err(error_unexpected_token("valid atom token", tok)),
    }
}

/// Whether every size in `dims` can be the length of a list.
fn dims_in_range(dims: &Vec<i64>) -> (res: bool)
    ensures
        res == forall|k: int| 0 <= k < dims@.len() ==> 0 <= #[trigger] dims@[k] <= usize::MAX,
{
    let mut k: usize = 0;
    while k < dims.len()
        invariant
            k <= dims@.len(),
            forall|j: int| 0 <= j < k ==> 0 <= #[trigger] dims@[j] <= usize::MAX,
        decreases dims@.len() - k,
    {
        if dims[k] < 0 || dims[k] as i128 > usize::MAX as i128 {
            return false;
        }
        k = k + 1;
    }
    true
}

/// Whether `a` is an array literal whose first dimension is `n`.
pub open spec fn array_of_size(a: Atom, n: i64) -> bool {
    a matches Atom::Array(_, d) && d == n
}

/// Parses an array literal whose elements begin at `pos` (after the `[`);
/// returns it, made rectangular and flattened, and the position after the
/// closing `]`.
pub fn parse_array(tokens: &Vec<TokenWithDebugInfo<Token>>, pos: usize) -> (res: Result<
    (TokenWithDebugInfo<Atom>, usize),
    CompileError,
>)
    ensures
        res matches Ok((a, q)) ==> pos < q <= tokens@.len() && a.internal_tok is Array,
        pos < tokens@.len() && tok(tokens@, pos as int) == SpecToken::RBracket ==> (res matches Ok((a, q)) && q == pos
            + 1 && array_of_size(a.internal_tok, 0)),
        lone_operand_at(tokens@, pos as int) && tok(tokens@, pos + 1) == SpecToken::RBracket ==> (res matches Ok((a, q))
            && q == pos + 2 && array_of_size(a.internal_tok, 1)),
    decreases tokens@.len() - pos, 18nat,
{
    let first = token_at(tokens, pos)?;
    let (line, file) = (first.line, first.file.clone());
    let (mut elements, q) = parse_expression_list(tokens, pos, &Token::RBracket)?;
    let n = elements.len() as i64;
    let array = Atom::Array(clone_typed_expressions(&elements), n);
    proof {
        let copied = array->Array_0;
        if elements@.len() == 1 && !is_array_literal(elements@[0].expr.internal_tok) {
            assert(!is_array_literal(copied@[0].expr.internal_tok));
            assert(nested_dims(copied, 0) =~= Seq::<i64>::empty());
        }
    }
    let max_dims = match find_arr_dims(&array) {
        Some(d) => d,
        None => return Err(end_of_tokens()),
    };
    if !dims_in_range(&max_dims) {
        return Err(error("Array literal too large", first));
    }
    rectangularize_array(&mut elements, 0, &max_dims);
    let flat_elements = flatten(&elements);
    Ok((TokenWithDebugInfo { internal_tok: Atom::Array(flat_elements, max_dims[0]), line, file }, q))
}

/// The precedence level of a binary operator (see the module's table);
/// `15`, above every level, for `NotABinaryOp`.
pub open spec fn op_level(op: BinOp) -> int {
    match op {
        BinOp::MemberAccess | BinOp::NamespaceAccess => 1,
        BinOp::Multiply | BinOp::Divide | BinOp::Modulus => 3,
        BinOp::Add | BinOp::Subtract => 4,
        BinOp::LeftShift | BinOp::RightShift => 5,
        BinOp::LessThan | BinOp::GreaterThan | BinOp::LessOrEqualThan | BinOp::GreaterOrEqualThan => 6,
        BinOp::Equal | BinOp::NotEqual => 7,
        BinOp::BitwiseAnd => 8,
        BinOp::BitwiseXor => 9,
        BinOp::BitwiseOr => 10,
        BinOp::LogicalAnd => 11,
        BinOp::LogicalXor => 12,
        BinOp::LogicalOr => 13,
        BinOp::NotABinaryOp => 15,
    }
}

/// Whether the expression `e` is grouped as the precedence table says, for
/// an expression that may hold operators up to level `level` at its top: a
/// binary operation of level `l` has a left operand of level at most `l`
/// and a right one of level below `l` (operators of one level group from
/// the left), a prefix operation an operand of level at most 2, and an
/// assignment a value of level below 14. Parentheses start anew.
pub open spec fn binds_within(e: Expression, level: int) -> bool
    decreases e,
{
    match e {
        Expression::Atom(_) => true,
        Expression::UnaryOp(x, _) => 2 <= level && binds_within(x.expr.internal_tok, 2),
        Expression::BinaryOp(a, b, op) => op_level(op) <= level && binds_within(
            a.expr.internal_tok,
            op_level(op),
        ) && binds_within(b.expr.internal_tok, op_level(op) - 1),
        Expression::Assignment(_, v, _) => 14 <= level && binds_within(v.expr.internal_tok, 13),
        Expression::TypeCast(x, _) => 13 <= level && binds_within(x.expr.internal_tok, 13),
        Expression::ArrayAccess(x, _) => binds_within(x.expr.internal_tok, level),
    }
}

/// An expression grouped for a level is grouped for every level above it.
pub proof fn lemma_binds_within_monotone(e: Expression, l1: int, l2: int)
    requires
        binds_within(e, l1),
        l1 <= l2,
    ensures
        binds_within(e, l2),
    decreases e,
{
    match e {
        Expression::ArrayAccess(x, _) => lemma_binds_within_monotone(x.expr.internal_tok, l1, l2),
        _ => {},
    }
}

/// A binary operator of level `level` of the table has that level.
proof fn lemma_binop_level(op: BinOp, level: int)
    requires
        0 <= level < 15,
        precedence_level(level).0.contains(op),
    ensures
        op_level(op) == level,
{
    let ops = precedence_level(level).0;
    let i = choose|i: int| 0 <= i < ops.len() && ops[i] == op;
    assert(0 <= i < ops.len() && ops[i] == op);
}

/// Where an assignment operator begins, no binary operator does.
proof fn lemma_assignment_is_no_binary_operator(tokens: Seq<TokenWithDebugInfo<Token>>, p: int)
    ensures
        assignment_operator_at(tokens, p) matches Some(a) && a != AssignmentOp::NotAnAssignmentOp
            ==> binary_operator_at(tokens, p) == Some(BinOp::NotABinaryOp),
{
}

/// Assignment operators are all of level 14, and prefix operators of level 2.
proof fn lemma_other_op_levels(level: int)
    requires
        0 <= level < 15,
    ensures
        precedence_level(level).2.len() > 0 ==> level == 14,
        precedence_level(level).1.len() > 0 ==> level == 2,
{
}

/// Whether the token `t` ends an expression that stands before it: a `;`, a
/// `,` or a closing bracket.
pub open spec fn closes_expression(t: SpecToken) -> bool {
    t == SpecToken::Semicolon || t == SpecToken::Comma || t == SpecToken::RParen || t == SpecToken::RBracket
        || t == SpecToken::RBrace
}

/// Whether the tokens at `pos` are a name or a literal that an expression
/// ends after.
pub open spec fn lone_operand_at(tokens: Seq<TokenWithDebugInfo<Token>>, pos: int) -> bool {
    &&& 0 <= pos
    &&& pos + 1 < tokens.len()
    &&& tok(tokens, pos) is Identifier || is_literal_token(tokens[pos].internal_tok)
    &&& closes_expression(tok(tokens, pos + 1))
}

/// Whether `e` is a variable or a literal atom.
pub open spec fn is_operand_expression(e: Expression) -> bool {
    e matches Expression::Atom(a) && (a.expr.internal_tok is Variable || a.expr.internal_tok is Literal)
}

/// No level of the table holds the operators that stand for no operator.
proof fn lemma_no_placeholder_operators(level: int)
    requires
        0 <= level < 15,
    ensures
        !precedence_level(level).0.contains(BinOp::NotABinaryOp),
        !precedence_level(level).1.contains(UnOp::NotAUnaryOp),
        !precedence_level(level).2.contains(AssignmentOp::NotAnAssignmentOp),
{
    let (b, u, a) = precedence_level(level);
    assert forall|i: int| 0 <= i < b.len() implies b[i] != BinOp::NotABinaryOp by {}
    assert forall|i: int| 0 <= i < u.len() implies u[i] != UnOp::NotAUnaryOp by {}
    assert forall|i: int| 0 <= i < a.len() implies a[i] != AssignmentOp::NotAnAssignmentOp by {}
}

/// Whether the operators of `e`, read from the tokens from `lo` up to `hi`,
/// are the ones written there: each binary operation carries the operator
/// that a token between `lo` and `hi` writes, with its left operand read
/// before that token and its right operand after it; each prefix operation
/// and each assignment the operator written by a token before its operand
/// or value; and so on below array accesses and casts.
pub open spec fn operators_read(ts: Seq<TokenWithDebugInfo<Token>>, lo: int, hi: int, e: Expression) -> bool
    decreases e,
{
    match e {
        Expression::BinaryOp(a, b, op) => exists|k: int|
            lo <= k < hi && #[trigger] binary_operator_at(ts, k) == Some(op) && operators_read(
                ts,
                lo,
                k,
                a.expr.internal_tok,
            ) && operators_read(ts, k + 1, hi, b.expr.internal_tok),
        Expression::UnaryOp(x, op) => exists|k: int|
            lo <= k < hi && #[trigger] unary_operator_of(tok(ts, k)) == Some(op) && operators_read(
                ts,
                k + 1,
                hi,
                x.expr.internal_tok,
            ),
        Expression::ArrayAccess(x, _) => operators_read(ts, lo, hi, x.expr.internal_tok),
        Expression::TypeCast(x, _) => operators_read(ts, lo, hi, x.expr.internal_tok),
        Expression::Assignment(_, v, op) => exists|k: int|
            lo <= k < hi && #[trigger] assignment_operator_at(ts, k) == Some(op) && operators_read(
                ts,
                k + 1,
                hi,
                v.expr.internal_tok,
            ),
        Expression::Atom(_) => true,
    }
}

/// Operators read from a stretch of tokens are read from any stretch that
/// holds it.
proof fn lemma_operators_read_widen(
    ts: Seq<TokenWithDebugInfo<Token>>,
    lo: int,
    hi: int,
    lo2: int,
    hi2: int,
    e: Expression,
)
    requires
        operators_read(ts, lo, hi, e),
        lo2 <= lo,
        hi <= hi2,
    ensures
        operators_read(ts, lo2, hi2, e),
    decreases e,
{
    match e {
        Expression::BinaryOp(a, b, op) => {
            let k = choose|k: int|
                lo <= k < hi && #[trigger] binary_operator_at(ts, k) == Some(op) && operators_read(
                    ts,
                    lo,
                    k,
                    a.expr.internal_tok,
                ) && operators_read(ts, k + 1, hi, b.expr.internal_tok);
            lemma_operators_read_widen(ts, lo, k, lo2, k, a.expr.internal_tok);
            lemma_operators_read_widen(ts, k + 1, hi, k + 1, hi2, b.expr.internal_tok);
        },
        Expression::UnaryOp(x, op) => {
            let k = choose|k: int|
                lo <= k < hi && #[trigger] unary_operator_of(tok(ts, k)) == Some(op) && operators_read(
                    ts,
                    k + 1,
                    hi,
                    x.expr.internal_tok,
                );
            lemma_operators_read_widen(ts, k + 1, hi, k + 1, hi2, x.expr.internal_tok);
        },
        Expression::ArrayAccess(x, _) => lemma_operators_read_widen(ts, lo, hi, lo2, hi2, x.expr.internal_tok),
        Expression::TypeCast(x, _) => lemma_operators_read_widen(ts, lo, hi, lo2, hi2, x.expr.internal_tok),
        Expression::Assignment(_, v, op) => {
            let k = choose|k: int|
                lo <= k < hi && #[trigger] assignment_operator_at(ts, k) == Some(op) && operators_read(
                    ts,
                    k + 1,
                    hi,
                    v.expr.internal_tok,
                );
            lemma_operators_read_widen(ts, k + 1, hi, k + 1, hi2, v.expr.internal_tok);
        },
        Expression::Atom(_) => {},
    }
}

/// Parses an expression that begins at `pos`, with the operators of
/// precedence level `level` and those that bind tighter; returns it and the
/// position after it.
pub fn parse_expression_with_precedence(
    tokens: &Vec<TokenWithDebugInfo<Token>>,
    pos: usize,
    level: usize,
    table: &Vec<PrecedenceLevel>,
) -> (res: Result<(TokenWithDebugInfo<Expression>, usize), CompileError>)
    requires
        is_precedence_table(table@),
        level < 15,
    ensures
        res matches Ok((e, q)) ==> pos < q <= tokens@.len() && binds_within(e.internal_tok, level as int),
        res matches Ok((e, q)) ==> operators_read(tokens@, pos as int, q as int, e.internal_tok),
        level == 0 ==> (res matches Ok((e, q)) ==> e.internal_tok is Atom),
        lone_operand_at(tokens@, pos as int) ==> (res matches Ok((e, q)) && q == pos + 1 && is_operand_expression(
            e.internal_tok,
        )),
        res is Ok ==> pos < tokens@.len() && tok(tokens@, pos as int) != SpecToken::Semicolon,
        pos < tokens@.len() && tok(tokens@, pos as int) == SpecToken::Semicolon ==> (res matches Err(e) && expected_at(
            tokens@,
            pos as int,
            "valid atom token"@,
            e,
        )),
    decreases tokens@.len() - pos, level + 1,
{
    let ghost lone = lone_operand_at(tokens@, pos as int);
    if level == 0 {
        let (atom, q) = parse_atom(tokens, pos)?;
        let (line, file) = (atom.expr.line, atom.expr.file.clone());
        return Ok((TokenWithDebugInfo { internal_tok: Expression::Atom(atom), line, file }, q));
    }
    let lv = &table[level];
    let next = token_at(tokens, pos)?;
    let un = get_un_operator_from_token(next)?;
    let mut expr;
    let mut p: usize;
    proof {
        lemma_no_placeholder_operators(level as int);
    }
    if contains_unop(&lv.unary_ops, un.internal_tok) {
        let (operand, q) = parse_expression_with_precedence(tokens, pos + 1, level, table)?;
        expr = TokenWithDebugInfo {
            internal_tok: Expression::UnaryOp(Box::new(Typed::new(operand)), un.internal_tok),
            line: next.line,
            file: next.file.clone(),
        };
        p = q;
        proof {
            assert(unary_operator_of(tok(tokens@, pos as int)) == Some(un.internal_tok));
            lemma_other_op_levels(level as int);
            assert(lv.unary_ops@.contains(un.internal_tok));
            assert(level == 2);
            assert(binds_within(expr.internal_tok, level as int));
        }
    } else {
        let (e, q) = parse_expression_with_precedence(tokens, pos, level - 1, table)?;
        proof {
            lemma_binds_within_monotone(e.internal_tok, level - 1, level as int);
        }
        expr = e;
        p = q;
    }
    let access = token_at(tokens, p)?;
    if token_is(tokens, p, &Token::LBracket) {
        let (args, q) = parse_expression_list(tokens, p + 1, &Token::RBracket)?;
        proof {
            lemma_operators_read_widen(tokens@, pos as int, p as int, pos as int, q as int, expr.internal_tok);
        }
        expr = TokenWithDebugInfo {
            internal_tok: Expression::ArrayAccess(Box::new(Typed::new(expr)), args),
            line: access.line,
            file: access.file.clone(),
        };
        p = q;
    }
    loop
        invariant
            is_precedence_table(table@),
            1 <= level < 15,
            pos < p <= tokens@.len(),
            lv == table@[level as int],
            binds_within(expr.internal_tok, level as int),
            tok(tokens@, pos as int) != SpecToken::Semicolon,
            lone == lone_operand_at(tokens@, pos as int),
            lone ==> p == pos + 1 && is_operand_expression(expr.internal_tok),
            operators_read(tokens@, pos as int, p as int, expr.internal_tok),
        decreases tokens@.len() - p,
    {
        proof {
            lemma_no_placeholder_operators(level as int);
        }
        let bin = get_bin_operator_from_tokens(tokens, p)?;
        let asg = get_assign_operator_from_tokens(tokens, p)?;
        let is_bin = contains_binop(&lv.binary_ops, bin.internal_tok);
        let is_asg = contains_assignop(&lv.assignment_ops, asg.internal_tok);
        if !(is_bin || is_asg) {
            break ;
        }
        proof {
            lemma_other_op_levels(level as int);
            if is_bin {
                lemma_binop_level(bin.internal_tok, level as int);
            }
            if is_asg {
                lemma_assignment_is_no_binary_operator(tokens@, p as int);
            }
        }
        let (line, file) = (bin.line, bin.file);
        if bin.internal_tok == BinOp::NotABinaryOp {
            // An assignment operator: `>>=` is three tokens, `<<=` two.
            let width: usize = match asg.internal_tok {
                AssignmentOp::RightShiftAssign => 3,
                AssignmentOp::LeftShiftAssign => 2,
                _ => 1,
            };
            if width > tokens.len() - p {
                return Err(end_of_tokens());
            }
            let (next_term, q) = parse_expression_with_precedence(tokens, p + width, level - 1, table)?;
            proof {
                lemma_operators_read_widen(tokens@, p + width, q as int, p + 1, q as int, next_term.internal_tok);
                assert(assignment_operator_at(tokens@, p as int) == Some(asg.internal_tok));
            }
            let target = parse_reassignment_identifier(expr)?;
            expr = TokenWithDebugInfo {
                internal_tok: Expression::Assignment(
                    Typed::new(target),
                    Box::new(Typed::new(next_term)),
                    asg.internal_tok,
                ),
                line,
                file,
            };
            p = q;
        } else {
            // `>=` and `>>` are two tokens.
            let width: usize = match bin.internal_tok {
                BinOp::GreaterOrEqualThan | BinOp::RightShift => 2,
                _ => 1,
            };
            if width > tokens.len() - p {
                return Err(end_of_tokens());
            }
            let (next_term, q) = parse_expression_with_precedence(tokens, p + width, level - 1, table)?;
            let ghost left = expr.internal_tok;
            proof {
                lemma_operators_read_widen(tokens@, p + width, q as int, p + 1, q as int, next_term.internal_tok);
                assert(binary_operator_at(tokens@, p as int) == Some(bin.internal_tok));
            }
            expr = TokenWithDebugInfo {
                internal_tok: Expression::BinaryOp(
                    Box::new(Typed::new(expr)),
                    Box::new(Typed::new(next_term)),
                    bin.internal_tok,
                ),
                line,
                file,
            };
            p = q;
        }
    }
    // A type cast binds looser than every binary operator and tighter than
    // the assignments: it applies to the whole operand of an assignment.
    if level == 13 && token_is(tokens, p, &Token::Colon) {
        let cast_tok = token_at(tokens, p)?;
        let (t, q) = parse_type(tokens, p + 1)?;
        proof {
            lemma_operators_read_widen(tokens@, pos as int, p as int, pos as int, q as int, expr.internal_tok);
        }
        expr = TokenWithDebugInfo {
            internal_tok: Expression::TypeCast(Box::new(Typed::new(expr)), t),
            line: cast_tok.line,
            file: cast_tok.file.clone(),
        };
        p = q;
    }
    Ok((expr, p))
}

/// Parses an expression that begins at `pos`, with every operator; returns
/// it and the position after it.
pub fn parse_expression(tokens: &Vec<TokenWithDebugInfo<Token>>, pos: usize) -> (res: Result<
    (TokenWithDebugInfo<Expression>, usize),
    CompileError,
>)
    ensures
        res matches Ok((e, q)) ==> pos < q <= tokens@.len() && binds_within(e.internal_tok, 14),
        res matches Ok((e, q)) ==> operators_read(tokens@, pos as int, q as int, e.internal_tok),
        lone_operand_at(tokens@, pos as int) ==> (res matches Ok((e, q)) && q == pos + 1 && is_operand_expression(
            e.internal_tok,
        )),
        res is Ok ==> pos < tokens@.len() && tok(tokens@, pos as int) != SpecToken::Semicolon,
        pos < tokens@.len() && tok(tokens@, pos as int) == SpecToken::Semicolon ==> (res matches Err(e) && expected_at(
            tokens@,
            pos as int,
            "valid atom token"@,
            e,
        )),
    decreases tokens@.len() - pos, 16nat,
{
    let table = build_precedence_table();
    let max_precedence = table.len() - 1;
    parse_expression_with_precedence(tokens, pos, max_precedence, &table)
}


// ---------------------------------------------------------------------------
// Statements.

/// Parses the left hand side of a `let` binding that begins at `pos`: a
/// name, `*` and an identifier, or a name and its array dimensions.
pub fn parse_assignment_identifier(tokens: &Vec<TokenWithDebugInfo<Token>>, pos: usize) -> (res:
    Result<(TokenWithDebugInfo<AssignmentIdentifier>, usize), CompileError>)
    ensures
        res matches Ok((a, q)) ==> pos < q <= tokens@.len() && match tok(tokens@, pos as int) {
            SpecToken::Operator(Operator::Multiply) => a.internal_tok is Dereference,
            SpecToken::Identifier(id) => match a.internal_tok {
                AssignmentIdentifier::Variable(v) => v.internal_tok@ == id && q == pos + 1,
                AssignmentIdentifier::Array(v, _) => v.internal_tok@ == id,
                _ => false,
            },
            _ => false,
        },
        pos + 1 < tokens@.len() && tok(tokens@, pos as int) is Identifier && tok(tokens@, pos + 1)
            != SpecToken::LBracket ==> (res matches Ok((a, q)) && a.internal_tok is Variable && q == pos + 1),
    decreases tokens@.len() - pos,
{
    let tok = token_at(tokens, pos)?;
    match &tok.internal_tok {
        Token::Operator(Operator::Multiply) => {
            let (inner, q) = parse_assignment_identifier(tokens, pos + 1)?;
            Ok(
                (
                    TokenWithDebugInfo {
                        internal_tok: AssignmentIdentifier::Dereference(Box::new(Typed::new(inner))),
                        line: tok.line,
                        file: tok.file.clone(),
                    },
                    q,
                ),
            )
        },
        Token::Identifier(s) => {
            let name = TokenWithDebugInfo { internal_tok: s.clone(), line: tok.line, file: tok.file.clone() };
            token_at(tokens, pos + 1)?;
            if token_is(tokens, pos + 1, &Token::LBracket) {
                let (args, q) = parse_expression_list(tokens, pos + 2, &Token::RBracket)?;
                Ok(
                    (
                        TokenWithDebugInfo {
                            internal_tok: AssignmentIdentifier::Array(name, args),
                            line: tok.line,
                            file: tok.file.clone(),
                        },
                        q,
                    ),
                )
            } else {
                Ok(
                    (
                        TokenWithDebugInfo {
                            internal_tok: AssignmentIdentifier::Variable(name),
                            line: tok.line,
                            file: tok.file.clone(),
                        },
                        pos + 1,
                    ),
                )
            }
        },
        _ => Err(error_unexpected_token("valid assignment identifier", tok)),
    }
}

/// Whether a statement parsed from `pos` is of the kind that the token at
/// `pos` announces: a keyword its statement, `{` a compound statement, and
/// anything else an expression statement.
pub open spec fn statement_head(tokens: Seq<TokenWithDebugInfo<Token>>, pos: int, s: Statement) -> bool {
    match tok(tokens, pos) {
        SpecToken::Keyword(k) => if k == "return"@ {
            s is Return
        } else if k == "let"@ {
            s is Let
        } else if k == "if"@ {
            s is If
        } else if k == "while"@ {
            s is While
        } else if k == "loop"@ {
            s is Loop
        } else if k == "for"@ {
            s is For
        } else if k == "do"@ {
            s is Dowhile
        } else if k == "break"@ {
            s is Break
        } else if k == "continue"@ {
            s is Continue
        } else if k == "asm"@ {
            s is Asm
        } else {
            false
        },
        SpecToken::LBrace => s is Compound,
        _ => s is Expression,
    }
}

/// Whether a statement of this kind ends with a semicolon: all but compound
/// statements, `if` statements and loops other than `do ... while`.
pub open spec fn needs_semicolon(s: Statement) -> bool {
    !(s is Compound || s is If || s is While || s is Loop || s is For)
}

/// Whether every body that the statement `s` holds (of an `if`, an `else`
/// or a loop) is a compound statement.
pub open spec fn bodies_compound(s: Statement) -> bool {
    match s {
        Statement::If(_, t, e) => t.expr.internal_tok is Compound && (e matches Some(b)
            ==> b.expr.internal_tok is Compound),
        Statement::While(_, b) => b.expr.internal_tok is Compound,
        Statement::Loop(b) => b.expr.internal_tok is Compound,
        Statement::Dowhile(_, b) => b.expr.internal_tok is Compound,
        Statement::For(_, _, _, b) => b.expr.internal_tok is Compound,
        _ => true,
    }
}

/// `s`, or a compound statement that holds `s` alone if it is not one
/// already.
pub fn wrap_in_compound(s: TokenWithDebugInfo<Statement>) -> (res: TokenWithDebugInfo<Statement>)
    ensures
        res.internal_tok is Compound,
        s.internal_tok is Compound ==> res == s,
        !(s.internal_tok is Compound) ==> wraps(res.internal_tok, s),
        res.line == s.line,
        res.file == s.file,
{
    if let Statement::Compound(_) = s.internal_tok {
        s
    } else {
        let (line, file) = (s.line, s.file.clone());
        TokenWithDebugInfo { internal_tok: Statement::Compound(vec![Typed::new(s)]), line, file }
    }
}

/// The token at `pos`, which must be `expected`; an error that names `what`
/// otherwise.
fn expect_token(tokens: &Vec<TokenWithDebugInfo<Token>>, pos: usize, expected: &Token, what: &str) -> (res:
    Result<(), CompileError>)
    ensures
        res is Ok <==> (pos < tokens@.len() && tok(tokens@, pos as int) == expected@),
        res matches Err(e) ==> pos < tokens@.len() ==> e.line == tokens@[pos as int].line
            && e.file == tokens@[pos as int].file,
{
    let t = token_at(tokens, pos)?;
    if token_is(tokens, pos, expected) {
        Ok(())
    } else {
        Err(error_unexpected_token(what, t))
    }
}

/// Whether, in the statements `v` of a block, each `for` loop is preceded by
/// a statement of the kind of its initialization, written where it is: the
/// initialization also stands in the block, ahead of the loop. This is
/// claimed where no loop's initialization is itself a `for` loop.
pub open spec fn inits_precede_loops(v: Seq<Typed<TokenWithDebugInfo<Statement>>>) -> bool {
    (forall|k: int|
        0 <= k < v.len() ==> ((#[trigger] v[k]).expr.internal_tok matches Statement::For(init, _, _, _) ==> !(
        init.expr.internal_tok is For))) ==> forall|k: int|
        0 <= k < v.len() ==> ((#[trigger] v[k]).expr.internal_tok matches Statement::For(init, _, _, _) ==> (k >= 1
            && same_kind(v[k - 1].expr.internal_tok, init.expr.internal_tok) && v[k - 1].expr.line
            == init.expr.line))
}

/// Whether the tokens from `pos` write `let name: T` for a plain name: what
/// follows is then `= value;` or `;`.
pub open spec fn let_of_name(ts: Seq<TokenWithDebugInfo<Token>>, pos: int) -> bool {
    &&& pos + 3 < ts.len()
    &&& tok(ts, pos) == SpecToken::Keyword("let"@)
    &&& tok(ts, pos + 1) is Identifier
    &&& tok(ts, pos + 2) != SpecToken::LBracket
}

/// Whether `c` is the block that holds `s` alone.
pub open spec fn wraps(c: Statement, s: TokenWithDebugInfo<Statement>) -> bool {
    c matches Statement::Compound(v) && v@.len() == 1 && v@[0].expr == s
}

/// Whether `b` is the body of a statement parsed from the token at `k`: it
/// stands at that token, and is the block that begins there, or the block
/// made of the statement that begins there.
pub open spec fn body_from(ts: Seq<TokenWithDebugInfo<Token>>, k: int, b: TokenWithDebugInfo<Statement>) -> bool {
    &&& 0 <= k < ts.len()
    &&& b.line == ts[k].line
    &&& b.file == ts[k].file
    &&& if tok(ts, k) == SpecToken::LBrace {
        b.internal_tok is Compound
    } else {
        b.internal_tok matches Statement::Compound(v) && v@.len() == 1 && statement_head(ts, k, v@[0].expr.internal_tok)
    }
}

/// Whether the bodies of the `if` statement `s`, parsed from `pos` up to
/// `q`, stand where they were read: the then-body after the condition, and
/// the else-body, if any, after it and right after an `else`.
pub open spec fn if_bodies_placed(ts: Seq<TokenWithDebugInfo<Token>>, pos: int, q: int, s: Statement) -> bool {
    s matches Statement::If(_, a, e) ==> exists|k: int|
        pos + 1 < k < q && #[trigger] body_from(ts, k, a.expr) && (e matches Some(b) ==> exists|m: int|
            k < m < q && tok(ts, m - 1) == SpecToken::Keyword("else"@) && #[trigger] body_from(ts, m, b.expr))
}

/// Whether the parts of the loop `s`, parsed from `pos` up to `q`, stand
/// where they were read: the body of `loop` and `do` right after the
/// keyword, the body of `while` after its condition, and the initialization
/// of `for` right after its `(` with the body after the header.
pub open spec fn loop_parts_placed(ts: Seq<TokenWithDebugInfo<Token>>, pos: int, q: int, s: Statement) -> bool {
    match s {
        Statement::While(_, b) => exists|k: int| pos + 1 < k < q && #[trigger] body_from(ts, k, b.expr),
        Statement::Loop(b) => body_from(ts, pos + 1, b.expr),
        Statement::Dowhile(_, b) => body_from(ts, pos + 1, b.expr),
        Statement::For(init, _, _, b) => {
            &&& pos + 2 < ts.len()
            &&& init.expr.line == ts[pos + 2].line
            &&& init.expr.file == ts[pos + 2].file
            &&& statement_head(ts, pos + 2, init.expr.internal_tok)
            &&& exists|k: int| pos + 2 < k < q && #[trigger] body_from(ts, k, b.expr)
        },
        _ => true,
    }
}

/// Whether the tokens at `pos` are an empty block, `{}`.
pub open spec fn empty_block_at(ts: Seq<TokenWithDebugInfo<Token>>, pos: int) -> bool {
    &&& 0 <= pos
    &&& pos + 1 < ts.len()
    &&& tok(ts, pos) == SpecToken::LBrace
    &&& tok(ts, pos + 1) == SpecToken::RBrace
}

/// Whether `s` is a block with no statement.
pub open spec fn is_empty_block(s: Statement) -> bool {
    s matches Statement::Compound(v) && v@.len() == 0
}

/// Parses a statement that begins at `pos`; returns it, located at its first
/// token, and the position after it.
pub fn parse_statement(tokens: &Vec<TokenWithDebugInfo<Token>>, pos: usize) -> (res: Result<
    (TokenWithDebugInfo<Statement>, usize),
    CompileError,
>)
    ensures
        res matches Ok((s, q)) ==> {
            &&& pos < q <= tokens@.len()
            &&& statement_head(tokens@, pos as int, s.internal_tok)
            &&& bodies_compound(s.internal_tok)
            &&& needs_semicolon(s.internal_tok) ==> tok(tokens@, q - 1) == SpecToken::Semicolon
            &&& s.internal_tok is Compound ==> tok(tokens@, q - 1) == SpecToken::RBrace
            &&& s.line == tokens@[pos as int].line
            &&& s.file == tokens@[pos as int].file
            &&& s.internal_tok matches Statement::Compound(v) ==> inits_precede_loops(v@)
            &&& if_bodies_placed(tokens@, pos as int, q as int, s.internal_tok)
            &&& loop_parts_placed(tokens@, pos as int, q as int, s.internal_tok)
        },
        pos < tokens@.len() && (tok(tokens@, pos as int) == SpecToken::Keyword("break"@) || tok(tokens@, pos as int)
            == SpecToken::Keyword("continue"@)) ==> {
            &&& res is Ok <==> (pos + 1 < tokens@.len() && tok(tokens@, pos + 1) == SpecToken::Semicolon)
            &&& res matches Ok((s, q)) ==> q == pos + 2 && (if tok(tokens@, pos as int) == SpecToken::Keyword(
                "break"@,
            ) {
                s.internal_tok is Break
            } else {
                s.internal_tok is Continue
            })
        },
        pos < tokens@.len() && tok(tokens@, pos as int) == SpecToken::Keyword("asm"@) ==> {
            &&& res is Ok <==> {
                &&& pos + 2 < tokens@.len()
                &&& tok(tokens@, pos + 1) is StringLiteral
                &&& if tok(tokens@, pos + 2) == SpecToken::Colon {
                    type_end(tokens@, pos + 3) matches Some(e) && e < tokens@.len() && tok(tokens@, e)
                        == SpecToken::Semicolon
                } else {
                    tok(tokens@, pos + 2) == SpecToken::Semicolon
                }
            }
            &&& res matches Ok((s, q)) ==> (s.internal_tok matches Statement::Asm(code, t) && tok(tokens@, pos + 1)
                == SpecToken::StringLiteral(code.internal_tok@) && if tok(tokens@, pos + 2) == SpecToken::Colon {
                type_written(tokens@, pos + 3, t.internal_tok) && type_end(tokens@, pos + 3) == Some(q - 1)
            } else {
                t.internal_tok is Void && q == pos + 3
            })
        },
        let_of_name(tokens@, pos as int) ==> {
            &&& res is Ok ==> tok(tokens@, pos + 2) == SpecToken::Colon && type_end(tokens@, pos + 3) is Some
            &&& res matches Ok((s, q)) ==> (s.internal_tok matches Statement::Let(id, init, t) && {
                &&& id.internal_tok matches AssignmentIdentifier::Variable(v) && tok(tokens@, pos + 1)
                    == SpecToken::Identifier(v.internal_tok@)
                &&& type_written(tokens@, pos + 3, t.internal_tok)
                &&& type_end(tokens@, pos + 3) matches Some(e) && e < tokens@.len() && (init is Some <==> tok(
                    tokens@,
                    e,
                ) == SpecToken::Operator(Operator::Assign)) && (init is None ==> q == e + 1)
            })
        },
        empty_block_at(tokens@, pos as int) ==> (res matches Ok((s, q)) && q == pos + 2 && is_empty_block(
            s.internal_tok,
        )),
        pos < tokens@.len() && tok(tokens@, pos as int) == SpecToken::Semicolon ==> (res matches Err(e) && expected_at(
            tokens@,
            pos as int,
            "valid atom token"@,
            e,
        )),
        pos + 2 < tokens@.len() && tok(tokens@, pos as int) == SpecToken::Keyword("for"@) && tok(tokens@, pos + 2)
            == SpecToken::Semicolon ==> res is Err,
        pos + 2 < tokens@.len() && tok(tokens@, pos as int) == SpecToken::Keyword("for"@) && tok(tokens@, pos + 1)
            == SpecToken::LParen && tok(tokens@, pos + 2) == SpecToken::Semicolon ==> (res matches Err(e) && expected_at(
            tokens@,
            pos + 2,
            "valid atom token"@,
            e,
        )),
    decreases tokens@.len() - pos,
{
    proof {
        reveal_strlit("return");
        reveal_strlit("let");
        reveal_strlit("if");
        reveal_strlit("while");
        reveal_strlit("loop");
        reveal_strlit("for");
        reveal_strlit("do");
        reveal_strlit("break");
        reveal_strlit("continue");
        reveal_strlit("asm");
        assert("return"@.len() == 6 && "return"@[0] == 'r');
        assert("let"@.len() == 3 && "let"@[0] == 'l');
        assert("if"@.len() == 2 && "if"@[0] == 'i');
        assert("while"@.len() == 5 && "while"@[0] == 'w');
        assert("loop"@.len() == 4 && "loop"@[0] == 'l');
        assert("for"@.len() == 3 && "for"@[0] == 'f');
        assert("do"@.len() == 2 && "do"@[0] == 'd');
        assert("break"@.len() == 5 && "break"@[0] == 'b');
        assert("continue"@.len() == 8 && "continue"@[0] == 'c');
        assert("asm"@.len() == 3 && "asm"@[0] == 'a');
    }
    let first = token_at(tokens, pos)?;
    let (line, file) = (first.line, first.file.clone());
    let statement: Statement;
    let mut p: usize;
    match &first.internal_tok {
        Token::Keyword(_) => {
            if keyword_is(tokens, pos, "return") {
                let (e, q) = parse_expression(tokens, pos + 1)?;
                statement = Statement::Return(Typed::new(e));
                p = q;
            } else if keyword_is(tokens, pos, "let") {
                let (id, q) = parse_assignment_identifier(tokens, pos + 1)?;
                expect_token(tokens, q, &Token::Colon, "colon")?;
                let (var_type, q) = parse_type(tokens, q + 1)?;
                let next_tok = token_at(tokens, q)?;
                if token_is(tokens, q, &Token::Operator(Operator::Assign)) {
                    let (e, q) = parse_expression(tokens, q + 1)?;
                    statement = Statement::Let(id, Some(Typed::new(e)), var_type);
                    p = q;
                } else if token_is(tokens, q, &Token::Semicolon) {
                    statement = Statement::Let(id, None, var_type);
                    p = q;
                } else {
                    return Err(error_unexpected_token("semicolon or assignment operator", next_tok));
                }
            } else if keyword_is(tokens, pos, "if") {
                let (e, q) = parse_expression(tokens, pos + 1)?;
                let ghost k = q as int;
                let (then_stmt, q) = parse_statement(tokens, q)?;
                let then_stmt = wrap_in_compound(then_stmt);
                assert(body_from(tokens@, k, then_stmt));
                token_at(tokens, q)?;
                if keyword_is(tokens, q, "else") {
                    let ghost m = q + 1;
                    let (else_stmt, q) = parse_statement(tokens, q + 1)?;
                    let else_stmt = wrap_in_compound(else_stmt);
                    assert(body_from(tokens@, m, else_stmt));
                    statement = Statement::If(
                        Typed::new(e),
                        Box::new(Typed::new(then_stmt)),
                        Some(Box::new(Typed::new(else_stmt))),
                    );
                    p = q;
                    assert(body_from(tokens@, k, statement->If_1.expr));
                    assert(body_from(tokens@, m, statement->If_2->0.expr));
                    assert(if_bodies_placed(tokens@, pos as int, p as int, statement));
                } else {
                    statement = Statement::If(Typed::new(e), Box::new(Typed::new(then_stmt)), None);
                    p = q;
                    assert(body_from(tokens@, k, statement->If_1.expr));
                    assert(if_bodies_placed(tokens@, pos as int, p as int, statement));
                }
            } else if keyword_is(tokens, pos, "while") {
                let (e, q) = parse_expression(tokens, pos + 1)?;
                let ghost k = q as int;
                let (body, q) = parse_statement(tokens, q)?;
                let body = wrap_in_compound(body);
                assert(body_from(tokens@, k, body));
                statement = Statement::While(Typed::new(e), Box::new(Typed::new(body)));
                p = q;
                assert(body_from(tokens@, k, statement->While_1.expr));
            } else if keyword_is(tokens, pos, "loop") {
                let (body, q) = parse_statement(tokens, pos + 1)?;
                let body = wrap_in_compound(body);
                assert(body_from(tokens@, pos + 1, body));
                statement = Statement::Loop(Box::new(Typed::new(body)));
                p = q;
            } else if keyword_is(tokens, pos, "for") {
                expect_token(tokens, pos + 1, &Token::LParen, "opening parenthesis")?;
                let (init, q) = parse_statement(tokens, pos + 2)?;
                let (cond, q) = parse_expression(tokens, q)?;
                expect_token(tokens, q, &Token::Semicolon, "semicolon")?;
                let (step, q) = parse_expression(tokens, q + 1)?;
                expect_token(tokens, q, &Token::RParen, "closing parenthesis")?;
                let ghost k = q + 1;
                let (body, q) = parse_statement(tokens, q + 1)?;
                let body = wrap_in_compound(body);
                assert(body_from(tokens@, k, body));
                statement = Statement::For(
                    Box::new(Typed::new(init)),
                    Typed::new(cond),
                    Typed::new(step),
                    Box::new(Typed::new(body)),
                );
                p = q;
                assert(body_from(tokens@, k, statement->For_3.expr));
            } else if keyword_is(tokens, pos, "do") {
                let (body, q) = parse_statement(tokens, pos + 1)?;
                let body = wrap_in_compound(body);
                assert(body_from(tokens@, pos + 1, body));
                let next_tok = token_at(tokens, q)?;
                if keyword_is(tokens, q, "while") {
                    let (e, q) = parse_expression(tokens, q + 1)?;
                    statement = Statement::Dowhile(Typed::new(e), Box::new(Typed::new(body)));
                    p = q;
                } else {
                    return Err(error_unexpected_token("while keyword", next_tok));
                }
            } else if keyword_is(tokens, pos, "break") {
                statement = Statement::Break;
                p = pos + 1;
            } else if keyword_is(tokens, pos, "continue") {
                statement = Statement::Continue;
                p = pos + 1;
            } else if keyword_is(tokens, pos, "asm") {
                let next_tok = token_at(tokens, pos + 1)?;
                let text = match &next_tok.internal_tok {
                    Token::StringLiteral(s) => s.clone(),
                    _ => return Err(error_unexpected_token("string literal", next_tok)),
                };
                let (aline, afile) = (next_tok.line, next_tok.file.clone());
                let code = TokenWithDebugInfo { internal_tok: text, line: aline, file: afile.clone() };
                token_at(tokens, pos + 2)?;
                // An asm statement may be given the type of what it leaves.
                if token_is(tokens, pos + 2, &Token::Colon) {
                    let (t, q) = parse_type(tokens, pos + 3)?;
                    statement = Statement::Asm(code, t);
                    p = q;
                } else {
                    statement = Statement::Asm(
                        code,
                        TokenWithDebugInfo { internal_tok: Type::Void, line: aline, file: afile },
                    );
                    p = pos + 2;
                }
            } else {
                return Err(error_unexpected_token("valid keyword token", first));
            }
        },
        Token::LBrace => {
            let mut statements: Vec<Typed<TokenWithDebugInfo<Statement>>> = Vec::new();
            let mut r: usize = pos + 1;
            loop
                invariant_except_break
                    empty_block_at(tokens@, pos as int) ==> r == pos + 1 && statements@.len() == 0,
                invariant
                    pos < r <= tokens@.len(),
                    tok(tokens@, pos as int) == SpecToken::LBrace,
                    inits_precede_loops(statements@),
                ensures
                    pos < r <= tokens@.len(),
                    tok(tokens@, r - 1) == SpecToken::RBrace,
                    empty_block_at(tokens@, pos as int) ==> r == pos + 2 && statements@.len() == 0,
                decreases tokens@.len() - r,
            {
                token_at(tokens, r)?;
                if token_is(tokens, r, &Token::RBrace) {
                    r = r + 1;
                    break ;
                }
                let (new_statement, q) = parse_statement(tokens, r)?;
                let ghost before = statements@;
                let ghost parsed = new_statement.internal_tok;
                // A `for` statement's initialization also stands in the
                // enclosing block, ahead of the loop.
                if let Statement::For(init, _, _, _) = &new_statement.internal_tok {
                    let copy = clone_typed_statement(init);
                    proof {
                        assert(statements@.len() == before.len());
                        assert(same_kind(copy.expr.internal_tok, parsed->For_0.expr.internal_tok));
                        assert(copy.expr.line == parsed->For_0.expr.line);
                    }
                    statements.push(copy);
                }
                statements.push(Typed::new(new_statement));
                proof {
                    let v = statements@;
                    let n = before.len();
                    assert(v.last().expr.internal_tok == parsed);
                    if parsed is For {
                        assert(v.len() == n + 2);
                        assert(same_kind(v[n as int].expr.internal_tok, parsed->For_0.expr.internal_tok));
                        assert(v[n as int].expr.line == parsed->For_0.expr.line);
                    } else {
                        assert(v.len() == n + 1);
                    }
                    assert forall|k: int| 0 <= k < n implies v[k] == before[k] by {}
                    if forall|k: int|
                        0 <= k < v.len() ==> ((#[trigger] v[k]).expr.internal_tok matches Statement::For(init, _, _, _)
                            ==> !(init.expr.internal_tok is For)) {
                        assert forall|k: int|
                            0 <= k < n implies ((#[trigger] before[k]).expr.internal_tok matches Statement::For(
                                init,
                                _,
                                _,
                                _,
                            ) ==> !(init.expr.internal_tok is For)) by {
                            assert(v[k] == before[k]);
                        }
                        assert forall|k: int|
                            0 <= k < v.len() implies ((#[trigger] v[k]).expr.internal_tok matches Statement::For(
                                init,
                                _,
                                _,
                                _,
                            ) ==> (k >= 1 && same_kind(v[k - 1].expr.internal_tok, init.expr.internal_tok) && v[k
                                - 1].expr.line == init.expr.line)) by {
                            if k < n {
                                assert(v[k] == before[k]);
                                if k >= 1 {
                                    assert(v[k - 1] == before[k - 1]);
                                }
                            } else if parsed is For && k == n {
                                assert(v[n as int + 1].expr.internal_tok == parsed);
                                assert(!(parsed->For_0.expr.internal_tok is For));
                            }
                        }
                    }
                }
                r = q;
            }
            return Ok(
                (TokenWithDebugInfo { internal_tok: Statement::Compound(statements), line, file }, r),
            );
        },
        _ => {
            let (e, q) = parse_expression(tokens, pos)?;
            statement = Statement::Expression(Typed::new(e));
            p = q;
        },
    }
    match statement {
        Statement::Compound(_) | Statement::If(_, _, _) | Statement::While(_, _) | Statement::Loop(_)
        | Statement::For(_, _, _, _) => {
            return Ok((TokenWithDebugInfo { internal_tok: statement, line, file }, p));
        },
        _ => {},
    }
    expect_token(tokens, p, &Token::Semicolon, "semicolon")?;
    Ok((TokenWithDebugInfo { internal_tok: statement, line, file }, p + 1))
}


// ---------------------------------------------------------------------------
// Declarations.

/// The name that the identifier at `pos` writes, located at it; an error
/// that expects an identifier otherwise.
fn expect_identifier(tokens: &Vec<TokenWithDebugInfo<Token>>, pos: usize) -> (res: Result<
    TokenWithDebugInfo<String>,
    CompileError,
>)
    ensures
        res matches Ok(n) ==> pos < tokens@.len() && tok(tokens@, pos as int)
            == SpecToken::Identifier(n.internal_tok@) && n.line == tokens@[pos as int].line
            && n.file == tokens@[pos as int].file,
        res is Ok <==> (pos < tokens@.len() && tok(tokens@, pos as int) is Identifier),
{
    let t = token_at(tokens, pos)?;
    match &t.internal_tok {
        Token::Identifier(id) => Ok(TokenWithDebugInfo { internal_tok: id.clone(), line: t.line, file: t.file.clone() }),
        _ => Err(error_unexpected_token("identifier", t)),
    }
}

/// Parses `const id: type = literal;` from `pos`; returns the constant,
/// located at the `const` keyword, and the position after the semicolon.
pub fn parse_const(tokens: &Vec<TokenWithDebugInfo<Token>>, pos: usize) -> (res: Result<
    (TokenWithDebugInfo<Constant>, usize),
    CompileError,
>)
    ensures
        res is Ok <==> {
            &&& pos + 2 < tokens@.len()
            &&& tok(tokens@, pos as int) == SpecToken::Keyword("const"@)
            &&& tok(tokens@, pos + 1) is Identifier
            &&& tok(tokens@, pos + 2) == SpecToken::Colon
            &&& type_end(tokens@, pos + 3) matches Some(e) && {
                &&& e + 2 < tokens@.len()
                &&& tok(tokens@, e) == SpecToken::Operator(Operator::Assign)
                &&& is_literal_token(tokens@[e + 1].internal_tok)
                &&& tok(tokens@, e + 2) == SpecToken::Semicolon
            }
        },
        res matches Ok((c, q)) ==> {
            &&& pos < q <= tokens@.len()
            &&& tok(tokens@, pos as int) == SpecToken::Keyword("const"@)
            &&& tok(tokens@, q - 1) == SpecToken::Semicolon
            &&& tok(tokens@, pos + 2) == SpecToken::Colon
            &&& pos + 3 < q - 3
            &&& tok(tokens@, q - 3) == SpecToken::Operator(Operator::Assign)
            &&& c.internal_tok matches Constant::Constant(id, lit, t) && {
                &&& tok(tokens@, pos + 1) == SpecToken::Identifier(id.internal_tok@)
                &&& type_end(tokens@, pos + 3) == Some(q - 3)
                &&& type_written(tokens@, pos + 3, t.internal_tok)
                &&& type_head(tokens@, pos + 3, t.internal_tok, q - 3)
                &&& literal_of_token(tokens@[q - 2].internal_tok, lit.expr.internal_tok, lit.type_)
            }
            &&& c.line == tokens@[pos as int].line
            &&& c.file == tokens@[pos as int].file
        },
{
    let first = token_at(tokens, pos)?;
    let (line, file) = (first.line, first.file.clone());
    if !keyword_is(tokens, pos, "const") {
        return Err(error_unexpected_token("const keyword", first));
    }
    let id = expect_identifier(tokens, pos + 1)?;
    expect_token(tokens, pos + 2, &Token::Colon, "colon")?;
    let (var_type, q) = parse_type(tokens, pos + 3)?;
    let next_tok = token_at(tokens, q)?;
    if !token_is(tokens, q, &Token::Operator(Operator::Assign)) {
        return Err(
            error_unexpected_token(
                "assignment operator (constants must be assigned on declaration)",
                next_tok,
            ),
        );
    }
    let lit_tok = token_at(tokens, q + 1)?;
    let lit = parse_literal(lit_tok)?;
    expect_token(tokens, q + 2, &Token::Semicolon, "semicolon")?;
    Ok((TokenWithDebugInfo { internal_tok: Constant::Constant(id, lit, var_type), line, file }, q + 3))
}

/// Where the type parameters written from `p`, `T1, ..., Tn>`, end: the
/// position after the `>`. A token other than an identifier where a name is
/// due is passed over.
pub open spec fn params_end(ts: Seq<TokenWithDebugInfo<Token>>, p: int) -> Option<int>
    decreases ts.len() - p,
{
    if p < 0 || p >= ts.len() {
        None
    } else if tok(ts, p) is Identifier {
        if p + 1 >= ts.len() {
            None
        } else if tok(ts, p + 1) == SpecToken::Comma {
            params_end(ts, p + 2)
        } else if tok(ts, p + 1) == SpecToken::Operator(Operator::GreaterThan) {
            Some(p + 2)
        } else {
            None
        }
    } else {
        params_end(ts, p + 1)
    }
}

/// The names of the type parameters written from `p`.
pub open spec fn param_names(ts: Seq<TokenWithDebugInfo<Token>>, p: int) -> Seq<Seq<char>>
    decreases ts.len() - p,
{
    if p < 0 || p >= ts.len() {
        Seq::empty()
    } else {
        match tok(ts, p) {
            SpecToken::Identifier(name) => if p + 1 < ts.len() && tok(ts, p + 1) == SpecToken::Comma {
                seq![name] + param_names(ts, p + 2)
            } else {
                seq![name]
            },
            _ => param_names(ts, p + 1),
        }
    }
}

/// Parses the names of the type parameters of a declaration, `T1, T2, ...>`,
/// that begin at `pos` (after the `:<`); returns them and the position after
/// the closing `>`. Tokens other than identifiers where a name is due are
/// passed over.
fn parse_type_parameters(tokens: &Vec<TokenWithDebugInfo<Token>>, pos: usize) -> (res: Result<
    (Vec<TokenWithDebugInfo<String>>, usize),
    CompileError,
>)
    ensures
        res is Ok <==> params_end(tokens@, pos as int) is Some,
        res matches Ok((g, q)) ==> pos < q <= tokens@.len() && params_end(tokens@, pos as int) == Some(q as int)
            && names_of(g@) == param_names(tokens@, pos as int),
{
    let mut names: Vec<TokenWithDebugInfo<String>> = Vec::new();
    let mut p: usize = pos;
    loop
        invariant
            pos <= p,
            p > pos ==> p <= tokens@.len(),
            params_end(tokens@, pos as int) == params_end(tokens@, p as int),
            param_names(tokens@, pos as int) == names_of(names@) + param_names(tokens@, p as int),
        decreases tokens@.len() - p,
    {
        let t = token_at(tokens, p)?;
        if let Token::Identifier(id) = &t.internal_tok {
            let ghost before = names@;
            names.push(TokenWithDebugInfo { internal_tok: id.clone(), line: t.line, file: t.file.clone() });
            assert(names_of(names@) =~= names_of(before) + seq![id@]);
            let sep = token_at(tokens, p + 1)?;
            if token_is(tokens, p + 1, &Token::Comma) {
                assert(names_of(before) + (seq![id@] + param_names(tokens@, p + 2)) =~= names_of(names@)
                    + param_names(tokens@, p + 2));
                p = p + 2;
            } else if token_is(tokens, p + 1, &Token::Operator(Operator::GreaterThan)) {
                assert(names_of(before) + seq![id@] =~= names_of(names@));
                return Ok((names, p + 2));
            } else {
                return Err(error_unexpected_token("comma or closing angle bracket", sep));
            }
        } else {
            p = p + 1;
        }
    }
}

/// Whether the tokens at `pos` declare a function with no type parameter,
/// no parameter and an empty body: `fn name(): type {}` with a type of one
/// token.
pub open spec fn empty_function_at(ts: Seq<TokenWithDebugInfo<Token>>, pos: int) -> bool {
    &&& 0 <= pos
    &&& pos + 7 < ts.len()
    &&& tok(ts, pos) == SpecToken::Keyword("fn"@)
    &&& tok(ts, pos + 1) is Identifier
    &&& tok(ts, pos + 2) == SpecToken::LParen
    &&& tok(ts, pos + 3) == SpecToken::RParen
    &&& tok(ts, pos + 4) == SpecToken::Colon
    &&& type_end(ts, pos + 5) == Some(pos + 6)
    &&& empty_block_at(ts, pos + 6)
}

/// Parses `fn id:<generics>(params): type body` from `pos`; returns the
/// function, located at the `fn` keyword, and the position after its body.
/// A body that is not a compound statement is made one.
pub fn parse_function(tokens: &Vec<TokenWithDebugInfo<Token>>, pos: usize) -> (res: Result<
    (TokenWithDebugInfo<Function>, usize),
    CompileError,
>)
    ensures
        res matches Ok((f, q)) ==> {
            &&& pos < q <= tokens@.len()
            &&& tok(tokens@, pos as int) == SpecToken::Keyword("fn"@)
            &&& tok(tokens@, pos + 1) == SpecToken::Identifier(f.internal_tok.id.internal_tok@)
            &&& names_of(f.internal_tok.generics@) == declared_params(tokens@, pos as int)
            &&& body_start(tokens@, pos as int, SpecToken::LParen) matches Some(b) && fields_end(
                tokens@,
                b,
                SpecToken::Comma,
                SpecToken::RParen,
            ) matches Some(r) && {
                &&& f.internal_tok.args@.len() == field_positions(tokens@, b, SpecToken::Comma, SpecToken::RParen).len()
                &&& forall|i: int|
                    0 <= i < f.internal_tok.args@.len() ==> {
                        let m = field_positions(tokens@, b, SpecToken::Comma, SpecToken::RParen)[i];
                        &&& tok(tokens@, m) == SpecToken::Identifier((#[trigger] f.internal_tok.args@[i]).0.internal_tok@)
                        &&& type_written(tokens@, m + 2, f.internal_tok.args@[i].1.internal_tok)
                    }
                &&& r < tokens@.len() && tok(tokens@, r) == SpecToken::Colon
                &&& type_end(tokens@, r + 1) matches Some(e) && e < q && body_from(tokens@, e, f.internal_tok.body.expr)
                &&& type_written(tokens@, r + 1, f.internal_tok.return_type.internal_tok)
            }
            &&& f.internal_tok.body.expr.internal_tok is Compound
            &&& f.line == tokens@[pos as int].line
            &&& f.file == tokens@[pos as int].file
        },
        empty_function_at(tokens@, pos as int) ==> (res matches Ok((f, q)) && q == pos + 8 && f.internal_tok.args@.len()
            == 0 && f.internal_tok.generics@.len() == 0 && is_empty_block(f.internal_tok.body.expr.internal_tok)),
{
    let first = token_at(tokens, pos)?;
    let (line, file) = (first.line, first.file.clone());
    if !keyword_is(tokens, pos, "fn") {
        return Err(error_unexpected_token("fn keyword", first));
    }
    let id = expect_identifier(tokens, pos + 1)?;
    let mut p: usize = pos + 2;
    token_at(tokens, p)?;
    let mut generics: Vec<TokenWithDebugInfo<String>> = Vec::new();
    if token_is(tokens, p, &Token::BeginGeneric) {
        let (g, q) = parse_type_parameters(tokens, p + 1)?;
        generics = g;
        p = q;
    }
    expect_token(tokens, p, &Token::LParen, "opening parenthesis")?;
    p = p + 1;
    let ghost b = p as int;
    assert(body_start(tokens@, pos as int, SpecToken::LParen) == Some(b));
    let mut params: Vec<(TokenWithDebugInfo<String>, TokenWithDebugInfo<Type>)> = Vec::new();
    let ghost mut seen: Seq<int> = Seq::empty();
    loop
        invariant_except_break
            fields_end(tokens@, b, SpecToken::Comma, SpecToken::RParen) == fields_end(
                tokens@,
                p as int,
                SpecToken::Comma,
                SpecToken::RParen,
            ),
            field_positions(tokens@, b, SpecToken::Comma, SpecToken::RParen) == seen + field_positions(
                tokens@,
                p as int,
                SpecToken::Comma,
                SpecToken::RParen,
            ),
            empty_function_at(tokens@, pos as int) ==> p == pos + 3 && params@.len() == 0,
        invariant
            pos < p <= tokens@.len(),
            pos < b <= p,
            seen.len() == params@.len(),
            forall|i: int|
                0 <= i < params@.len() ==> {
                    &&& tok(tokens@, seen[i]) == SpecToken::Identifier((#[trigger] params@[i]).0.internal_tok@)
                    &&& type_written(tokens@, seen[i] + 2, params@[i].1.internal_tok)
                },
        ensures
            pos < p <= tokens@.len(),
            fields_end(tokens@, b, SpecToken::Comma, SpecToken::RParen) == Some(p as int),
            field_positions(tokens@, b, SpecToken::Comma, SpecToken::RParen) == seen,
            empty_function_at(tokens@, pos as int) ==> p == pos + 4 && params@.len() == 0,
        decreases tokens@.len() - p,
    {
        let t = token_at(tokens, p)?;
        if token_is(tokens, p, &Token::RParen) {
            assert(field_positions(tokens@, p as int, SpecToken::Comma, SpecToken::RParen) =~= Seq::<int>::empty());
            assert(seen + Seq::<int>::empty() =~= seen);
            p = p + 1;
            break ;
        } else if token_is(tokens, p, &Token::Comma) {
            p = p + 1;
        } else if let Token::Identifier(name) = &t.internal_tok {
            expect_token(tokens, p + 1, &Token::Colon, "colon")?;
            let (param_type, q) = parse_type(tokens, p + 2)?;
            proof {
                assert(seen + (seq![p as int] + field_positions(tokens@, q as int, SpecToken::Comma, SpecToken::RParen))
                    =~= seen.push(p as int) + field_positions(tokens@, q as int, SpecToken::Comma, SpecToken::RParen));
                seen = seen.push(p as int);
            }
            params.push(
                (TokenWithDebugInfo { internal_tok: name.clone(), line: t.line, file: t.file.clone() }, param_type),
            );
            p = q;
        } else {
            return Err(error_unexpected_token("identifier or closing parenthesis", t));
        }
    }
    assert(empty_function_at(tokens@, pos as int) ==> p == pos + 4 && params@.len() == 0 && generics@.len() == 0);
    expect_token(tokens, p, &Token::Colon, "colon")?;
    let (return_type, q) = parse_type(tokens, p + 1)?;
    let ghost e = q as int;
    let (body, q) = parse_statement(tokens, q)?;
    // A body that is a compound statement gives its variables a scope.
    let body = wrap_in_compound(body);
    assert(body_from(tokens@, e, body));
    Ok(
        (
            TokenWithDebugInfo {
                internal_tok: Function { id, args: params, body: Typed::new(body), return_type, generics },
                line,
                file,
            },
            q,
        ),
    )
}

/// Where a list of fields `name: type` written from `p` ends, after the
/// token `close`; tokens `sep` between fields are passed over. Struct members
/// are such a list (`;` and `}`), and so are function parameters (`,` and
/// `)`).
pub open spec fn fields_end(ts: Seq<TokenWithDebugInfo<Token>>, p: int, sep: SpecToken, close: SpecToken) -> Option<
    int,
>
    decreases ts.len() - p,
{
    if p < 0 || p >= ts.len() {
        None
    } else if tok(ts, p) == close {
        Some(p + 1)
    } else if tok(ts, p) == sep {
        fields_end(ts, p + 1, sep, close)
    } else if tok(ts, p) is Identifier && p + 1 < ts.len() && tok(ts, p + 1) == SpecToken::Colon {
        match type_end(ts, p + 2) {
            Some(q) => if p < q <= ts.len() {
                fields_end(ts, q, sep, close)
            } else {
                None
            },
            None => None,
        }
    } else {
        None
    }
}

/// The positions of the names of the fields of a list written from `p`.
pub open spec fn field_positions(ts: Seq<TokenWithDebugInfo<Token>>, p: int, sep: SpecToken, close: SpecToken) -> Seq<
    int,
>
    decreases ts.len() - p,
{
    if p < 0 || p >= ts.len() {
        Seq::empty()
    } else if tok(ts, p) == close {
        Seq::empty()
    } else if tok(ts, p) == sep {
        field_positions(ts, p + 1, sep, close)
    } else if tok(ts, p) is Identifier && p + 1 < ts.len() && tok(ts, p + 1) == SpecToken::Colon {
        match type_end(ts, p + 2) {
            Some(q) => if p < q <= ts.len() {
                seq![p] + field_positions(ts, q, sep, close)
            } else {
                Seq::empty()
            },
            None => Seq::empty(),
        }
    } else {
        Seq::empty()
    }
}

/// Where what a declaration at `pos` holds begins: after the token `open`,
/// which follows its name and, if it has any, its type parameters.
pub open spec fn body_start(ts: Seq<TokenWithDebugInfo<Token>>, pos: int, open: SpecToken) -> Option<int> {
    if pos + 2 < ts.len() && tok(ts, pos + 2) == SpecToken::BeginGeneric {
        match params_end(ts, pos + 3) {
            Some(g) => if g < ts.len() && tok(ts, g) == open {
                Some(g + 1)
            } else {
                None
            },
            None => None,
        }
    } else if pos + 2 < ts.len() && tok(ts, pos + 2) == open {
        Some(pos + 3)
    } else {
        None
    }
}

/// The names of the type parameters of the declaration at `pos`.
pub open spec fn declared_params(ts: Seq<TokenWithDebugInfo<Token>>, pos: int) -> Seq<Seq<char>> {
    if pos + 2 < ts.len() && tok(ts, pos + 2) == SpecToken::BeginGeneric {
        param_names(ts, pos + 3)
    } else {
        Seq::empty()
    }
}

/// Parses `struct id:<generics> { member: type; ... }` from `pos`; returns
/// the struct, located at the `struct` keyword, and the position after the
/// closing brace.
pub fn parse_struct(tokens: &Vec<TokenWithDebugInfo<Token>>, pos: usize) -> (res: Result<
    (TokenWithDebugInfo<Struct>, usize),
    CompileError,
>)
    ensures
        res is Ok <==> {
            &&& pos + 1 < tokens@.len()
            &&& tok(tokens@, pos as int) == SpecToken::Keyword("struct"@)
            &&& tok(tokens@, pos + 1) is Identifier
            &&& body_start(tokens@, pos as int, SpecToken::LBrace) matches Some(b) && fields_end(tokens@, b, SpecToken::Semicolon, SpecToken::RBrace) is Some
        },
        res matches Ok((st, q)) ==> {
            &&& pos < q <= tokens@.len()
            &&& tok(tokens@, pos as int) == SpecToken::Keyword("struct"@)
            &&& tok(tokens@, pos + 1) == SpecToken::Identifier(st.internal_tok.id.internal_tok@)
            &&& tok(tokens@, q - 1) == SpecToken::RBrace
            &&& body_start(tokens@, pos as int, SpecToken::LBrace) matches Some(b) && {
                &&& fields_end(tokens@, b, SpecToken::Semicolon, SpecToken::RBrace) == Some(q as int)
                &&& st.internal_tok.members@.len() == field_positions(tokens@, b, SpecToken::Semicolon, SpecToken::RBrace).len()
                &&& forall|i: int|
                    0 <= i < st.internal_tok.members@.len() ==> {
                        let m = field_positions(tokens@, b, SpecToken::Semicolon, SpecToken::RBrace)[i];
                        &&& tok(tokens@, m) == SpecToken::Identifier(
                            (#[trigger] st.internal_tok.members@[i]).0.internal_tok@,
                        )
                        &&& type_written(tokens@, m + 2, st.internal_tok.members@[i].1.internal_tok)
                    }
            }
            &&& names_of(st.internal_tok.generics@) == declared_params(tokens@, pos as int)
            &&& st.line == tokens@[pos as int].line
            &&& st.file == tokens@[pos as int].file
        },
{
    let first = token_at(tokens, pos)?;
    let (line, file) = (first.line, first.file.clone());
    if !keyword_is(tokens, pos, "struct") {
        return Err(error_unexpected_token("struct keyword", first));
    }
    let id = expect_identifier(tokens, pos + 1)?;
    let mut p: usize = pos + 2;
    token_at(tokens, p)?;
    let mut generics: Vec<TokenWithDebugInfo<String>> = Vec::new();
    assert(names_of(generics@) =~= Seq::<Seq<char>>::empty());
    if token_is(tokens, p, &Token::BeginGeneric) {
        let (g, q) = parse_type_parameters(tokens, p + 1)?;
        generics = g;
        p = q;
    }
    expect_token(tokens, p, &Token::LBrace, "opening brace")?;
    p = p + 1;
    let ghost b = p as int;
    assert(body_start(tokens@, pos as int, SpecToken::LBrace) == Some(b));
    let mut members: Vec<(TokenWithDebugInfo<String>, TokenWithDebugInfo<Type>)> = Vec::new();
    let ghost mut seen: Seq<int> = Seq::empty();
    loop
        invariant_except_break
            fields_end(tokens@, b, SpecToken::Semicolon, SpecToken::RBrace) == fields_end(tokens@, p as int, SpecToken::Semicolon, SpecToken::RBrace),
            field_positions(tokens@, b, SpecToken::Semicolon, SpecToken::RBrace) == seen + field_positions(tokens@, p as int, SpecToken::Semicolon, SpecToken::RBrace),
        invariant
            pos < p <= tokens@.len(),
            pos < b <= p,
            pos + 1 < tokens@.len(),
            tok(tokens@, pos as int) == SpecToken::Keyword("struct"@),
            tok(tokens@, pos + 1) == SpecToken::Identifier(id.internal_tok@),
            body_start(tokens@, pos as int, SpecToken::LBrace) == Some(b),
            seen.len() == members@.len(),
            forall|i: int|
                0 <= i < members@.len() ==> {
                    &&& tok(tokens@, seen[i]) == SpecToken::Identifier((#[trigger] members@[i]).0.internal_tok@)
                    &&& type_written(tokens@, seen[i] + 2, members@[i].1.internal_tok)
                },
        ensures
            pos < p <= tokens@.len(),
            tok(tokens@, p - 1) == SpecToken::RBrace,
            fields_end(tokens@, b, SpecToken::Semicolon, SpecToken::RBrace) == Some(p as int),
            field_positions(tokens@, b, SpecToken::Semicolon, SpecToken::RBrace) == seen,
        decreases tokens@.len() - p,
    {
        let t = token_at(tokens, p)?;
        if token_is(tokens, p, &Token::RBrace) {
            assert(field_positions(tokens@, p as int, SpecToken::Semicolon, SpecToken::RBrace) =~= Seq::<int>::empty());
            assert(seen + Seq::<int>::empty() =~= seen);
            p = p + 1;
            break ;
        } else if token_is(tokens, p, &Token::Semicolon) {
            p = p + 1;
        } else if let Token::Identifier(name) = &t.internal_tok {
            expect_token(tokens, p + 1, &Token::Colon, "colon")?;
            let (member_type, q) = parse_type(tokens, p + 2)?;
            proof {
                assert(seen + (seq![p as int] + field_positions(tokens@, q as int, SpecToken::Semicolon, SpecToken::RBrace)) =~= seen.push(p as int)
                    + field_positions(tokens@, q as int, SpecToken::Semicolon, SpecToken::RBrace));
                seen = seen.push(p as int);
            }
            members.push(
                (TokenWithDebugInfo { internal_tok: name.clone(), line: t.line, file: t.file.clone() }, member_type),
            );
            p = q;
        } else {
            return Err(error_unexpected_token("identifier or closing brace", t));
        }
    }
    Ok((TokenWithDebugInfo { internal_tok: Struct { id, members, generics }, line, file }, p))
}

/// Where the list of enum variants that starts at `p` ends, after its
/// closing brace: identifiers separated by commas and closed by `}`. `None`
/// where the tokens do not make such a list.
pub open spec fn variants_end(ts: Seq<TokenWithDebugInfo<Token>>, p: int) -> Option<int>
    decreases ts.len() - p,
{
    if 0 <= p && p + 1 < ts.len() && tok(ts, p) is Identifier {
        if tok(ts, p + 1) == SpecToken::Comma {
            variants_end(ts, p + 2)
        } else if tok(ts, p + 1) == SpecToken::RBrace {
            Some(p + 2)
        } else {
            None
        }
    } else {
        None
    }
}

/// The names in the list of enum variants that starts at `p`.
pub open spec fn variant_names(ts: Seq<TokenWithDebugInfo<Token>>, p: int) -> Seq<Seq<char>>
    decreases ts.len() - p,
{
    if 0 <= p && p + 1 < ts.len() {
        match tok(ts, p) {
            SpecToken::Identifier(name) => if tok(ts, p + 1) == SpecToken::Comma {
                seq![name] + variant_names(ts, p + 2)
            } else {
                seq![name]
            },
            _ => Seq::empty(),
        }
    } else {
        Seq::empty()
    }
}

/// The names that a list of names holds.
pub open spec fn names_of(vs: Seq<TokenWithDebugInfo<String>>) -> Seq<Seq<char>> {
    Seq::new(vs.len(), |i: int| vs[i].internal_tok@)
}

/// Parses `enum id { A, B, ... }` from `pos`; returns the enum, located at
/// the `enum` keyword, and the position after the closing brace.
pub fn parse_enum(tokens: &Vec<TokenWithDebugInfo<Token>>, pos: usize) -> (res: Result<
    (TokenWithDebugInfo<Enum>, usize),
    CompileError,
>)
    ensures
        res is Ok <==> {
            &&& pos + 2 < tokens@.len()
            &&& tok(tokens@, pos as int) == SpecToken::Keyword("enum"@)
            &&& tok(tokens@, pos + 1) is Identifier
            &&& tok(tokens@, pos + 2) == SpecToken::LBrace
            &&& variants_end(tokens@, pos + 3) is Some
        },
        res matches Ok((en, q)) ==> {
            &&& pos < q <= tokens@.len()
            &&& variants_end(tokens@, pos + 3) == Some(q as int)
            &&& tok(tokens@, pos + 1) == SpecToken::Identifier(en.internal_tok.id.internal_tok@)
            &&& names_of(en.internal_tok.variants@) == variant_names(tokens@, pos + 3)
            &&& tok(tokens@, q - 1) == SpecToken::RBrace
            &&& en.internal_tok.variants@.len() >= 1
            &&& en.line == tokens@[pos as int].line
            &&& en.file == tokens@[pos as int].file
        },
{
    let first = token_at(tokens, pos)?;
    let (line, file) = (first.line, first.file.clone());
    if !keyword_is(tokens, pos, "enum") {
        return Err(error_unexpected_token("enum keyword", first));
    }
    let id = expect_identifier(tokens, pos + 1)?;
    expect_token(tokens, pos + 2, &Token::LBrace, "opening brace")?;
    let mut p: usize = pos + 3;
    let mut variants: Vec<TokenWithDebugInfo<String>> = Vec::new();
    let ghost start = pos + 3;
    loop
        invariant_except_break
            variants_end(tokens@, start) == variants_end(tokens@, p as int),
            variant_names(tokens@, start) == names_of(variants@) + variant_names(tokens@, p as int),
        invariant
            pos < p <= tokens@.len(),
            start == pos + 3,
        ensures
            pos < p <= tokens@.len(),
            tok(tokens@, p - 1) == SpecToken::RBrace,
            variants@.len() >= 1,
            variants_end(tokens@, start) == Some(p as int),
            variant_names(tokens@, start) == names_of(variants@),
        decreases tokens@.len() - p,
    {
        let t = token_at(tokens, p)?;
        if let Token::Identifier(name) = &t.internal_tok {
            let ghost before = variants@;
            variants.push(TokenWithDebugInfo { internal_tok: name.clone(), line: t.line, file: t.file.clone() });
            assert(names_of(variants@) =~= names_of(before) + seq![name@]);
            let sep = token_at(tokens, p + 1)?;
            if token_is(tokens, p + 1, &Token::Comma) {
                assert(variant_names(tokens@, p as int) == seq![name@] + variant_names(tokens@, p + 2));
                assert(names_of(before) + (seq![name@] + variant_names(tokens@, p + 2)) =~= names_of(variants@)
                    + variant_names(tokens@, p + 2));
                p = p + 2;
            } else if token_is(tokens, p + 1, &Token::RBrace) {
                assert(names_of(before) + seq![name@] =~= names_of(variants@));
                p = p + 2;
                break ;
            } else {
                return Err(error_unexpected_token("comma or closing brace", sep));
            }
        } else {
            return Err(error_unexpected_token("identifier", t));
        }
    }
    Ok((TokenWithDebugInfo { internal_tok: Enum { id, variants }, line, file }, p))
}

/// The positions among `starts` at which the keyword `kw` stands.
pub open spec fn keyword_starts(ts: Seq<TokenWithDebugInfo<Token>>, starts: Seq<int>, kw: Seq<char>) -> Seq<int> {
    starts.filter(|p: int| tok(ts, p) == SpecToken::Keyword(kw))
}

/// Whether the `n` positions `at` are each followed by the name that
/// `name` gives for its index.
pub open spec fn named_at(ts: Seq<TokenWithDebugInfo<Token>>, at: Seq<int>, n: int, name: spec_fn(int) -> Seq<char>) -> bool {
    &&& at.len() == n
    &&& forall|i: int| 0 <= i < n ==> tok(ts, #[trigger] at[i] + 1) == SpecToken::Identifier(name(i))
}

/// The name a constant declares.
pub open spec fn constant_name(c: Constant) -> Seq<char> {
    match c {
        Constant::Constant(id, _, _) => id.internal_tok@,
    }
}

/// Whether the declarations that begin at `starts`, in order from `first`,
/// are those of the lists: each function, constant, struct, enum and
/// namespace is declared, in its list's order, at the positions among
/// `starts` that hold its keyword, by the name that follows the keyword.
pub open spec fn declarations_layout(
    ts: Seq<TokenWithDebugInfo<Token>>,
    first: int,
    starts: Seq<int>,
    fs: Seq<Typed<TokenWithDebugInfo<Function>>>,
    cs: Seq<Typed<TokenWithDebugInfo<Constant>>>,
    ss: Seq<TokenWithDebugInfo<Struct>>,
    es: Seq<TokenWithDebugInfo<Enum>>,
    subs: Seq<TokenWithDebugInfo<Namespace>>,
) -> bool {
    &&& starts.len() > 0 ==> starts[0] == first
    &&& forall|k: int| 0 <= k < starts.len() ==> first <= #[trigger] starts[k]
    &&& forall|j: int, k: int| 0 <= j < k < starts.len() ==> #[trigger] starts[j] < #[trigger] starts[k]
    &&& named_at(ts, keyword_starts(ts, starts, "fn"@), fs.len() as int, |i: int| fs[i].expr.internal_tok.id.internal_tok@)
    &&& named_at(ts, keyword_starts(ts, starts, "const"@), cs.len() as int, |i: int| constant_name(cs[i].expr.internal_tok))
    &&& named_at(ts, keyword_starts(ts, starts, "struct"@), ss.len() as int, |i: int| ss[i].internal_tok.id.internal_tok@)
    &&& named_at(ts, keyword_starts(ts, starts, "enum"@), es.len() as int, |i: int| es[i].internal_tok.id.internal_tok@)
    &&& named_at(ts, keyword_starts(ts, starts, "namespace"@), subs.len() as int, |i: int| subs[i].internal_tok.id@)
}

/// Adding a position to `starts` adds it to the positions of its keyword
/// only.
proof fn lemma_keyword_starts_push(ts: Seq<TokenWithDebugInfo<Token>>, starts: Seq<int>, p: int)
    ensures
        forall|kw: Seq<char>| #[trigger] keyword_starts(ts, starts.push(p), kw) == if tok(ts, p) == SpecToken::Keyword(kw) {
            keyword_starts(ts, starts, kw).push(p)
        } else {
            keyword_starts(ts, starts, kw)
        },
{
    assert forall|kw: Seq<char>| #[trigger] keyword_starts(ts, starts.push(p), kw) == if tok(ts, p) == SpecToken::Keyword(kw) {
        keyword_starts(ts, starts, kw).push(p)
    } else {
        keyword_starts(ts, starts, kw)
    } by {
        starts.lemma_filter_push(p, |q: int| tok(ts, q) == SpecToken::Keyword(kw));
    }
}

/// Whether the declarations from `p` are empty functions (see
/// `empty_function_at`), up to the end of the file for the top level, or up
/// to `spacename;` with a token after it for another namespace.
pub open spec fn empty_functions_until(ts: Seq<TokenWithDebugInfo<Token>>, p: int, is_toplevel: bool) -> bool
    decreases ts.len() - p,
{
    if !(0 <= p < ts.len()) {
        false
    } else if is_toplevel && tok(ts, p) == SpecToken::EOF {
        true
    } else if !is_toplevel && tok(ts, p) == SpecToken::Keyword("spacename"@) {
        p + 2 < ts.len() && tok(ts, p + 1) == SpecToken::Semicolon
    } else if empty_function_at(ts, p) {
        empty_functions_until(ts, p + 8, is_toplevel)
    } else {
        false
    }
}

/// Whether the tokens at `pos` open a namespace, `namespace name;`, with a
/// name other than `toplevel`.
pub open spec fn namespace_header_at(ts: Seq<TokenWithDebugInfo<Token>>, pos: int) -> bool {
    &&& 0 <= pos
    &&& pos + 2 < ts.len()
    &&& tok(ts, pos) == SpecToken::Keyword("namespace"@)
    &&& tok(ts, pos + 1) matches SpecToken::Identifier(n) && n != "toplevel"@
    &&& tok(ts, pos + 2) == SpecToken::Semicolon
}

/// Whether the tokens at `pos` are a namespace of empty functions: the
/// top level up to the end of the file, or another namespace from its
/// header to its `spacename;`.
pub open spec fn empty_namespace_at(ts: Seq<TokenWithDebugInfo<Token>>, pos: int, is_toplevel: bool) -> bool {
    if is_toplevel {
        empty_functions_until(ts, pos, true)
    } else {
        namespace_header_at(ts, pos) && empty_functions_until(ts, pos + 3, false)
    }
}

/// Parses a namespace from `pos`: the whole program when `is_toplevel`
/// (named `toplevel`, and ended by the end of file), and otherwise
/// `namespace id; ... spacename;`. Returns it, located at its first token, and
/// the position after it.
pub fn parse_namespace(tokens: &Vec<TokenWithDebugInfo<Token>>, pos: usize, is_toplevel: bool) -> (res:
    Result<(TokenWithDebugInfo<Namespace>, usize), CompileError>)
    ensures
        res matches Ok((ns, q)) ==> {
            &&& pos <= q < tokens@.len()
            &&& is_toplevel ==> ns.internal_tok.id@ == "toplevel"@ && tok(tokens@, q as int)
                == SpecToken::EOF
            &&& !is_toplevel ==> {
                &&& tok(tokens@, pos as int) == SpecToken::Keyword("namespace"@)
                &&& tok(tokens@, pos + 1) == SpecToken::Identifier(ns.internal_tok.id@)
                &&& ns.internal_tok.id@ != "toplevel"@
                &&& pos < q
            }
        },
        empty_namespace_at(tokens@, pos as int, is_toplevel) ==> (res matches Ok((ns, _)) && ns.internal_tok.sub_namespaces@.len()
            == 0),
        res matches Ok((ns, q)) ==> exists|starts: Seq<int>|
            {
                &&& declarations_layout(
                    tokens@,
                    if is_toplevel { pos as int } else { pos + 3 },
                    starts,
                    ns.internal_tok.functions@,
                    ns.internal_tok.constants@,
                    ns.internal_tok.structs@,
                    ns.internal_tok.enums@,
                    ns.internal_tok.sub_namespaces@,
                )
                &&& forall|k: int| 0 <= k < starts.len() ==> #[trigger] starts[k] < q
                &&& starts.len() == 0 ==> q == if is_toplevel { pos as int } else { pos + 5 }
            },
    decreases tokens@.len() - pos, if is_toplevel { 1nat } else { 0nat },
{
    let ghost simple = empty_namespace_at(tokens@, pos as int, is_toplevel);
    let first = token_at(tokens, pos)?;
    let (line, file) = (first.line, first.file.clone());
    let id: String;
    let mut p: usize;
    if !is_toplevel {
        if !keyword_is(tokens, pos, "namespace") {
            return Err(error_unexpected_token("namespace keyword", first));
        }
        let name = expect_identifier(tokens, pos + 1)?;
        if same_text(name.internal_tok.as_str(), "toplevel") {
            return Err(error("cannot use 'toplevel' as a namespace name", &tokens[pos + 1]));
        }
        expect_token(tokens, pos + 2, &Token::Semicolon, "semicolon")?;
        id = name.internal_tok;
        p = pos + 3;
    } else {
        id = String::from_str("toplevel");
        p = pos;
    }
    let mut functions: Vec<Typed<TokenWithDebugInfo<Function>>> = Vec::new();
    let mut constants: Vec<Typed<TokenWithDebugInfo<Constant>>> = Vec::new();
    let mut structs: Vec<TokenWithDebugInfo<Struct>> = Vec::new();
    let mut enums: Vec<TokenWithDebugInfo<Enum>> = Vec::new();
    let mut sub_namespaces: Vec<TokenWithDebugInfo<Namespace>> = Vec::new();
    let ghost first: int = p as int;
    let ghost mut starts: Seq<int> = Seq::empty();
    proof {
        reveal(Seq::filter);
    }
    loop
        invariant_except_break
            simple ==> empty_functions_until(tokens@, p as int, is_toplevel),
            starts.len() == 0 ==> p == first,
        invariant
            pos <= p <= tokens@.len(),
            first == if is_toplevel { pos as int } else { pos + 3 },
            declarations_layout(tokens@, first, starts, functions@, constants@, structs@, enums@, sub_namespaces@),
            forall|k: int| 0 <= k < starts.len() ==> #[trigger] starts[k] < p,
            !is_toplevel ==> pos < p,
            simple == empty_namespace_at(tokens@, pos as int, is_toplevel),
            simple ==> sub_namespaces@.len() == 0,
        ensures
            pos <= p < tokens@.len(),
            !is_toplevel ==> pos < p,
            is_toplevel ==> tok(tokens@, p as int) == SpecToken::EOF,
            simple ==> sub_namespaces@.len() == 0,
            first == if is_toplevel { pos as int } else { pos + 3 },
            declarations_layout(tokens@, first, starts, functions@, constants@, structs@, enums@, sub_namespaces@),
            forall|k: int| 0 <= k < starts.len() ==> #[trigger] starts[k] < p,
            starts.len() == 0 ==> p == if is_toplevel { first } else { first + 2 },
        decreases tokens@.len() - p,
    {
        proof {
            reveal_strlit("fn");
            reveal_strlit("const");
            reveal_strlit("struct");
            reveal_strlit("enum");
            reveal_strlit("union");
            reveal_strlit("namespace");
            reveal_strlit("spacename");
            assert("spacename"@[0] == 's' && "namespace"@[0] == 'n' && "spacename"@.len() == 9);
            assert("fn"@.len() == 2 && "const"@.len() == 5 && "struct"@.len() == 6 && "enum"@.len() == 4
                && "union"@.len() == 5);
        }
        let next_tok = token_at(tokens, p)?;
        match &next_tok.internal_tok {
            Token::EOF => {
                if !is_toplevel {
                    return Err(error("unexpected EOF: Missing 'spacename' keyword", next_tok));
                }
                break ;
            },
            Token::Keyword(_) => {
                if keyword_is(tokens, p, "fn") {
                    let (f, q) = parse_function(tokens, p)?;
                    functions.push(Typed::new(f));
                    proof {
                        lemma_keyword_starts_push(tokens@, starts, p as int);
                        starts = starts.push(p as int);
                    }
                    p = q;
                } else if keyword_is(tokens, p, "const") {
                    let (c, q) = parse_const(tokens, p)?;
                    constants.push(Typed::new(c));
                    proof {
                        lemma_keyword_starts_push(tokens@, starts, p as int);
                        starts = starts.push(p as int);
                    }
                    p = q;
                } else if keyword_is(tokens, p, "struct") {
                    let (st, q) = parse_struct(tokens, p)?;
                    structs.push(st);
                    proof {
                        lemma_keyword_starts_push(tokens@, starts, p as int);
                        starts = starts.push(p as int);
                    }
                    p = q;
                } else if keyword_is(tokens, p, "enum") {
                    let (en, q) = parse_enum(tokens, p)?;
                    enums.push(en);
                    proof {
                        lemma_keyword_starts_push(tokens@, starts, p as int);
                        starts = starts.push(p as int);
                    }
                    p = q;
                } else if keyword_is(tokens, p, "union") {
                    return Err(error("not yet implemented: union", next_tok));
                } else if keyword_is(tokens, p, "namespace") {
                    let (ns, q) = parse_namespace(tokens, p, false)?;
                    sub_namespaces.push(ns);
                    proof {
                        lemma_keyword_starts_push(tokens@, starts, p as int);
                        starts = starts.push(p as int);
                    }
                    p = q;
                } else if keyword_is(tokens, p, "spacename") {
                    if is_toplevel {
                        return Err(error("cannot use 'spacename' outside of a namespace", next_tok));
                    }
                    expect_token(tokens, p + 1, &Token::Semicolon, "semicolon")?;
                    p = p + 2;
                    if p >= tokens.len() {
                        return Err(end_of_tokens());
                    }
                    break ;
                } else {
                    return Err(
                        error_unexpected_token(
                            "function, constant, struct, enum or union declaration",
                            next_tok,
                        ),
                    );
                }
            },
            _ => {
                return Err(
                    error_unexpected_token(
                        "function, constant, struct, enum or union declaration",
                        next_tok,
                    ),
                );
            },
        }
    }
    let parsed = TokenWithDebugInfo {
        internal_tok: Namespace { id, functions, constants, structs, enums, sub_namespaces },
        line,
        file,
    };
    proof {
        let n = parsed.internal_tok;
        assert(declarations_layout(
            tokens@,
            first,
            starts,
            n.functions@,
            n.constants@,
            n.structs@,
            n.enums@,
            n.sub_namespaces@,
        ));
    }
    Ok((parsed, p))
}

/// Whether the declarations of the top level namespace `ns` are laid out in
/// the tokens `ts` as `declarations_layout` says, from the first token, all
/// before the end of the file.
pub open spec fn program_layout(ts: Seq<TokenWithDebugInfo<Token>>, ns: Namespace) -> bool {
    exists|starts: Seq<int>, q: int|
        {
            &&& declarations_layout(ts, 0, starts, ns.functions@, ns.constants@, ns.structs@, ns.enums@, ns.sub_namespaces@)
            &&& 0 <= q < ts.len() && tok(ts, q) == SpecToken::EOF
            &&& forall|k: int| 0 <= k < starts.len() ==> #[trigger] starts[k] < q
        }
}

/// Parses a whole program: the top level namespace, up to the end of file.
pub fn parse(tokens: &Vec<TokenWithDebugInfo<Token>>) -> (res: Result<Ast, CompileError>)
    ensures
        res matches Ok(ast) ==> ast.program.internal_tok.id@ == "toplevel"@,
        empty_functions_until(tokens@, 0, true) ==> res is Ok,
        res matches Ok(ast) ==> program_layout(tokens@, ast.program.internal_tok),
{
    let (program, q) = parse_namespace(tokens, 0, true)?;
    let ast = Ast { program };
    proof {
        let starts = choose|starts: Seq<int>|
            {
                &&& declarations_layout(
                    tokens@,
                    0,
                    starts,
                    ast.program.internal_tok.functions@,
                    ast.program.internal_tok.constants@,
                    ast.program.internal_tok.structs@,
                    ast.program.internal_tok.enums@,
                    ast.program.internal_tok.sub_namespaces@,
                )
                &&& forall|k: int| 0 <= k < starts.len() ==> #[trigger] starts[k] < q
                &&& starts.len() == 0 ==> q == 0
            };
        assert(declarations_layout(
            tokens@,
            0,
            starts,
            ast.program.internal_tok.functions@,
            ast.program.internal_tok.constants@,
            ast.program.internal_tok.structs@,
            ast.program.internal_tok.enums@,
            ast.program.internal_tok.sub_namespaces@,
        ));
        let qi: int = q as int;
        assert(0 <= qi < tokens@.len() && tok(tokens@, qi) == SpecToken::EOF);
        assert(forall|k: int| 0 <= k < starts.len() ==> #[trigger] starts[k] < qi);
        assert(program_layout(tokens@, ast.program.internal_tok)) by {
            assert(declarations_layout(
                tokens@,
                0,
                starts,
                ast.program.internal_tok.functions@,
                ast.program.internal_tok.constants@,
                ast.program.internal_tok.structs@,
                ast.program.internal_tok.enums@,
                ast.program.internal_tok.sub_namespaces@,
            ) && 0 <= qi < tokens@.len() && tok(tokens@, qi) == SpecToken::EOF);
        }
    }
    Ok(ast)
}


// ---------------------------------------------------------------------------
// Literals as text.

/// The digit of value `d`, in lower case above 9.
pub open spec fn digit_char(d: nat) -> char {
    if d < 10 {
        ('0' as u8 + d) as char
    } else {
        ('a' as u8 + (d - 10)) as char
    }
}

/// The digits of `n` in base `base`, most significant first; `0` for zero.
pub open spec fn radix_text(n: nat, base: nat) -> Seq<char>
    recommends
        base >= 2,
    decreases n,
{
    if base < 2 || n < base {
        seq![digit_char(n)]
    } else {
        proof {
            assert(n / base < n) by (nonlinear_arith)
                requires
                    base >= 2,
                    n >= base,
            ;
        }
        radix_text(n / base, base) + seq![digit_char(n % base)]
    }
}

/// The text of a literal, as the compiler writes it: a bool as the value it
/// stands for (all ones or zero), an int in decimal, a hex or binary literal
/// by the digits of its 64 bits, a char literal between quotes, and a float
/// as it was written.
pub open spec fn literal_text(l: Literal) -> Seq<char> {
    match l {
        Literal::Bool(b) => if b {
            "0xFFFFFFFFFFFFFFFF"@
        } else {
            "0"@
        },
        Literal::Int(i) => if i < 0 {
            "-"@ + radix_text((-i) as nat, 10)
        } else {
            radix_text(i as nat, 10)
        },
        Literal::Float(f) => f@,
        Literal::Hex(h) => "0x"@ + radix_text((h as u64) as nat, 16),
        Literal::Binary(b) => "0b"@ + radix_text((b as u64) as nat, 2),
        Literal::Char(c) => "'"@ + c@ + "'"@,
    }
}

/// The digits of `n` in base `base` (see `radix_text`).
pub(crate) fn radix_string(n: u64, base: u64) -> (res: String)
    requires
        2 <= base <= 16,
    ensures
        res@ == radix_text(n as nat, base as nat),
{
    let mut m = n;
    let mut acc: Vec<char> = Vec::new();
    loop
        invariant_except_break
            2 <= base <= 16,
            radix_text(n as nat, base as nat) == radix_text(m as nat, base as nat) + acc@,
        ensures
            radix_text(n as nat, base as nat) == acc@,
        decreases m,
    {
        let d = m % base;
        assert(d < base) by (nonlinear_arith)
            requires
                d == m % base,
                base >= 2,
        ;
        let c = if d < 10 {
            (('0' as u8) + (d as u8)) as char
        } else {
            (('a' as u8) + ((d - 10) as u8)) as char
        };
        assert(c == digit_char(d as nat));
        let ghost old_acc = acc@;
        acc.insert(0, c);
        assert(acc@ =~= seq![c] + old_acc);
        if m < base {
            assert(radix_text(m as nat, base as nat) == seq![digit_char(m as nat)]);
            assert(d == m) by (nonlinear_arith)
                requires
                    d == m % base,
                    m < base,
            ;
            assert(radix_text(n as nat, base as nat) =~= acc@);
            break ;
        }
        let next = m / base;
        assert(next < m) by (nonlinear_arith)
            requires
                next == m / base,
                base >= 2,
                m >= base,
        ;
        assert(radix_text(m as nat, base as nat) == radix_text(next as nat, base as nat) + seq![
            digit_char(d as nat),
        ]);
        assert(radix_text(n as nat, base as nat) =~= radix_text(next as nat, base as nat) + acc@);
        m = next;
    }
    crate::text::string_from_chars(acc.as_slice())
}

impl Literal {
    /// The text of the literal (see `literal_text`).
    pub fn to_text(&self) -> (res: String)
        ensures
            res@ == literal_text(*self),
    {
        match self {
            Literal::Bool(b) => if *b {
                String::from_str("0xFFFFFFFFFFFFFFFF")
            } else {
                String::from_str("0")
            },
            Literal::Int(i) => {
                if *i < 0 {
                    let magnitude: u64 = if *i == i64::MIN {
                        9223372036854775808u64
                    } else {
                        (-*i) as u64
                    };
                    let digits = radix_string(magnitude, 10);
                    crate::text::concat("-", digits.as_str())
                } else {
                    radix_string(*i as u64, 10)
                }
            },
            Literal::Float(f) => f.clone(),
            Literal::Hex(h) => {
                let digits = radix_string(*h as u64, 16);
                crate::text::concat("0x", digits.as_str())
            },
            Literal::Binary(b) => {
                let digits = radix_string(*b as u64, 2);
                crate::text::concat("0b", digits.as_str())
            },
            Literal::Char(c) => {
                let s = crate::text::concat("'", c.as_str());
                crate::text::concat(s.as_str(), "'")
            },
        }
    }
}

} // verus!
