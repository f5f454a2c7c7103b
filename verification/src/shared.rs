//! Types shared by every stage of the compiler: source positions, the
//! type language of DPL, typed AST nodes and compile errors.
use vstd::prelude::*;

use crate::lexer::Token;
use crate::text::same_text;

verus! {

/// A value together with the place in the source where it was found.
#[derive(Debug, Clone)]
pub struct TokenWithDebugInfo<T> {
    pub internal_tok: T,
    pub line: usize,
    pub file: String,
}

/// The types of the DPL language.
#[derive(Debug)]
pub enum Type {
    Int,
    Float,
    Void,
    Char,
    Bool,
    Pointer(Box<TokenWithDebugInfo<Type>>),
    /// `array[T]`; strings are `array[char]`.
    Array(Box<TokenWithDebugInfo<Type>>),
    Struct(String),
    Enum(String),
    Namespace(String, Box<TokenWithDebugInfo<Type>>),
    GenericBinding(String, Vec<TokenWithDebugInfo<Type>>),
}

/// An AST node with the type that the checker gave it.
#[derive(Debug)]
pub struct Typed<T> {
    pub expr: T,
    pub type_: Type,
}

impl<T> Typed<T> {
    /// A node that carries no type yet: its type is `void`.
    pub fn new(expr: T) -> (res: Self)
        ensures
            res.expr == expr,
            res.type_ == Type::Void,
    {
        Typed { expr, type_: Type::Void }
    }

    pub fn new_with_type(expr: T, type_: Type) -> (res: Self)
        ensures
            res.expr == expr,
            res.type_ == type_,
    {
        Typed { expr, type_ }
    }

    pub fn get_type(&self) -> (res: &Type)
        ensures
            *res == self.type_,
    {
        &self.type_
    }
}

/// What went wrong, as the compiler reports it.
#[derive(Debug, Clone)]
pub enum ErrorMessage {
    /// A plain message.
    Text(String),
    /// `Expected <what>, found: <token>`.
    Expected(String, Token),
}

/// A compile error, located at a line of a source file.
#[derive(Debug, Clone)]
pub struct CompileError {
    pub file: String,
    pub line: usize,
    pub message: ErrorMessage,
}

/// The report of the message `message` for an error at line `line` of
/// `file`: `FILE:LINE: MESSAGE`.
pub open spec fn report_text(file: Seq<char>, line: usize, message: Seq<char>) -> Seq<char> {
    file + ":"@ + crate::ast_build::radix_text(line as nat, 10) + ": "@ + message
}

impl CompileError {
    /// How the compiler reports this error with the message text `message`
    /// (the text of `self.message`): `FILE:LINE: MESSAGE`.
    pub fn located_message(&self, message: &str) -> (res: String)
        ensures
            res@ == report_text(self.file@, self.line, message@),
    {
        let s = crate::text::concat(self.file.as_str(), ":");
        let s = crate::text::concat(s.as_str(), crate::logic_checker::number_text(self.line).as_str());
        let s = crate::text::concat(s.as_str(), ": ");
        crate::text::concat(s.as_str(), message)
    }
}

/// The error `msg`, located where `token` was found.
pub fn error<T>(msg: &str, token: &TokenWithDebugInfo<T>) -> (res: CompileError)
    ensures
        res.file == token.file,
        res.line == token.line,
        res.message matches ErrorMessage::Text(m) && m@ == msg@,
{
    CompileError {
        file: token.file.clone(),
        line: token.line,
        message: ErrorMessage::Text(String::from_str(msg)),
    }
}

/// The error `Expected <expected>, found: <token>`, located where `token`
/// was found.
pub fn error_unexpected_token(expected: &str, token: &TokenWithDebugInfo<Token>) -> (res:
    CompileError)
    ensures
        res.file == token.file,
        res.line == token.line,
        res.message matches ErrorMessage::Expected(e, t) && e@ == expected@ && t@
            == token.internal_tok@,
{
    CompileError {
        file: token.file.clone(),
        line: token.line,
        message: ErrorMessage::Expected(String::from_str(expected), token.internal_tok.duplicate()),
    }
}


/// Whether two types are the same type: the places where they were written
/// are not part of it, and names are compared by their characters.
pub open spec fn same_type(a: Type, b: Type) -> bool
    decreases a, 1nat, 0int,
{
    match (a, b) {
        (Type::Int, Type::Int) => true,
        (Type::Float, Type::Float) => true,
        (Type::Void, Type::Void) => true,
        (Type::Char, Type::Char) => true,
        (Type::Bool, Type::Bool) => true,
        (Type::Pointer(x), Type::Pointer(y)) => same_type(x.internal_tok, y.internal_tok),
        (Type::Array(x), Type::Array(y)) => same_type(x.internal_tok, y.internal_tok),
        (Type::Struct(x), Type::Struct(y)) => x@ == y@,
        (Type::Enum(x), Type::Enum(y)) => x@ == y@,
        (Type::Namespace(n, x), Type::Namespace(m, y)) => n@ == m@ && same_type(
            x.internal_tok,
            y.internal_tok,
        ),
        (Type::GenericBinding(n, xs), Type::GenericBinding(m, ys)) => n@ == m@ && xs@.len()
            == ys@.len() && same_types(xs@, ys@, xs@.len() as int),
        _ => false,
    }
}

/// Whether the first `k` types of two lists are the same types, index by
/// index.
pub open spec fn same_types(xs: Seq<TokenWithDebugInfo<Type>>, ys: Seq<TokenWithDebugInfo<Type>>, k: int) -> bool
    decreases xs, 0nat, k,
{
    if k <= 0 || k > xs.len() || k > ys.len() {
        k <= 0
    } else {
        same_types(xs, ys, k - 1) && same_type(xs[k - 1].internal_tok, ys[k - 1].internal_tok)
    }
}

/// Whether the types `a` and `b` are the same type.
pub fn types_equal(a: &Type, b: &Type) -> (res: bool)
    ensures
        res == same_type(*a, *b),
    decreases a,
{
    match (a, b) {
        (Type::Int, Type::Int) => true,
        (Type::Float, Type::Float) => true,
        (Type::Void, Type::Void) => true,
        (Type::Char, Type::Char) => true,
        (Type::Bool, Type::Bool) => true,
        (Type::Pointer(x), Type::Pointer(y)) => types_equal(&x.internal_tok, &y.internal_tok),
        (Type::Array(x), Type::Array(y)) => types_equal(&x.internal_tok, &y.internal_tok),
        (Type::Struct(x), Type::Struct(y)) => same_text(x.as_str(), y.as_str()),
        (Type::Enum(x), Type::Enum(y)) => same_text(x.as_str(), y.as_str()),
        (Type::Namespace(n, x), Type::Namespace(m, y)) => same_text(n.as_str(), m.as_str()) && types_equal(
            &x.internal_tok,
            &y.internal_tok,
        ),
        (Type::GenericBinding(n, xs), Type::GenericBinding(m, ys)) => same_text(n.as_str(), m.as_str())
            && xs.len() == ys.len() && all_types_equal(xs, ys),
        _ => false,
    }
}

/// Whether two lists of the same length hold the same types, index by index.
fn all_types_equal(xs: &Vec<TokenWithDebugInfo<Type>>, ys: &Vec<TokenWithDebugInfo<Type>>) -> (res:
    bool)
    requires
        xs@.len() == ys@.len(),
    ensures
        res == same_types(xs@, ys@, xs@.len() as int),
    decreases xs,
{
    let mut r = true;
    let mut i: usize = 0;
    while i < xs.len()
        invariant
            i <= xs@.len(),
            xs@.len() == ys@.len(),
            r == same_types(xs@, ys@, i as int),
        decreases xs@.len() - i,
    {
        assert(decreases_to!(xs => xs@[i as int]));
        let e = types_equal_info(&xs[i], &ys[i]);
        r = r && e;
        i = i + 1;
    }
    r
}

/// Whether two types with their debug information are the same type.
fn types_equal_info(a: &TokenWithDebugInfo<Type>, b: &TokenWithDebugInfo<Type>) -> (res: bool)
    ensures
        res == same_type(a.internal_tok, b.internal_tok),
    decreases a,
{
    types_equal(&a.internal_tok, &b.internal_tok)
}

/// The text of the type `t`: `int`, `float`, `void`, `char`, `bool`, `*T`,
/// `[T]`, a struct's or an enum's name, `n::T`, and `S<T1, T2>`.
pub open spec fn type_text(t: Type) -> Seq<char>
    decreases t, 1nat,
{
    match t {
        Type::Int => "int"@,
        Type::Float => "float"@,
        Type::Void => "void"@,
        Type::Char => "char"@,
        Type::Bool => "bool"@,
        Type::Pointer(x) => "*"@ + type_text(x.internal_tok),
        Type::Array(x) => "["@ + type_text(x.internal_tok) + "]"@,
        Type::Struct(n) => n@,
        Type::Enum(n) => n@,
        Type::Namespace(n, x) => n@ + "::"@ + type_text(x.internal_tok),
        Type::GenericBinding(n, xs) => n@ + "<"@ + types_text(xs@, xs@.len() as int) + ">"@,
    }
}

/// The texts of the first `k` types of `xs`, with `, ` between them.
pub open spec fn types_text(xs: Seq<TokenWithDebugInfo<Type>>, k: int) -> Seq<char>
    decreases xs, 0nat, k,
{
    if k <= 0 || k > xs.len() {
        Seq::empty()
    } else if k == 1 {
        type_text(xs[0].internal_tok)
    } else {
        types_text(xs, k - 1) + ", "@ + type_text(xs[k - 1].internal_tok)
    }
}

/// Appends `t` to `s`.
fn append_text(s: &mut String, t: &str)
    ensures
        final(s)@ == old(s)@ + t@,
{
    s.append(t);
}

/// The text of the type `t` (see `type_text`).
pub fn type_to_string(t: &Type) -> (res: String)
    ensures
        res@ == type_text(*t),
    decreases t,
{
    match t {
        Type::Int => String::from_str("int"),
        Type::Float => String::from_str("float"),
        Type::Void => String::from_str("void"),
        Type::Char => String::from_str("char"),
        Type::Bool => String::from_str("bool"),
        Type::Pointer(x) => {
            let inner = type_to_string(&x.internal_tok);
            let mut s = String::from_str("*");
            append_text(&mut s, inner.as_str());
            s
        },
        Type::Array(x) => {
            let inner = type_to_string(&x.internal_tok);
            let mut s = String::from_str("[");
            append_text(&mut s, inner.as_str());
            append_text(&mut s, "]");
            s
        },
        Type::Struct(n) => n.clone(),
        Type::Enum(n) => n.clone(),
        Type::Namespace(n, x) => {
            let inner = type_to_string(&x.internal_tok);
            let mut s = n.clone();
            append_text(&mut s, "::");
            append_text(&mut s, inner.as_str());
            s
        },
        Type::GenericBinding(n, xs) => {
            let inner = types_to_string(xs);
            let mut s = n.clone();
            append_text(&mut s, "<");
            append_text(&mut s, inner.as_str());
            append_text(&mut s, ">");
            s
        },
    }
}


/// The texts of the types of `xs`, with `, ` between them.
fn types_to_string(xs: &Vec<TokenWithDebugInfo<Type>>) -> (res: String)
    ensures
        res@ == types_text(xs@, xs@.len() as int),
    decreases xs,
{
    let mut s = String::new();
    let mut i: usize = 0;
    while i < xs.len()
        invariant
            i <= xs@.len(),
            s@ == types_text(xs@, i as int),
        decreases xs@.len() - i,
    {
        assert(decreases_to!(xs => xs@[i as int]));
        let inner = type_info_to_string(&xs[i]);
        if i > 0 {
            append_text(&mut s, ", ");
        }
        append_text(&mut s, inner.as_str());
        proof {
            if i == 0 {
                assert(s@ == inner@);
            }
        }
        i = i + 1;
    }
    s
}

/// The text of a type with its debug information.
fn type_info_to_string(t: &TokenWithDebugInfo<Type>) -> (res: String)
    ensures
        res@ == type_text(t.internal_tok),
    decreases t,
{
    type_to_string(&t.internal_tok)
}


/// Every type is the same type as itself.
pub proof fn lemma_same_type_reflexive(t: Type)
    ensures
        same_type(t, t),
    decreases t, 1nat, 0int,
{
    match t {
        Type::Pointer(x) => lemma_same_type_reflexive(x.internal_tok),
        Type::Array(x) => lemma_same_type_reflexive(x.internal_tok),
        Type::Namespace(_, x) => lemma_same_type_reflexive(x.internal_tok),
        Type::GenericBinding(_, xs) => {
            assert(decreases_to!(t => xs@));
            lemma_same_types_reflexive(xs@, xs@.len() as int);
        },
        _ => {},
    }
}

/// Every list of types holds the same types as itself.
pub proof fn lemma_same_types_reflexive(xs: Seq<TokenWithDebugInfo<Type>>, k: int)
    requires
        0 <= k <= xs.len(),
    ensures
        same_types(xs, xs, k),
    decreases xs, 0nat, k,
{
    if k > 0 {
        lemma_same_types_reflexive(xs, k - 1);
        lemma_same_type_reflexive(xs[k - 1].internal_tok);
    }
}

/// Being the same type is symmetric.
pub proof fn lemma_same_type_symmetric(a: Type, b: Type)
    requires
        same_type(a, b),
    ensures
        same_type(b, a),
    decreases a, 1nat, 0int,
{
    match (a, b) {
        (Type::Pointer(x), Type::Pointer(y)) => lemma_same_type_symmetric(x.internal_tok, y.internal_tok),
        (Type::Array(x), Type::Array(y)) => lemma_same_type_symmetric(x.internal_tok, y.internal_tok),
        (Type::Namespace(_, x), Type::Namespace(_, y)) => lemma_same_type_symmetric(
            x.internal_tok,
            y.internal_tok,
        ),
        (Type::GenericBinding(_, xs), Type::GenericBinding(_, ys)) => {
            assert(decreases_to!(a => xs@));
            lemma_same_types_symmetric(xs@, ys@, xs@.len() as int);
        },
        _ => {},
    }
}

/// Holding the same types is symmetric.
pub proof fn lemma_same_types_symmetric(xs: Seq<TokenWithDebugInfo<Type>>, ys: Seq<TokenWithDebugInfo<Type>>, k: int)
    requires
        0 <= k <= xs.len(),
        k <= ys.len(),
        same_types(xs, ys, k),
    ensures
        same_types(ys, xs, k),
    decreases xs, 0nat, k,
{
    if k > 0 {
        lemma_same_types_symmetric(xs, ys, k - 1);
        lemma_same_type_symmetric(xs[k - 1].internal_tok, ys[k - 1].internal_tok);
    }
}

/// Being the same type is transitive.
pub proof fn lemma_same_type_transitive(a: Type, b: Type, c: Type)
    requires
        same_type(a, b),
        same_type(b, c),
    ensures
        same_type(a, c),
    decreases a, 1nat, 0int,
{
    match (a, b, c) {
        (Type::Pointer(x), Type::Pointer(y), Type::Pointer(z)) => lemma_same_type_transitive(
            x.internal_tok,
            y.internal_tok,
            z.internal_tok,
        ),
        (Type::Array(x), Type::Array(y), Type::Array(z)) => lemma_same_type_transitive(
            x.internal_tok,
            y.internal_tok,
            z.internal_tok,
        ),
        (Type::Namespace(_, x), Type::Namespace(_, y), Type::Namespace(_, z)) => lemma_same_type_transitive(
            x.internal_tok,
            y.internal_tok,
            z.internal_tok,
        ),
        (Type::GenericBinding(_, xs), Type::GenericBinding(_, ys), Type::GenericBinding(_, zs)) => {
            assert(decreases_to!(a => xs@));
            lemma_same_types_transitive(xs@, ys@, zs@, xs@.len() as int);
        },
        _ => {},
    }
}

/// Holding the same types is transitive.
pub proof fn lemma_same_types_transitive(
    xs: Seq<TokenWithDebugInfo<Type>>,
    ys: Seq<TokenWithDebugInfo<Type>>,
    zs: Seq<TokenWithDebugInfo<Type>>,
    k: int,
)
    requires
        0 <= k <= xs.len(),
        k <= ys.len(),
        k <= zs.len(),
        same_types(xs, ys, k),
        same_types(ys, zs, k),
    ensures
        same_types(xs, zs, k),
    decreases xs, 0nat, k,
{
    if k > 0 {
        lemma_same_types_transitive(xs, ys, zs, k - 1);
        lemma_same_type_transitive(xs[k - 1].internal_tok, ys[k - 1].internal_tok, zs[k - 1].internal_tok);
    }
}

} // verus!
