//! The checker: resolves names, gives each node of the AST its type, checks
//! the typing rules of the language and instantiates generic functions and
//! structs. A checked program is a single namespace that holds every
//! function, constant, struct and enum, under names qualified by their
//! namespace path (`toplevel::a::f`).
use vstd::prelude::*;

use crate::ast_build::{
    radix_string, radix_text, clone_expression, clone_expression_info, clone_name, clone_names, clone_type, clone_type_info,
    clone_typed_literal, clone_typed_statement, AssignmentIdentifier, AssignmentOp, Ast, Atom, BinOp, Constant, Enum,
    Expression, Function, Literal, Namespace, ReassignmentIdentifier, Statement, Struct, UnOp,
};
use crate::names::{lemma_lookup_append, lemma_lookup_entry, Names};
use crate::shared::{
    error, same_type, type_text, type_to_string, types_equal, CompileError, ErrorMessage,
    TokenWithDebugInfo, Type, Typed,
};
use crate::text::{
    concat, contains_double_colon, has_double_colon, same_text, sanitize, sanitized,
    starts_with_text,
};

verus! {

/// The signature of a function: its return type and the types of its
/// arguments.
pub struct Signature {
    pub return_type: Type,
    pub args: Vec<Type>,
}

/// The members of a struct: in declaration order, and by name.
pub struct StructLayout {
    pub ordered: Vec<(String, Type)>,
    pub members: Names<Type>,
}

/// A generic struct: its members and the names of its type parameters.
pub struct GenericStruct {
    pub ordered: Vec<(String, Type)>,
    pub members: Names<Type>,
    pub generics: Vec<String>,
}

/// What a program declares, in all its namespaces, under qualified names.
pub struct Declarations {
    pub concrete_functions: Names<Signature>,
    pub generic_functions: Names<Function>,
    pub concrete_structs: Names<StructLayout>,
    pub generic_structs: Names<GenericStruct>,
    pub enums: Names<Vec<String>>,
    pub constants: Names<Type>,
}

/// What the checker knows at a point of the program: the namespace it is
/// in, the program's declarations, and what has been added to them here
/// (variables in scope, instantiated generics, array dimensions and the
/// types that the type parameters of a generic stand for).
pub struct Context<'a> {
    pub namespace: String,
    pub namespace_root: String,
    pub declared: &'a Declarations,
    pub variables: Names<Type>,
    pub concrete_functions: Names<Signature>,
    pub concrete_structs: Names<StructLayout>,
    pub enums: Names<Vec<String>>,
    pub array_dims: Names<Vec<Expression>>,
    pub generics_bindings: Names<Type>,
}

/// The sizes of the tables of a context, to go back to.
pub struct Mark {
    pub variables: usize,
    pub concrete_functions: usize,
    pub concrete_structs: usize,
    pub enums: usize,
    pub array_dims: usize,
}

impl<'a> Context<'a> {
    /// The type of the variable or constant `k`.
    pub open spec fn variable_type(&self, k: Seq<char>) -> Option<Type> {
        match self.variables.value_of(k) {
            Some(t) => Some(t),
            None => self.declared.constants.value_of(k),
        }
    }

    /// The signature of the concrete function `k`.
    pub open spec fn function_signature(&self, k: Seq<char>) -> Option<Signature> {
        match self.concrete_functions.value_of(k) {
            Some(s) => Some(s),
            None => self.declared.concrete_functions.value_of(k),
        }
    }

    /// The layout of the concrete struct `k`.
    pub open spec fn struct_layout(&self, k: Seq<char>) -> Option<StructLayout> {
        match self.concrete_structs.value_of(k) {
            Some(s) => Some(s),
            None => self.declared.concrete_structs.value_of(k),
        }
    }

    /// The variants of the enum `k`.
    pub open spec fn enum_variants(&self, k: Seq<char>) -> Option<Vec<String>> {
        match self.enums.value_of(k) {
            Some(v) => Some(v),
            None => self.declared.enums.value_of(k),
        }
    }

    /// Whether `self` is `old` with entries added to its tables, in the same
    /// namespace and over the same declarations.
    pub open spec fn extends(&self, old: &Context<'a>) -> bool {
        &&& self.namespace == old.namespace
        &&& self.namespace_root == old.namespace_root
        &&& self.declared == old.declared
        &&& is_prefix(old.variables.entries@, self.variables.entries@)
        &&& self.concrete_functions.entries@.len() >= old.concrete_functions.entries@.len()
        &&& self.concrete_structs.entries@.len() >= old.concrete_structs.entries@.len()
        &&& self.enums.entries@.len() >= old.enums.entries@.len()
        &&& is_prefix(old.array_dims.entries@, self.array_dims.entries@)
    }

    /// The type of the variable or constant `k`.
    pub fn get_variable(&self, k: &str) -> (res: Option<&Type>)
        ensures
            res matches Some(t) ==> self.variable_type(k@) == Some(*t),
            res is None <==> self.variable_type(k@) is None,
    {
        match self.variables.get(k) {
            Some(t) => Some(t),
            None => self.declared.constants.get(k),
        }
    }

    /// The signature of the concrete function `k`.
    pub fn get_function(&self, k: &str) -> (res: Option<&Signature>)
        ensures
            res matches Some(s) ==> self.function_signature(k@) == Some(*s),
            res is None <==> self.function_signature(k@) is None,
    {
        match self.concrete_functions.get(k) {
            Some(s) => Some(s),
            None => self.declared.concrete_functions.get(k),
        }
    }

    /// The layout of the concrete struct `k`.
    pub fn get_struct(&self, k: &str) -> (res: Option<&StructLayout>)
        ensures
            res matches Some(s) ==> self.struct_layout(k@) == Some(*s),
            res is None <==> self.struct_layout(k@) is None,
    {
        match self.concrete_structs.get(k) {
            Some(s) => Some(s),
            None => self.declared.concrete_structs.get(k),
        }
    }

    /// The variants of the enum `k`.
    pub fn get_enum(&self, k: &str) -> (res: Option<&Vec<String>>)
        ensures
            res matches Some(v) ==> self.enum_variants(k@) == Some(*v),
            res is None <==> self.enum_variants(k@) is None,
    {
        match self.enums.get(k) {
            Some(v) => Some(v),
            None => self.declared.enums.get(k),
        }
    }

    /// The sizes of the tables, to go back to with `restore`.
    pub fn mark(&self) -> (res: Mark)
        ensures
            res.variables == self.variables.entries@.len(),
            res.concrete_functions == self.concrete_functions.entries@.len(),
            res.concrete_structs == self.concrete_structs.entries@.len(),
            res.enums == self.enums.entries@.len(),
            res.array_dims == self.array_dims.entries@.len(),
    {
        Mark {
            variables: self.variables.len(),
            concrete_functions: self.concrete_functions.len(),
            concrete_structs: self.concrete_structs.len(),
            enums: self.enums.len(),
            array_dims: self.array_dims.len(),
        }
    }

    /// Leaves a scope: drops what was added to the tables since `m` was
    /// taken, but the functions instantiated meanwhile when `keep_functions`.
    pub fn restore(&mut self, m: &Mark, keep_functions: bool)
        requires
            m.variables <= old(self).variables.entries@.len(),
            m.concrete_functions <= old(self).concrete_functions.entries@.len(),
            m.concrete_structs <= old(self).concrete_structs.entries@.len(),
            m.enums <= old(self).enums.entries@.len(),
            m.array_dims <= old(self).array_dims.entries@.len(),
        ensures
            final(self).namespace == old(self).namespace,
            final(self).namespace_root == old(self).namespace_root,
            final(self).declared == old(self).declared,
            final(self).generics_bindings == old(self).generics_bindings,
            final(self).variables.entries@ == old(self).variables.entries@.subrange(0, m.variables as int),
            final(self).concrete_structs.entries@ == old(self).concrete_structs.entries@.subrange(
                0,
                m.concrete_structs as int,
            ),
            final(self).enums.entries@ == old(self).enums.entries@.subrange(0, m.enums as int),
            final(self).array_dims.entries@ == old(self).array_dims.entries@.subrange(0, m.array_dims as int),
            keep_functions ==> final(self).concrete_functions == old(self).concrete_functions,
            !keep_functions ==> final(self).concrete_functions.entries@
                == old(self).concrete_functions.entries@.subrange(0, m.concrete_functions as int),
    {
        self.variables.truncate(m.variables);
        self.concrete_structs.truncate(m.concrete_structs);
        self.enums.truncate(m.enums);
        self.array_dims.truncate(m.array_dims);
        if !keep_functions {
            self.concrete_functions.truncate(m.concrete_functions);
        }
    }
}

/// Whether the variables in scope and the array dimensions are as they
/// were in `old`.
pub open spec fn scope_kept(old: &Context, new: &Context) -> bool {
    &&& new.variables.entries@ == old.variables.entries@
    &&& new.array_dims.entries@ == old.array_dims.entries@
}

/// Whether `a` is the beginning of `b`.
pub open spec fn is_prefix<V>(a: Seq<V>, b: Seq<V>) -> bool {
    a.len() <= b.len() && forall|i: int| 0 <= i < a.len() ==> #[trigger] b[i] == a[i]
}

/// Restoring a mark undoes what was added since: where a context has grown
/// (`extends`) from the context at which the mark `m` was taken, cutting its
/// tables back to `m` (as `restore` does) gives back that context's
/// variables and array dimensions, and so the same variable types.
pub proof fn lemma_restore_undoes<'a>(at_mark: &Context<'a>, later: &Context<'a>, m: Mark, restored: &Context<'a>)
    requires
        m.variables == at_mark.variables.entries@.len(),
        m.array_dims == at_mark.array_dims.entries@.len(),
        later.extends(at_mark),
        restored.declared == later.declared,
        restored.variables.entries@ == later.variables.entries@.subrange(0, m.variables as int),
        restored.array_dims.entries@ == later.array_dims.entries@.subrange(0, m.array_dims as int),
    ensures
        restored.variables.entries@ == at_mark.variables.entries@,
        restored.array_dims.entries@ == at_mark.array_dims.entries@,
        forall|k: Seq<char>| #[trigger] restored.variable_type(k) == at_mark.variable_type(k),
{
    assert(restored.variables.entries@ =~= at_mark.variables.entries@);
    assert(restored.array_dims.entries@ =~= at_mark.array_dims.entries@);
}

/// The name `id` as the namespace `ns` sees it: a name that holds `::` or
/// is `toplevel` is already complete, and any other is qualified by `ns`.
pub open spec fn qualified(ns: Seq<char>, id: Seq<char>) -> Seq<char> {
    if has_double_colon(id) || id == "toplevel"@ {
        id
    } else {
        ns + id
    }
}

/// The name `id` as the namespace `ns` sees it (see `qualified`).
pub fn qualify(ns: &String, id: &String) -> (res: String)
    ensures
        res@ == qualified(ns@, id@),
{
    if contains_double_colon(id.as_str()) || same_text(id.as_str(), "toplevel") {
        id.clone()
    } else {
        concat(ns.as_str(), id.as_str())
    }
}

/// The suffix that a list of type arguments adds to the name of a generic:
/// `..` and the text of each argument, its other characters than letters
/// and digits made `.`.
pub open spec fn binding_suffix(bindings: Seq<TokenWithDebugInfo<Type>>) -> Seq<char>
    decreases bindings.len(),
{
    if bindings.len() == 0 {
        Seq::empty()
    } else {
        binding_suffix(bindings.drop_last()) + ".."@ + sanitized(type_text(bindings.last().internal_tok))
    }
}

/// The name of the instance of the generic `name` for the type arguments
/// `bindings` (see `binding_suffix`).
pub fn mangle(name: &String, bindings: &Vec<TokenWithDebugInfo<Type>>) -> (res: String)
    ensures
        res@ == name@ + binding_suffix(bindings@),
{
    let mut s = name.clone();
    let mut i: usize = 0;
    while i < bindings.len()
        invariant
            i <= bindings@.len(),
            s@ == name@ + binding_suffix(bindings@.subrange(0, i as int)),
        decreases bindings@.len() - i,
    {
        let text = type_to_string(&bindings[i].internal_tok);
        let clean = sanitize(text.as_str());
        s.append("..");
        s.append(clean.as_str());
        assert(bindings@.subrange(0, i + 1).drop_last() =~= bindings@.subrange(0, i as int));
        i = i + 1;
    }
    assert(bindings@.subrange(0, bindings@.len() as int) =~= bindings@);
    s
}

/// The error for a program nested more deeply than the checker follows.
pub fn too_deep<T>(at: &TokenWithDebugInfo<T>) -> (res: CompileError)
    ensures
        res.line == at.line,
        res.file == at.file,
{
    error("Program nested too deeply to be checked", at)
}

/// The error `msg`, with `name` put between `before` and `after`.
fn error_with_name<T>(before: &str, name: &str, after: &str, at: &TokenWithDebugInfo<T>) -> (res:
    CompileError)
    ensures
        res.line == at.line,
        res.file == at.file,
        res.message matches ErrorMessage::Text(m) && m@ == before@ + name@ + after@,
{
    let m = concat(before, name);
    let m = concat(m.as_str(), after);
    CompileError { file: at.file.clone(), line: at.line, message: ErrorMessage::Text(m) }
}


/// Whether `t` is a type that names nothing: `int`, `float`, `char`, `bool`
/// or `void`.
pub open spec fn is_primitive(t: Type) -> bool {
    t is Int || t is Float || t is Char || t is Bool || t is Void
}

/// What resolving the qualified name `q` of a struct or an enum gives in
/// `ctx`: the struct of that name, or else the enum, or else an error.
pub open spec fn resolves_to(ctx: &Context, q: Seq<char>, res: Result<TokenWithDebugInfo<Type>, CompileError>) -> bool {
    if ctx.struct_layout(q) is Some {
        res matches Ok(r) && r.internal_tok matches Type::Struct(n) && n@ == q
    } else if ctx.enum_variants(q) is Some {
        res matches Ok(r) && r.internal_tok matches Type::Enum(n) && n@ == q
    } else {
        res is Err
    }
}

/// Whether `y` is the struct or the enum that the qualified name `q` names
/// in `ctx`, the struct first.
pub open spec fn name_resolved(ctx: &Context, q: Seq<char>, y: Type) -> bool {
    if ctx.struct_layout(q) is Some {
        y matches Type::Struct(n) && n@ == q
    } else if ctx.enum_variants(q) is Some {
        y matches Type::Enum(n) && n@ == q
    } else {
        false
    }
}

/// Whether `y` is what the element type `x` resolves to in `ctx`: a type
/// parameter the type it stands for, a struct or enum name what it names,
/// and a primitive type itself.
pub open spec fn element_resolved(ctx: &Context, x: Type, y: Type) -> bool {
    match x {
        Type::Struct(id) => match ctx.generics_bindings.value_of(id@) {
            Some(b) => same_type(y, b),
            None => name_resolved(ctx, qualified(ctx.namespace@, id@), y),
        },
        Type::Enum(id) => name_resolved(ctx, qualified(ctx.namespace@, id@), y),
        _ => is_primitive(x) ==> same_type(y, x),
    }
}

/// Whether `r` resolves the array or pointer type `t` one level down: the
/// same kind of type, around the resolved element (see `element_resolved`).
pub open spec fn inner_resolved(ctx: &Context, t: Type, r: Type) -> bool {
    match t {
        Type::Array(x) => r matches Type::Array(y) && element_resolved(ctx, x.internal_tok, y.internal_tok),
        Type::Pointer(x) => r matches Type::Pointer(y) && element_resolved(ctx, x.internal_tok, y.internal_tok),
        _ => true,
    }
}

/// Whether `t` is made of primitive types, arrays and pointers only, nested
/// at most `depth` times.
pub open spec fn plain_within(t: Type, depth: int) -> bool
    decreases t,
{
    match t {
        Type::Array(x) => depth > 0 && plain_within(x.internal_tok, depth - 1),
        Type::Pointer(x) => depth > 0 && plain_within(x.internal_tok, depth - 1),
        _ => is_primitive(t),
    }
}

/// Whether no two of `names` are the same and none is `len`.
pub open spec fn member_names_ok(names: Seq<(TokenWithDebugInfo<String>, TokenWithDebugInfo<Type>)>) -> bool {
    &&& forall|i: int, j: int|
        0 <= i < j < names.len() ==> (#[trigger] names[i]).0.internal_tok@ != (#[trigger] names[j]).0.internal_tok@
    &&& forall|i: int| 0 <= i < names.len() ==> (#[trigger] names[i]).0.internal_tok@ != "len"@
}

/// Resolves the names in the type `t`: a struct or enum name becomes the
/// qualified name of the struct or enum it names (or the type that a type
/// parameter stands for), a namespaced name is followed into its namespace,
/// and a generic struct with type arguments becomes the instance of it for
/// them, laid out on first use. Returns an error for a name that names
/// nothing.
pub fn check_if_struct_or_enum(ctx: &mut Context, t: &TokenWithDebugInfo<Type>, depth: usize) -> (res:
    Result<TokenWithDebugInfo<Type>, CompileError>)
    ensures
        final(ctx).extends(old(ctx)),
        scope_kept(old(ctx), final(ctx)),
        res matches Ok(r) ==> r.line == t.line && r.file == t.file,
        is_primitive(t.internal_tok) ==> (res matches Ok(r) && same_type(r.internal_tok, t.internal_tok)),
        plain_within(t.internal_tok, depth as int) ==> (res matches Ok(r) && same_type(r.internal_tok, t.internal_tok)),
        res matches Ok(r) ==> inner_resolved(old(ctx), t.internal_tok, r.internal_tok),
        t.internal_tok is Array ==> (res matches Ok(r) ==> r.internal_tok is Array),
        t.internal_tok is Pointer ==> (res matches Ok(r) ==> r.internal_tok is Pointer),
        t.internal_tok is GenericBinding ==> (res matches Ok(r) ==> r.internal_tok is Struct),
        t.internal_tok matches Type::Struct(id) ==> match old(ctx).generics_bindings.value_of(id@) {
            Some(b) => (res matches Ok(r) && same_type(r.internal_tok, b)),
            None => resolves_to(old(ctx), qualified(old(ctx).namespace@, id@), res),
        },
        t.internal_tok matches Type::Enum(id) ==> resolves_to(
            old(ctx),
            qualified(old(ctx).namespace@, id@),
            res,
        ),
    decreases depth,
{
    let (line, file) = (t.line, t.file.clone());
    match &t.internal_tok {
        Type::Struct(id) => {
            if let Some(b) = ctx.generics_bindings.get(id.as_str()) {
                return Ok(TokenWithDebugInfo { internal_tok: clone_type(b), line, file });
            }
            let q = qualify(&ctx.namespace, id);
            if ctx.get_struct(q.as_str()).is_some() {
                Ok(TokenWithDebugInfo { internal_tok: Type::Struct(q), line, file })
            } else if ctx.get_enum(q.as_str()).is_some() {
                Ok(TokenWithDebugInfo { internal_tok: Type::Enum(q), line, file })
            } else {
                Err(error_with_name("Type '", q.as_str(), "' not in scope", t))
            }
        },
        Type::Enum(id) => {
            let q = qualify(&ctx.namespace, id);
            if ctx.get_struct(q.as_str()).is_some() {
                Ok(TokenWithDebugInfo { internal_tok: Type::Struct(q), line, file })
            } else if ctx.get_enum(q.as_str()).is_some() {
                Ok(TokenWithDebugInfo { internal_tok: Type::Enum(q), line, file })
            } else {
                Err(error_with_name("Type '", q.as_str(), "' not in scope", t))
            }
        },
        Type::Int => Ok(TokenWithDebugInfo { internal_tok: Type::Int, line, file }),
        Type::Float => Ok(TokenWithDebugInfo { internal_tok: Type::Float, line, file }),
        Type::Char => Ok(TokenWithDebugInfo { internal_tok: Type::Char, line, file }),
        Type::Bool => Ok(TokenWithDebugInfo { internal_tok: Type::Bool, line, file }),
        Type::Void => Ok(TokenWithDebugInfo { internal_tok: Type::Void, line, file }),
        Type::Array(inner) => {
            if depth == 0 {
                return Err(too_deep(t));
            }
            let r = check_if_struct_or_enum(ctx, inner, depth - 1)?;
            Ok(TokenWithDebugInfo { internal_tok: Type::Array(Box::new(r)), line, file })
        },
        Type::Pointer(inner) => {
            if depth == 0 {
                return Err(too_deep(t));
            }
            let r = check_if_struct_or_enum(ctx, inner, depth - 1)?;
            Ok(TokenWithDebugInfo { internal_tok: Type::Pointer(Box::new(r)), line, file })
        },
        Type::Namespace(id, sub) => {
            if depth == 0 {
                return Err(too_deep(t));
            }
            // The namespace path: a path from `toplevel` is complete, any
            // other is taken from the current namespace.
            let prefix = if starts_with_text(id.as_str(), "toplevel") {
                concat(id.as_str(), "::")
            } else {
                let p = concat(ctx.namespace.as_str(), id.as_str());
                concat(p.as_str(), "::")
            };
            let next = match &sub.internal_tok {
                Type::Struct(sub_id) => Type::Struct(concat(prefix.as_str(), sub_id.as_str())),
                Type::Enum(sub_id) => Type::Enum(concat(prefix.as_str(), sub_id.as_str())),
                Type::Namespace(sub_id, sub_t) => {
                    let n = concat(prefix.as_str(), sub_id.as_str());
                    Type::Namespace(n, Box::new(clone_type_info(sub_t)))
                },
                _ => {
                    return Err(
                        error_with_name(
                            "Type '",
                            id.as_str(),
                            "' cannot be namespaced (only struct or enums may be)",
                            t,
                        ),
                    );
                },
            };
            check_if_struct_or_enum(ctx, &TokenWithDebugInfo { internal_tok: next, line, file }, depth - 1)
        },
        Type::GenericBinding(id, bindings) => {
            if depth == 0 {
                return Err(too_deep(t));
            }
            let declared = ctx.declared;
            let q = qualify(&ctx.namespace, id);
            let generic = match declared.generic_structs.get(q.as_str()) {
                Some(g) => g,
                None => return Err(error_with_name("Generic struct '", q.as_str(), "' not in scope", t)),
            };
            if generic.generics.len() != bindings.len() {
                return Err(
                    error_with_name(
                        "Generic struct '",
                        q.as_str(),
                        "' expects another number of generics than were provided",
                        t,
                    ),
                );
            }
            let mut new_bindings: Vec<TokenWithDebugInfo<Type>> = Vec::new();
            let mut i: usize = 0;
            while i < bindings.len()
                invariant
                    i <= bindings@.len(),
                    depth > 0,
                    t.internal_tok == Type::GenericBinding(*id, *bindings),
                    ctx.extends(old(ctx)),
                    scope_kept(old(ctx), ctx),
                    new_bindings@.len() == i,
                decreases bindings@.len() - i,
            {
                let b = check_if_struct_or_enum(ctx, &bindings[i], depth - 1)?;
                new_bindings.push(b);
                i = i + 1;
            }
            let instance = mangle(&q, &new_bindings);
            if ctx.get_struct(instance.as_str()).is_none() {
                let m = ctx.mark();
                let mut bound: Names<Type> = Names::new();
                let mut k: usize = 0;
                while k < generic.generics.len()
                    invariant
                        k <= generic.generics@.len(),
                        generic.generics@.len() == new_bindings@.len(),
                    decreases generic.generics@.len() - k,
                {
                    bound.insert(generic.generics[k].clone(), clone_type(&new_bindings[k].internal_tok));
                    k = k + 1;
                }
                std::mem::swap(&mut ctx.generics_bindings, &mut bound);
                // The instance is known while it is laid out, so that it can
                // refer to itself through pointers.
                ctx.concrete_structs.insert(
                    instance.clone(),
                    StructLayout { ordered: Vec::new(), members: Names::new() },
                );
                let mut members: Vec<(TokenWithDebugInfo<String>, TokenWithDebugInfo<Type>)> = Vec::new();
                let mut j: usize = 0;
                while j < generic.ordered.len()
                    invariant
                        j <= generic.ordered@.len(),
                    decreases generic.ordered@.len() - j,
                {
                    members.push(
                        (
                            TokenWithDebugInfo {
                                internal_tok: generic.ordered[j].0.clone(),
                                line,
                                file: file.clone(),
                            },
                            TokenWithDebugInfo {
                                internal_tok: clone_type(&generic.ordered[j].1),
                                line,
                                file: file.clone(),
                            },
                        ),
                    );
                    j = j + 1;
                }
                let laid_out = type_struct(
                    &TokenWithDebugInfo { internal_tok: instance.clone(), line, file: file.clone() },
                    &members,
                    &String::new(),
                    ctx,
                    depth - 1,
                );
                std::mem::swap(&mut ctx.generics_bindings, &mut bound);
                ctx.restore(&m, true);
                assert(ctx.variables.entries@ =~= old(ctx).variables.entries@);
                assert(ctx.array_dims.entries@ =~= old(ctx).array_dims.entries@);
                let (name, ordered, lookup) = laid_out?;
                ctx.concrete_structs.insert(name, StructLayout { ordered, members: lookup });
            }
            Ok(TokenWithDebugInfo { internal_tok: Type::Struct(instance), line, file })
        },
    }
}

/// Whether each of `members` has a primitive type.
pub open spec fn primitive_members(members: Seq<(TokenWithDebugInfo<String>, TokenWithDebugInfo<Type>)>) -> bool {
    forall|i: int| 0 <= i < members.len() ==> is_primitive(#[trigger] members[i].1.internal_tok)
}

/// Checks the members of a struct `id` of the namespace `namespace_path`:
/// no two may have the same name and none may be named `len`, which every
/// struct has. Returns the struct's qualified name and its members, with
/// their types resolved, in order and by name.
pub fn type_struct(
    id: &TokenWithDebugInfo<String>,
    members: &Vec<(TokenWithDebugInfo<String>, TokenWithDebugInfo<Type>)>,
    namespace_path: &String,
    ctx: &mut Context,
    depth: usize,
) -> (res: Result<(String, Vec<(String, Type)>, Names<Type>), CompileError>)
    ensures
        final(ctx).extends(old(ctx)),
        scope_kept(old(ctx), final(ctx)),
        res is Ok ==> member_names_ok(members@),
        res matches Ok((n, ordered, lookup)) ==> {
            &&& n@ == namespace_path@ + id.internal_tok@
            &&& ordered@.len() == members@.len()
            &&& forall|i: int|
                0 <= i < members@.len() ==> (#[trigger] ordered@[i]).0@ == members@[i].0.internal_tok@
            &&& primitive_members(members@) ==> forall|i: int|
                0 <= i < members@.len() ==> same_type((#[trigger] ordered@[i]).1, members@[i].1.internal_tok)
        },
        member_names_ok(members@) && primitive_members(members@) && (depth > 0 || members@.len() == 0) ==> res is Ok,
    decreases depth,
{
    let name = concat(namespace_path.as_str(), id.internal_tok.as_str());
    let mut i: usize = 0;
    while i < members.len()
        invariant
            i <= members@.len(),
            member_names_ok(members@.subrange(0, i as int)),
        decreases members@.len() - i,
    {
        let member = &members[i].0;
        let mut j: usize = 0;
        while j < i
            invariant
                j <= i < members@.len(),
                *member == members@[i as int].0,
                forall|k: int| 0 <= k < j ==> members@[k].0.internal_tok@ != members@[i as int].0.internal_tok@,
            decreases i - j,
        {
            if same_text(members[j].0.internal_tok.as_str(), member.internal_tok.as_str()) {
                let m = concat("Struct '", name.as_str());
                let m = concat(m.as_str(), "' has duplicate member '");
                return Err(error_with_name(m.as_str(), member.internal_tok.as_str(), "'", member));
            }
            j = j + 1;
        }
        if same_text(member.internal_tok.as_str(), "len") {
            return Err(
                error_with_name(
                    "Struct '",
                    name.as_str(),
                    "' has a member named 'len': 'len' is a reserved member name",
                    member,
                ),
            );
        }
        assert(members@.subrange(0, i + 1) =~= members@.subrange(0, i as int).push(members@[i as int]));
        i = i + 1;
    }
    assert(members@.subrange(0, members@.len() as int) =~= members@);
    let mut lookup: Names<Type> = Names::new();
    let mut ordered: Vec<(String, Type)> = Vec::new();
    let mut k: usize = 0;
    while k < members.len()
        invariant
            k <= members@.len(),
            ctx.extends(old(ctx)),
            scope_kept(old(ctx), ctx),
            ordered@.len() == k,
            forall|x: int| 0 <= x < k ==> (#[trigger] ordered@[x]).0@ == members@[x].0.internal_tok@,
            primitive_members(members@) ==> forall|x: int|
                0 <= x < k ==> same_type((#[trigger] ordered@[x]).1, members@[x].1.internal_tok),
        decreases members@.len() - k,
    {
        if depth == 0 {
            return Err(too_deep(&members[k].1));
        }
        let t = check_if_struct_or_enum(ctx, &members[k].1, depth - 1)?;
        assert(primitive_members(members@) ==> is_primitive(members@[k as int].1.internal_tok));
        lookup.insert(members[k].0.internal_tok.clone(), clone_type(&t.internal_tok));
        ordered.push((members[k].0.internal_tok.clone(), t.internal_tok));
        k = k + 1;
    }
    Ok((name, ordered, lookup))
}


// ---------------------------------------------------------------------------
// Typing rules.

/// The type of `l op r` for operands of the types `l` and `r`: arithmetic
/// on two ints or two floats, (in)equality of two values of one type,
/// ordering of two ints or two floats, logic on two bools, and bitwise
/// operations, shifts and the modulus on two ints. `None` where the rules
/// give the operation no type.
pub open spec fn binop_type(op: BinOp, l: Type, r: Type) -> Option<Type> {
    match op {
        BinOp::Add | BinOp::Subtract | BinOp::Multiply | BinOp::Divide => if l is Int && r is Int {
            Some(Type::Int)
        } else if l is Float && r is Float {
            Some(Type::Float)
        } else {
            None
        },
        BinOp::Equal | BinOp::NotEqual => if same_type(l, r) {
            Some(Type::Bool)
        } else {
            None
        },
        BinOp::LessThan | BinOp::LessOrEqualThan | BinOp::GreaterThan | BinOp::GreaterOrEqualThan => if same_type(
            l,
            r,
        ) && (l is Int || l is Float) {
            Some(Type::Bool)
        } else {
            None
        },
        BinOp::LogicalAnd | BinOp::LogicalOr | BinOp::LogicalXor => if l is Bool && r is Bool {
            Some(Type::Bool)
        } else {
            None
        },
        BinOp::LeftShift | BinOp::RightShift | BinOp::BitwiseAnd | BinOp::BitwiseOr | BinOp::BitwiseXor
        | BinOp::Modulus => if l is Int && r is Int {
            Some(Type::Int)
        } else {
            None
        },
        _ => None,
    }
}

/// Whether `typed` is what typing the expression `input` in `ctx` gave, as
/// far as it can be told without typing it again: a literal stays the same
/// literal, a variable in scope the same variable, and a binary operation
/// (other than an access) an operation of the same operator.
pub open spec fn keeps_operand(ctx: &Context, input: Expression, typed: Expression) -> bool {
    &&& literal_of(input) is Some ==> literal_of(typed) == literal_of(input)
    &&& variable_of(input) matches Some(v) ==> (ctx.variable_type(v) is Some ==> variable_of(typed) == Some(v))
    &&& input matches Expression::BinaryOp(_, _, op) ==> (op != BinOp::NamespaceAccess && op != BinOp::MemberAccess
        ==> (typed matches Expression::BinaryOp(_, _, o) && o == op))
}

/// The type of the operand `e` in `ctx`, where it types whatever the rest of
/// the program: a literal, or a variable in scope of a primitive type.
pub open spec fn operand_type(ctx: &Context, e: Expression) -> Option<Type> {
    match literal_of(e) {
        Some(l) => Some(literal_type(l)),
        None => match variable_of(e) {
            Some(v) => match ctx.variable_type(v) {
                Some(t) => if is_primitive(t) {
                    Some(t)
                } else {
                    None
                },
                None => None,
            },
            None => None,
        },
    }
}

/// The type of `e` in `ctx`, where it is a binary operation (other than an
/// access) on two operands (see `operand_type`) whose types go together.
pub open spec fn operation_type(ctx: &Context, e: Expression) -> Option<Type> {
    match e {
        Expression::BinaryOp(l, r, op) => if op != BinOp::NamespaceAccess && op != BinOp::MemberAccess && op
            != BinOp::NotABinaryOp && operand_type(ctx, l.expr.internal_tok) is Some && operand_type(
            ctx,
            r.expr.internal_tok,
        ) is Some {
            binop_type(op, operand_type(ctx, l.expr.internal_tok)->0, operand_type(ctx, r.expr.internal_tok)->0)
        } else {
            None
        },
        _ => None,
    }
}

/// The start of the error for operands of `op` whose types do not go
/// together.
pub open spec fn binop_message(op: BinOp) -> Seq<char> {
    match op {
        BinOp::Add | BinOp::Subtract | BinOp::Multiply | BinOp::Divide => "Invalid types for arithmetic operation: '"@,
        BinOp::Equal | BinOp::NotEqual | BinOp::LessThan | BinOp::LessOrEqualThan | BinOp::GreaterThan
        | BinOp::GreaterOrEqualThan => "Invalid types for comparison operation: '"@,
        BinOp::LogicalAnd | BinOp::LogicalOr | BinOp::LogicalXor => "Invalid types for logical operation: '"@,
        _ => "Invalid types for bitwise operation: '"@,
    }
}

/// Whether `result` is the type of `op e` for an operand of the type `t`:
/// the arithmetic prefixes keep an int or a float, `!` keeps a bool, `*`
/// takes a pointer to what it points to, and `&` makes a pointer to `t`.
pub open spec fn unop_rule(op: UnOp, t: Type, result: Type) -> bool {
    match op {
        UnOp::UnaryMinus | UnOp::UnaryPlus | UnOp::BitwiseNot | UnOp::PreIncrement | UnOp::PreDecrement => (t is Int
            && result is Int) || (t is Float && result is Float),
        UnOp::LogicalNot => t is Bool && result is Bool,
        UnOp::Dereference => t matches Type::Pointer(inner) && same_type(result, inner.internal_tok),
        UnOp::AddressOf => result matches Type::Pointer(inner) && same_type(inner.internal_tok, t),
        UnOp::NotAUnaryOp => false,
    }
}

/// Whether the unary operator `op` applies to an operand of type `t`.
pub open spec fn unop_applies(op: UnOp, t: Type) -> bool {
    match op {
        UnOp::UnaryMinus | UnOp::UnaryPlus | UnOp::BitwiseNot | UnOp::PreIncrement | UnOp::PreDecrement => t is Int
            || t is Float,
        UnOp::LogicalNot => t is Bool,
        UnOp::Dereference => t is Pointer,
        UnOp::AddressOf => true,
        UnOp::NotAUnaryOp => false,
    }
}

/// The type of `op a` for an operand `a` of type `t` (see `unop_rule`),
/// located at `line` of `file` where it is a new pointer type; `None` where
/// the operator does not apply.
pub fn unop_result(op: UnOp, t: &Type, line: usize, file: &String) -> (res: Option<Type>)
    ensures
        res is Some <==> unop_applies(op, *t),
        res matches Some(r) ==> unop_rule(op, *t, r),
{
    match op {
        UnOp::UnaryMinus | UnOp::UnaryPlus | UnOp::BitwiseNot | UnOp::PreIncrement | UnOp::PreDecrement => {
            match t {
                Type::Int => Some(Type::Int),
                Type::Float => Some(Type::Float),
                _ => None,
            }
        },
        UnOp::LogicalNot => match t {
            Type::Bool => Some(Type::Bool),
            _ => None,
        },
        UnOp::Dereference => match t {
            Type::Pointer(p) => Some(clone_type(&p.internal_tok)),
            _ => None,
        },
        UnOp::AddressOf => Some(
            Type::Pointer(Box::new(TokenWithDebugInfo { internal_tok: clone_type(t), line, file: file.clone() })),
        ),
        UnOp::NotAUnaryOp => None,
    }
}

/// Whether the assignment operator `op` may assign to a target of type `t`
/// (a value of the same type): `=` to any, the arithmetic ones to an int or
/// a float, and the bitwise ones, the shifts and `%=` to an int.
pub open spec fn assignment_allowed(op: AssignmentOp, t: Type) -> bool {
    match op {
        AssignmentOp::Assign => true,
        AssignmentOp::AddAssign | AssignmentOp::SubtractAssign | AssignmentOp::MultiplyAssign
        | AssignmentOp::DivideAssign => t is Int || t is Float,
        AssignmentOp::BitwiseAndAssign | AssignmentOp::BitwiseOrAssign | AssignmentOp::BitwiseXorAssign
        | AssignmentOp::LeftShiftAssign | AssignmentOp::RightShiftAssign | AssignmentOp::ModulusAssign => t is Int,
        AssignmentOp::NotAnAssignmentOp => false,
    }
}

/// The type of `l op r` (see `binop_type`).
pub fn binop_result(op: BinOp, l: &Type, r: &Type) -> (res: Option<Type>)
    ensures
        res is Some <==> binop_type(op, *l, *r) is Some,
        res matches Some(t) ==> same_type(t, binop_type(op, *l, *r)->0),
{
    let int_int = matches!(l, Type::Int) && matches!(r, Type::Int);
    let float_float = matches!(l, Type::Float) && matches!(r, Type::Float);
    match op {
        BinOp::Add | BinOp::Subtract | BinOp::Multiply | BinOp::Divide => if int_int {
            Some(Type::Int)
        } else if float_float {
            Some(Type::Float)
        } else {
            None
        },
        BinOp::Equal | BinOp::NotEqual => if types_equal(l, r) {
            Some(Type::Bool)
        } else {
            None
        },
        BinOp::LessThan | BinOp::LessOrEqualThan | BinOp::GreaterThan | BinOp::GreaterOrEqualThan => if types_equal(
            l,
            r,
        ) && (matches!(l, Type::Int) || matches!(l, Type::Float)) {
            Some(Type::Bool)
        } else {
            None
        },
        BinOp::LogicalAnd | BinOp::LogicalOr | BinOp::LogicalXor => if matches!(l, Type::Bool) && matches!(
            r,
            Type::Bool
        ) {
            Some(Type::Bool)
        } else {
            None
        },
        BinOp::LeftShift | BinOp::RightShift | BinOp::BitwiseAnd | BinOp::BitwiseOr | BinOp::BitwiseXor
        | BinOp::Modulus => if int_int {
            Some(Type::Int)
        } else {
            None
        },
        _ => None,
    }
}

/// The decimal digits of `n`.
pub fn number_text(n: usize) -> (res: String)
    ensures
        res@ == radix_text(n as nat, 10),
{
    radix_string(n as u64, 10)
}

/// A copy of a signature.
pub fn clone_signature(s: &Signature) -> (res: Signature)
    ensures
        same_type(res.return_type, s.return_type),
        res.args@.len() == s.args@.len(),
        forall|i: int| 0 <= i < s.args@.len() ==> #[trigger] same_type(res.args@[i], s.args@[i]),
{
    let mut args: Vec<Type> = Vec::new();
    let mut i: usize = 0;
    while i < s.args.len()
        invariant
            i <= s.args@.len(),
            args@.len() == i,
            forall|j: int| 0 <= j < i ==> #[trigger] same_type(args@[j], s.args@[j]),
        decreases s.args@.len() - i,
    {
        args.push(clone_type(&s.args[i]));
        i = i + 1;
    }
    Signature { return_type: clone_type(&s.return_type), args }
}

/// A copy of a list of named and typed parameters.
pub fn clone_params(v: &Vec<(TokenWithDebugInfo<String>, TokenWithDebugInfo<Type>)>) -> (res: Vec<
    (TokenWithDebugInfo<String>, TokenWithDebugInfo<Type>),
>)
    ensures
        res@.len() == v@.len(),
        forall|i: int|
            0 <= i < v@.len() ==> (#[trigger] res@[i]).0.internal_tok@ == v@[i].0.internal_tok@ && same_type(
                res@[i].1.internal_tok,
                v@[i].1.internal_tok,
            ),
{
    let mut out: Vec<(TokenWithDebugInfo<String>, TokenWithDebugInfo<Type>)> = Vec::new();
    let mut i: usize = 0;
    while i < v.len()
        invariant
            i <= v@.len(),
            out@.len() == i,
            forall|j: int|
                0 <= j < i ==> (#[trigger] out@[j]).0.internal_tok@ == v@[j].0.internal_tok@ && same_type(
                    out@[j].1.internal_tok,
                    v@[j].1.internal_tok,
                ),
        decreases v@.len() - i,
    {
        out.push((clone_name(&v[i].0), clone_type_info(&v[i].1)));
        i = i + 1;
    }
    out
}

/// The error `<what> '<found>'`, for a node of a type that the rules do not
/// allow there.
fn type_error<T>(what: &str, found: &Type, at: &TokenWithDebugInfo<T>) -> (res: CompileError)
    ensures
        res.line == at.line,
        res.file == at.file,
        message_is(res, what@ + type_text(*found) + "'"@),
{
    let text = type_to_string(found);
    error_with_name(what, text.as_str(), "'", at)
}

/// The error `<what> '<a>' and '<b>'`, for two types that do not go
/// together.
fn types_error<T>(what: &str, a: &Type, b: &Type, at: &TokenWithDebugInfo<T>) -> (res: CompileError)
    ensures
        res.line == at.line,
        res.file == at.file,
        message_is(res, what@ + type_text(*a) + "' and '"@ + type_text(*b) + "'"@),
{
    let ta = type_to_string(a);
    let tb = type_to_string(b);
    let m = concat(what, ta.as_str());
    let m = concat(m.as_str(), "' and '");
    error_with_name(m.as_str(), tb.as_str(), "'", at)
}


// ---------------------------------------------------------------------------
// Expressions.

/// Whether `f` is what a checker step left of `old`: entries were only
/// added to the context's tables, and functions only appended to the list
/// of checked functions, which keeps those it held.
pub open spec fn checker_step(old_ctx: &Context, new_ctx: &Context, old_fns: Seq<Typed<TokenWithDebugInfo<Function>>>, new_fns: Seq<Typed<TokenWithDebugInfo<Function>>>) -> bool {
    &&& new_ctx.extends(old_ctx)
    &&& is_prefix(old_fns, new_fns)
    &&& all_functions_typed(old_fns) ==> all_functions_typed(new_fns)
}

/// Whether a checked function follows the typing rules: its body has its
/// return type, and it has no type parameters left.
pub open spec fn function_typed(f: Typed<TokenWithDebugInfo<Function>>) -> bool {
    &&& same_type(f.expr.internal_tok.body.type_, f.expr.internal_tok.return_type.internal_tok)
    &&& f.expr.internal_tok.generics@.len() == 0
}

/// Whether every function of `fns` follows the typing rules.
pub open spec fn all_functions_typed(fns: Seq<Typed<TokenWithDebugInfo<Function>>>) -> bool {
    forall|i: int| 0 <= i < fns.len() ==> #[trigger] function_typed(fns[i])
}

/// The typed atom `atom` of the type `t`, as an expression of the type
/// `t2` located at `line` of `file`.
fn atom_expression(atom: Atom, atom_line: usize, atom_file: String, t: Type, t2: Type, line: usize, file: String) -> (res: Typed<
    TokenWithDebugInfo<Expression>,
>)
    ensures
        res.expr.line == line,
        res.expr.file == file,
        res.expr.internal_tok matches Expression::Atom(a) && a.expr.internal_tok == atom && a.type_ == t,
        res.type_ == t2,
{
    Typed {
        expr: TokenWithDebugInfo {
            internal_tok: Expression::Atom(
                Typed { expr: TokenWithDebugInfo { internal_tok: atom, line: atom_line, file: atom_file }, type_: t },
            ),
            line,
            file,
        },
        type_: t2,
    }
}

/// Whether the error `e` says the text `m`.
pub open spec fn message_is(e: CompileError, m: Seq<char>) -> bool {
    e.message matches ErrorMessage::Text(t) && t@ == m
}

/// Whether `res` is an error that says the text `m`.
pub open spec fn fails_saying<T>(res: Result<T, CompileError>, m: Seq<char>) -> bool {
    res matches Err(e) && message_is(e, m)
}

/// Whether `e` is the variable `name`, typed `t`.
pub open spec fn variable_atom(e: Expression, name: Seq<char>, t: Type) -> bool {
    &&& e matches Expression::Atom(a)
    &&& same_type(a.type_, t)
    &&& a.expr.internal_tok matches Atom::Variable(w)
    &&& w.internal_tok@ == name
}

/// What typing the variable `v` gives in `ctx`: a variable (or constant) in
/// scope keeps its name and type; else one of the current namespace is
/// renamed to its qualified name, with its type; else an enum of the current
/// namespace is the variable of its qualified name, of that enum's type;
/// else an error.
pub open spec fn variable_typed(ctx: &Context, v: Seq<char>, res: Result<Typed<TokenWithDebugInfo<Expression>>, CompileError>) -> bool {
    let q = ctx.namespace@ + v;
    match ctx.variable_type(v) {
        Some(t) => res matches Ok(r) && same_type(r.type_, t) && variable_atom(r.expr.internal_tok, v, t),
        None => match ctx.variable_type(q) {
            Some(t) => res matches Ok(r) && same_type(r.type_, t) && variable_atom(r.expr.internal_tok, q, t),
            None => if ctx.enum_variants(q) is Some {
                res matches Ok(r) && r.type_ matches Type::Enum(n) && n@ == q && variable_atom(
                    r.expr.internal_tok,
                    q,
                    Type::Enum(n),
                )
            } else {
                res matches Err(e) && message_is(e, "Variable '"@ + v + "' not in scope"@)
            },
        },
    }
}

/// Types a variable: a variable in scope, else a constant or variable of the
/// current namespace (which it is renamed to), else an enum of it.
pub fn type_variable(v: &TokenWithDebugInfo<String>, ctx: &Context) -> (res: Result<
    Typed<TokenWithDebugInfo<Expression>>,
    CompileError,
>)
    ensures
        res matches Ok(r) ==> r.expr.line == v.line && r.expr.file == v.file,
        variable_typed(ctx, v.internal_tok@, res),
{
    let (line, file) = (v.line, v.file.clone());
    if let Some(t) = ctx.get_variable(v.internal_tok.as_str()) {
        return Ok(atom_expression(Atom::Variable(clone_name(v)), line, file.clone(), clone_type(t), clone_type(t), line, file));
    }
    let q = concat(ctx.namespace.as_str(), v.internal_tok.as_str());
    if let Some(t) = ctx.get_variable(q.as_str()) {
        let renamed = TokenWithDebugInfo { internal_tok: q, line, file: file.clone() };
        return Ok(atom_expression(Atom::Variable(renamed), line, file.clone(), clone_type(t), clone_type(t), line, file));
    }
    if ctx.get_enum(q.as_str()).is_some() {
        let renamed = TokenWithDebugInfo { internal_tok: q.clone(), line, file: file.clone() };
        return Ok(atom_expression(Atom::Variable(renamed), line, file.clone(), Type::Enum(q.clone()), Type::Enum(q), line, file));
    }
    Err(error_with_name("Variable '", v.internal_tok.as_str(), "' not in scope", v))
}

/// The namespace path that the chain of namespace accesses `e` names, seen
/// from the namespace `current` (see `unroll_namespace_access`); `None` for an
/// expression that is no such chain.
pub open spec fn namespace_path_of(e: Expression, current: Seq<char>) -> Option<Seq<char>>
    decreases e,
{
    match e {
        Expression::Atom(a) => match a.expr.internal_tok {
            Atom::Variable(ns) => Some(
                if has_double_colon(ns.internal_tok@) {
                    ns.internal_tok@
                } else if ns.internal_tok@ == "toplevel"@ {
                    ns.internal_tok@ + "::"@
                } else {
                    current + ns.internal_tok@ + "::"@
                },
            ),
            _ => None,
        },
        Expression::BinaryOp(l, r, op) => if op == BinOp::NamespaceAccess {
            match r.expr.internal_tok {
                Expression::Atom(a) => match a.expr.internal_tok {
                    Atom::Variable(id) => match namespace_path_of(l.expr.internal_tok, current) {
                        Some(p) => Some(p + id.internal_tok@ + "::"@),
                        None => None,
                    },
                    _ => None,
                },
                _ => None,
            }
        } else {
            None
        },
        _ => None,
    }
}

/// Reads a left-associated chain of namespace accesses, `a::b::c`, as the
/// namespace path it names: a name that holds `::` is a path already,
/// `toplevel` starts one, and any other name is taken from the current
/// namespace.
pub fn unroll_namespace_access(lhs: &TokenWithDebugInfo<Expression>, ctx: &Context) -> (res: Result<
    TokenWithDebugInfo<String>,
    CompileError,
>)
    ensures
        res is Ok <==> namespace_path_of(lhs.internal_tok, ctx.namespace@) is Some,
        res matches Ok(p) ==> namespace_path_of(lhs.internal_tok, ctx.namespace@) == Some(p.internal_tok@),
    decreases lhs,
{
    match &lhs.internal_tok {
        Expression::Atom(a) => match &a.expr.internal_tok {
            Atom::Variable(ns) => {
                let path = if contains_double_colon(ns.internal_tok.as_str()) {
                    ns.internal_tok.clone()
                } else if same_text(ns.internal_tok.as_str(), "toplevel") {
                    concat(ns.internal_tok.as_str(), "::")
                } else {
                    let p = concat(ctx.namespace.as_str(), ns.internal_tok.as_str());
                    concat(p.as_str(), "::")
                };
                Ok(TokenWithDebugInfo { internal_tok: path, line: lhs.line, file: lhs.file.clone() })
            },
            _ => Err(error("Namespace access must be on a variable", lhs)),
        },
        Expression::BinaryOp(l, r, op) => {
            if *op != BinOp::NamespaceAccess {
                return Err(error("Namespace access must be on a variable", lhs));
            }
            match &r.expr.internal_tok {
                Expression::Atom(a) => match &a.expr.internal_tok {
                    Atom::Variable(id) => {
                        let path = unroll_namespace_access(&l.expr, ctx)?;
                        let p = concat(path.internal_tok.as_str(), id.internal_tok.as_str());
                        let p = concat(p.as_str(), "::");
                        Ok(TokenWithDebugInfo { internal_tok: p, line: r.expr.line, file: r.expr.file.clone() })
                    },
                    _ => Err(error("Namespace access must be on a variable", lhs)),
                },
                _ => Err(error("Namespace access must be on a variable", lhs)),
            }
        },
        _ => Err(error("Namespace access must be on a variable", lhs)),
    }
}

/// The position of `x` among `v`, as a number.
fn position_of(v: &Vec<String>, x: &String) -> (res: Option<usize>)
    ensures
        res matches Some(i) ==> i < v@.len() && v@[i as int]@ == x@ && forall|j: int| 0 <= j < i ==> (#[trigger] v@[j])@ != x@,
        res is None ==> forall|j: int| 0 <= j < v@.len() ==> (#[trigger] v@[j])@ != x@,
{
    let mut i: usize = 0;
    while i < v.len()
        invariant
            i <= v@.len(),
            forall|j: int| 0 <= j < i ==> (#[trigger] v@[j])@ != x@,
        decreases v@.len() - i,
    {
        if same_text(v[i].as_str(), x.as_str()) {
            return Some(i);
        }
        i = i + 1;
    }
    None
}

/// The position of the member `x` among the members of a struct.
fn member_position(v: &Vec<(String, Type)>, x: &String) -> (res: Option<usize>)
    ensures
        res matches Some(i) ==> i < v@.len() && v@[i as int].0@ == x@
            && forall|j: int| 0 <= j < i ==> #[trigger] v@[j].0@ != x@,
        res is None ==> forall|j: int| 0 <= j < v@.len() ==> #[trigger] v@[j].0@ != x@,
{
    let mut i: usize = 0;
    while i < v.len()
        invariant
            i <= v@.len(),
            forall|j: int| 0 <= j < i ==> #[trigger] v@[j].0@ != x@,
        decreases v@.len() - i,
    {
        if same_text(v[i].0.as_str(), x.as_str()) {
            return Some(i);
        }
        i = i + 1;
    }
    None
}

/// The index `i` as an `i64`, if it fits.
fn index_as_i64(i: usize) -> (res: Option<i64>)
    ensures
        res is Some <==> i <= i64::MAX,
        res matches Some(x) ==> x == i,
{
    if (i as u128) <= (i64::MAX as u128) {
        Some(i as i64)
    } else {
        None
    }
}

/// The integer literal `i` as a typed expression located at `line` of
/// `file`.
fn int_literal(i: i64, line: usize, file: &String) -> (res: Typed<TokenWithDebugInfo<Expression>>)
    ensures
        res.type_ is Int,
        res.expr.line == line,
        res.expr.file@ == file@,
        int_literal_at(res.expr.internal_tok, i, line, file@),
{
    Typed {
        expr: TokenWithDebugInfo {
            internal_tok: Expression::Atom(
                Typed {
                    expr: TokenWithDebugInfo {
                        internal_tok: Atom::Literal(
                            Typed {
                                expr: TokenWithDebugInfo { internal_tok: Literal::Int(i), line, file: file.clone() },
                                type_: Type::Int,
                            },
                        ),
                        line,
                        file: file.clone(),
                    },
                    type_: Type::Int,
                },
            ),
            line,
            file: file.clone(),
        },
        type_: Type::Int,
    }
}

/// The name that a member access reads: the variable on its right.
pub open spec fn accessed_name(e: Expression) -> Option<Seq<char>> {
    match e {
        Expression::Atom(a) => match a.expr.internal_tok {
            Atom::Variable(v) => Some(v.internal_tok@),
            _ => None,
        },
        _ => None,
    }
}

/// Whether `e` is the integer literal `i`.
pub open spec fn is_int_literal(e: Typed<TokenWithDebugInfo<Expression>>, i: int) -> bool {
    e.expr.internal_tok matches Expression::Atom(a) && a.expr.internal_tok matches Atom::Literal(l)
        && l.expr.internal_tok == Literal::Int(i as i64) && -0x8000_0000_0000_0000 <= i < 0x8000_0000_0000_0000
}

/// Types a member access `lhs.rhs` whose left side was typed as `lhs_expr`
/// of the type `lhs_type`: on a struct, the member's index (`-1` for `len`,
/// the number of elements) with the member's type; on an enum, the
/// variant's index, of the enum's type.
pub fn type_member_access(
    lhs: &TokenWithDebugInfo<Expression>,
    rhs: &TokenWithDebugInfo<Expression>,
    op: BinOp,
    ctx: &Context,
    lhs_expr: TokenWithDebugInfo<Expression>,
    lhs_type: Type,
) -> (res: Result<Typed<TokenWithDebugInfo<Expression>>, CompileError>)
    ensures
        res is Ok ==> (lhs_type is Struct || lhs_type is Enum),
        lhs_type matches Type::Enum(e) ==> (res matches Ok(r) ==> r.type_ matches Type::Enum(n) && n@ == e@),
        lhs_type is Struct ==> (res matches Ok(r) ==> r.expr.internal_tok matches Expression::BinaryOp(
            _,
            idx,
            o,
        ) && o == op && idx.type_ is Int),
        lhs_type matches Type::Struct(st) ==> match accessed_name(rhs.internal_tok) {
            None => fails_saying(res, "Member access must be on a variable"@),
            Some(attr) => match ctx.struct_layout(qualified(ctx.namespace@, st@)) {
                None => fails_saying(res, "Undefined struct "@ + qualified(ctx.namespace@, st@)),
                Some(layout) => if attr == "len"@ {
                    res matches Ok(r) && r.type_ is Int && (r.expr.internal_tok matches Expression::BinaryOp(_, idx, _)
                        && is_int_literal(*idx, -1))
                } else {
                    match layout.members.value_of(attr) {
                        None => fails_saying(
                            res,
                            "Struct '"@ + qualified(ctx.namespace@, st@) + "' does not have member '"@ + attr + "'"@,
                        ),
                        Some(mt) => (res matches Ok(r) ==> same_type(r.type_, mt) && (
                        r.expr.internal_tok matches Expression::BinaryOp(_, idx, _) && exists|k: int|
                            0 <= k < layout.ordered@.len() && #[trigger] layout.ordered@[k].0@ == attr && is_int_literal(
                                *idx,
                                k,
                            ) && forall|j: int| 0 <= j < k ==> layout.ordered@[j].0@ != attr)) && ((exists|k: int|
                            0 <= k < layout.ordered@.len() && #[trigger] layout.ordered@[k].0@ == attr)
                            && layout.ordered@.len() <= i64::MAX ==> res is Ok),
                    }
                },
            },
        },
        lhs_type matches Type::Enum(e) ==> match accessed_name(rhs.internal_tok) {
            None => fails_saying(res, "Member access must be on a variable"@),
            Some(attr) => match ctx.enum_variants(e@) {
                None => fails_saying(res, "Enum '"@ + e@ + "' not in scope"@),
                Some(vs) => ((forall|j: int| 0 <= j < vs@.len() ==> (#[trigger] vs@[j])@ != attr) ==> fails_saying(
                    res,
                    "Enum '"@ + e@ + "' does not have variant '"@ + attr + "'"@,
                ))
                    && (vs@.len() <= i64::MAX && (exists|j: int| 0 <= j < vs@.len() && (#[trigger] vs@[j])@ == attr)
                    ==> res is Ok),
            },
        },
        lhs_type matches Type::Enum(e) ==> (res matches Ok(r) ==> match ctx.enum_variants(e@) {
            Some(vs) => exists|k: int|
                0 <= k < vs@.len() && (#[trigger] vs@[k])@ == accessed_name(rhs.internal_tok)->0 && (forall|j: int|
                    0 <= j < k ==> (#[trigger] vs@[j])@ != vs@[k]@) && is_int_literal(r, k),
            None => false,
        }),
{
    match &lhs_type {
        Type::Struct(st) => {
            let attribute = match &rhs.internal_tok {
                Expression::Atom(a) => match &a.expr.internal_tok {
                    Atom::Variable(v) => v,
                    _ => return Err(error("Member access must be on a variable", rhs)),
                },
                _ => return Err(error("Member access must be on a variable", rhs)),
            };
            let (line, file) = (attribute.line, attribute.file.clone());
            let q = qualify(&ctx.namespace, st);
            let layout = match ctx.get_struct(q.as_str()) {
                Some(l) => l,
                None => return Err(error(concat("Undefined struct ", q.as_str()).as_str(), lhs)),
            };
            let index: i64;
            let t: Type;
            if same_text(attribute.internal_tok.as_str(), "len") {
                // `len` is the number of elements of every struct.
                index = -1;
                t = Type::Int;
            } else {
                t = match layout.members.get(attribute.internal_tok.as_str()) {
                    Some(mt) => clone_type(mt),
                    None => {
                        let m = concat("Struct '", q.as_str());
                        let m = concat(m.as_str(), "' does not have member '");
                        return Err(error_with_name(m.as_str(), attribute.internal_tok.as_str(), "'", rhs));
                    },
                };
                index = match member_position(&layout.ordered, &attribute.internal_tok) {
                    Some(i) => match index_as_i64(i) {
                        Some(x) => x,
                        None => return Err(error("Struct has too many members", rhs)),
                    },
                    None => return Err(error("Attribute not found in ordered list", rhs)),
                };
            }
            let index_expr = int_literal(index, line, &file);
            Ok(
                Typed {
                    expr: TokenWithDebugInfo {
                        internal_tok: Expression::BinaryOp(
                            Box::new(Typed { expr: lhs_expr, type_: lhs_type }),
                            Box::new(index_expr),
                            op,
                        ),
                        line,
                        file,
                    },
                    type_: t,
                },
            )
        },
        Type::Enum(e) => {
            let attribute = match &rhs.internal_tok {
                Expression::Atom(a) => match &a.expr.internal_tok {
                    Atom::Variable(v) => v,
                    _ => return Err(error("Member access must be on a variable", rhs)),
                },
                _ => return Err(error("Member access must be on a variable", rhs)),
            };
            let (line, file) = (attribute.line, attribute.file.clone());
            let variants = match ctx.get_enum(e.as_str()) {
                Some(v) => v,
                None => return Err(error_with_name("Enum '", e.as_str(), "' not in scope", rhs)),
            };
            let pos = match position_of(variants, &attribute.internal_tok) {
                Some(i) => i,
                None => {
                    let m = concat("Enum '", e.as_str());
                    let m = concat(m.as_str(), "' does not have variant '");
                    return Err(error_with_name(m.as_str(), attribute.internal_tok.as_str(), "'", rhs));
                },
            };
            let index = match index_as_i64(pos) {
                Some(x) => x,
                None => {
                    proof {
                        let vs = ctx.enum_variants(e@)->0;
                        assert(vs@[pos as int]@ == accessed_name(rhs.internal_tok)->0);
                    }
                    return Err(error("Enum has too many variants", rhs));
                },
            };
            let lit = int_literal(index, line, &file);
            let r = Typed { expr: lit.expr, type_: Type::Enum(e.clone()) };
            proof {
                let vs = ctx.enum_variants(e@)->0;
                assert(vs@[pos as int]@ == accessed_name(rhs.internal_tok)->0);
                assert(is_int_literal(r, pos as int));
                assert(forall|j: int| 0 <= j < pos ==> (#[trigger] vs@[j])@ != vs@[pos as int]@);
            }
            Ok(r)
        },
        _ => Err(type_error("Type is not a struct or an enum, members access is undefined: '", &lhs_type, lhs)),
    }
}


/// The literal that `e` is, where it is a literal atom.
pub open spec fn literal_of(e: Expression) -> Option<Literal> {
    match e {
        Expression::Atom(a) => match a.expr.internal_tok {
            Atom::Literal(l) => Some(l.expr.internal_tok),
            _ => None,
        },
        _ => None,
    }
}

/// The name of the variable that `e` is, where it is a variable atom.
pub open spec fn variable_of(e: Expression) -> Option<Seq<char>> {
    match e {
        Expression::Atom(a) => match a.expr.internal_tok {
            Atom::Variable(v) => Some(v.internal_tok@),
            _ => None,
        },
        _ => None,
    }
}

/// Types an expression: gives it and each node below it a type, with names
/// resolved and generic functions and structs instantiated.
pub fn type_expression(
    fn_array: &mut Vec<Typed<TokenWithDebugInfo<Function>>>,
    expr: &TokenWithDebugInfo<Expression>,
    ctx: &mut Context,
    depth: usize,
) -> (res: Result<Typed<TokenWithDebugInfo<Expression>>, CompileError>)
    ensures
        checker_step(old(ctx), final(ctx), old(fn_array)@, final(fn_array)@),
        scope_kept(old(ctx), final(ctx)),
        depth > 0 ==> (expr.internal_tok matches Expression::Atom(a) ==> (a.expr.internal_tok matches Atom::Literal(l)
            ==> (res matches Ok(r) && r.type_ == literal_type(l.expr.internal_tok)))),
        depth > 0 && literal_of(expr.internal_tok) is Some ==> (res matches Ok(r) && r.type_ == literal_type(
            literal_of(expr.internal_tok)->0,
        ) && literal_of(r.expr.internal_tok) == literal_of(expr.internal_tok)),
        depth > 0 && variable_of(expr.internal_tok) is Some ==> match old(ctx).variable_type(
            variable_of(expr.internal_tok)->0,
        ) {
            Some(t) => res matches Ok(r) && same_type(r.type_, t),
            None => true,
        },
        depth > 0 && variable_of(expr.internal_tok) is Some ==> variable_typed(
            old(ctx),
            variable_of(expr.internal_tok)->0,
            res,
        ),
        depth > 1 ==> (res matches Ok(r) ==> keeps_operand(old(ctx), expr.internal_tok, r.expr.internal_tok)),
        depth > 2 && operation_type(old(ctx), expr.internal_tok) is Some ==> (res matches Ok(r) && same_type(
            r.type_,
            operation_type(old(ctx), expr.internal_tok)->0,
        )),
        expr.internal_tok matches Expression::TypeCast(_, t) ==> (res matches Ok(r) ==> (is_primitive(t.internal_tok)
            ==> same_type(r.type_, t.internal_tok))),
    decreases depth,
{
    if depth == 0 {
        return Err(too_deep(expr));
    }
    match &expr.internal_tok {
        Expression::Atom(a) => type_atom(fn_array, expr, &a.expr, ctx, depth - 1),
        Expression::BinaryOp(l, r, op) => type_binaryop(fn_array, &l.expr, &r.expr, *op, ctx, depth - 1),
        Expression::UnaryOp(e, op) => type_unaryop(fn_array, &e.expr, *op, ctx, depth - 1),
        Expression::Assignment(v, e, op) => type_assignment(fn_array, &v.expr, &e.expr, *op, ctx, depth - 1),
        Expression::TypeCast(e, t) => {
            // A cast gives the expression the type it is cast to.
            let inner = type_expression(fn_array, &e.expr, ctx, depth - 1)?;
            let t = check_if_struct_or_enum(ctx, t, depth - 1)?;
            Ok(Typed { expr: inner.expr, type_: t.internal_tok })
        },
        Expression::ArrayAccess(e, idx) => type_arrayaccess(fn_array, &e.expr, idx, ctx, depth - 1),
    }
}

/// Types an atom; `expr` is the expression that holds it.
pub fn type_atom(
    fn_array: &mut Vec<Typed<TokenWithDebugInfo<Function>>>,
    expr: &TokenWithDebugInfo<Expression>,
    atom: &TokenWithDebugInfo<Atom>,
    ctx: &mut Context,
    depth: usize,
) -> (res: Result<Typed<TokenWithDebugInfo<Expression>>, CompileError>)
    ensures
        checker_step(old(ctx), final(ctx), old(fn_array)@, final(fn_array)@),
        scope_kept(old(ctx), final(ctx)),
        atom.internal_tok matches Atom::Literal(l) ==> (res matches Ok(r) && r.type_ == literal_type(
            l.expr.internal_tok,
        ) && literal_of(r.expr.internal_tok) == literal_of(expr.internal_tok)),
        atom.internal_tok is StructInstance ==> (res matches Ok(r) ==> r.type_ is Struct),
        atom.internal_tok matches Atom::Variable(v) ==> variable_typed(old(ctx), v.internal_tok@, res) && *final(ctx)
            == *old(ctx),
        atom.internal_tok matches Atom::FunctionCall(name, args, _) ==> (depth > 0 ==> call_checked(
            old(ctx),
            name.internal_tok@,
            args@,
            res,
            depth - 1,
        )),
        atom.internal_tok matches Atom::Array(elements, _) ==> (elements@.len() == 0 ==> res is Err),
        atom.internal_tok matches Atom::Array(elements, _) ==> (depth > 1 && all_literals(elements@) ==> {
            &&& res is Ok <==> (elements@.len() > 0 && same_literal_types(elements@))
            &&& res matches Ok(r) ==> {
                &&& r.type_ matches Type::Array(el) && el.internal_tok == literal_type(
                    literal_of(elements@[0].expr.internal_tok)->0,
                )
                &&& r.expr.internal_tok matches Expression::Atom(a) && a.expr.internal_tok matches Atom::Array(te, _)
                    && forall|i: int|
                    0 <= i < te@.len() ==> literal_of(#[trigger] te@[i].expr.internal_tok) == literal_of(
                        elements@[i].expr.internal_tok,
                    )
            }
        }),
        atom.internal_tok matches Atom::Array(elements, d) ==> (res matches Ok(r) ==> {
            &&& r.type_ matches Type::Array(el)
            &&& r.expr.internal_tok matches Expression::Atom(a)
            &&& a.expr.internal_tok matches Atom::Array(typed_elements, d2)
            &&& d2 == d
            &&& typed_elements@.len() == elements@.len()
            &&& forall|i: int|
                0 <= i < typed_elements@.len() ==> same_type(
                    (#[trigger] typed_elements@[i]).type_,
                    r.type_->Array_0.internal_tok,
                )
        }),
    decreases depth,
{
    match &atom.internal_tok {
        Atom::Literal(l) => {
            let t = match &l.expr.internal_tok {
                Literal::Bool(_) => Type::Bool,
                Literal::Int(_) | Literal::Hex(_) | Literal::Binary(_) => Type::Int,
                Literal::Float(_) => Type::Float,
                Literal::Char(_) => Type::Char,
            };
            Ok(Typed { expr: clone_expression_info(expr), type_: t })
        },
        Atom::Variable(v) => type_variable(v, ctx),
        Atom::Array(elements, dim) => {
            if depth == 0 {
                return Err(too_deep(atom));
            }
            let mut new_elements: Vec<Typed<TokenWithDebugInfo<Expression>>> = Vec::new();
            let mut first: Option<Type> = None;
            let mut i: usize = 0;
            while i < elements.len()
                invariant
                    i <= elements@.len(),
                    depth > 0,
                    atom.internal_tok == Atom::Array(*elements, *dim),
                    checker_step(old(ctx), ctx, old(fn_array)@, fn_array@),
                    scope_kept(old(ctx), ctx),
                    new_elements@.len() == i,
                    first is Some <==> i > 0,
                    first matches Some(t) ==> forall|j: int|
                        0 <= j < i ==> same_type((#[trigger] new_elements@[j]).type_, t),
                    depth > 1 && all_literals(elements@) ==> {
                        &&& first matches Some(t) ==> t == literal_type(literal_of(elements@[0].expr.internal_tok)->0)
                        &&& forall|j: int|
                            0 <= j < i ==> literal_type(literal_of((#[trigger] elements@[j]).expr.internal_tok)->0)
                                == literal_type(literal_of(elements@[0].expr.internal_tok)->0)
                        &&& forall|j: int|
                            0 <= j < i ==> literal_of(#[trigger] new_elements@[j].expr.internal_tok) == literal_of(
                                elements@[j].expr.internal_tok,
                            )
                    },
                decreases elements@.len() - i,
            {
                proof {
                    if depth > 1 && all_literals(elements@) {
                        assert(literal_of(elements@[i as int].expr.internal_tok) is Some);
                    }
                }
                let e = match type_expression(fn_array, &elements[i].expr, ctx, depth - 1) {
                    Ok(e) => e,
                    Err(err) => {
                        return Err(err);
                    },
                };
                proof {
                    if depth > 1 && all_literals(elements@) {
                        if first is Some {
                            crate::shared::lemma_same_type_reflexive(first->0);
                        }
                    }
                }
                if let Some(t) = &first {
                    proof {
                        if same_type(*t, e.type_) {
                            crate::shared::lemma_same_type_symmetric(*t, e.type_);
                        }
                    }
                    if !types_equal(t, &e.type_) {
                        proof {
                            if depth > 1 && all_literals(elements@) {
                                assert(literal_type(literal_of(elements@[i as int].expr.internal_tok)->0) != literal_type(
                                    literal_of(elements@[0].expr.internal_tok)->0));
                                assert(!same_literal_types(elements@));
                            }
                        }
                        return Err(
                            types_error(
                                "Array elements are not of the same type: '",
                                t,
                                &e.type_,
                                &elements[i].expr,
                            ),
                        );
                    }
                } else {
                    let t = clone_type(&e.type_);
                    proof {
                        crate::shared::lemma_same_type_symmetric(t, e.type_);
                        if depth > 1 && all_literals(elements@) {
                            lemma_same_primitive(t, e.type_);
                        }
                    }
                    first = Some(t);
                }
                let ghost before = new_elements@;
                new_elements.push(e);
                assert(new_elements@.drop_last() =~= before);
                i = i + 1;
            }
            let element_type = match first {
                Some(t) => t,
                None => return Err(error("Array literal has no element to take its type from", atom)),
            };
            let (line, file) = (atom.line, atom.file.clone());
            let t = Type::Array(
                Box::new(TokenWithDebugInfo { internal_tok: clone_type(&element_type), line, file: file.clone() }),
            );
            let t2 = Type::Array(Box::new(TokenWithDebugInfo { internal_tok: element_type, line, file: file.clone() }));
            Ok(atom_expression(Atom::Array(new_elements, *dim), line, file.clone(), t, t2, line, file))
        },
        Atom::FunctionCall(name, args, bindings) => {
            if depth == 0 {
                return Err(too_deep(atom));
            }
            type_call(fn_array, atom, name, args, bindings, ctx, depth - 1)
        },
        Atom::Expression(inner) => {
            if depth == 0 {
                return Err(too_deep(atom));
            }
            type_expression(fn_array, &inner.expr, ctx, depth - 1)
        },
        Atom::StructInstance(id, fields, bindings) => {
            if depth == 0 {
                return Err(too_deep(atom));
            }
            type_struct_instance(fn_array, atom, id, fields, bindings, ctx, depth - 1)
        },
    }
}

/// Resolves the type arguments of a generic use.
fn check_bindings(ctx: &mut Context, bindings: &Vec<TokenWithDebugInfo<Type>>, depth: usize) -> (res: Result<
    Vec<TokenWithDebugInfo<Type>>,
    CompileError,
>)
    ensures
        final(ctx).extends(old(ctx)),
        scope_kept(old(ctx), final(ctx)),
        res matches Ok(v) ==> v@.len() == bindings@.len(),
        bindings@.len() == 0 ==> res is Ok && *final(ctx) == *old(ctx),
{
    let mut out: Vec<TokenWithDebugInfo<Type>> = Vec::new();
    let mut i: usize = 0;
    while i < bindings.len()
        invariant
            i <= bindings@.len(),
            out@.len() == i,
            ctx.extends(old(ctx)),
            scope_kept(old(ctx), ctx),
            bindings@.len() == 0 ==> *ctx == *old(ctx),
        decreases bindings@.len() - i,
    {
        out.push(check_if_struct_or_enum(ctx, &bindings[i], depth)?);
        i = i + 1;
    }
    Ok(out)
}

/// Whether `e` is a call of the function `name` whose arguments have the
/// types `params`, one for one.
pub open spec fn call_of(e: Expression, name: Seq<char>, params: Seq<Type>) -> bool {
    &&& e matches Expression::Atom(a)
    &&& a.expr.internal_tok matches Atom::FunctionCall(n, new_args, _)
    &&& n.internal_tok@ == name
    &&& forall|i: int| 0 <= i < new_args@.len() ==> same_type((#[trigger] new_args@[i]).type_, params[i])
}

/// What typing a call of the function `name` on `args` gives, in `ctx`, for
/// a function that is not generic: an error for a function that is not in
/// scope or for a wrong number of arguments; otherwise a call of the
/// qualified name, each argument of its parameter's type, of the function's
/// return type where that type is primitive; and with literal arguments
/// (and `depth` enough) success exactly when each has its parameter's type.
pub open spec fn call_checked(
    ctx: &Context,
    name: Seq<char>,
    args: Seq<Typed<TokenWithDebugInfo<Expression>>>,
    res: Result<Typed<TokenWithDebugInfo<Expression>>, CompileError>,
    depth: int,
) -> bool {
    let q = qualified(ctx.namespace@, name);
    ctx.declared.generic_functions.value_of(q) is None ==> match ctx.function_signature(q) {
        None => res is Err,
        Some(sig) => {
            &&& args.len() != sig.args@.len() ==> res is Err
            &&& res matches Ok(r) ==> (is_primitive(sig.return_type) ==> same_type(r.type_, sig.return_type))
            &&& res matches Ok(r) ==> call_of(r.expr.internal_tok, q, sig.args@)
            &&& depth > 2 && all_literals(args) && args.len() == sig.args@.len() && is_primitive(sig.return_type) ==> (
            res is Ok <==> literals_match(args, sig.args@))
        },
    }
}

/// Types a call of the function `name`: a generic function is first
/// instantiated for the type arguments (once for each list of them), and
/// each argument must have the type of its parameter.
pub fn type_call(
    fn_array: &mut Vec<Typed<TokenWithDebugInfo<Function>>>,
    atom: &TokenWithDebugInfo<Atom>,
    name: &TokenWithDebugInfo<String>,
    args: &Vec<Typed<TokenWithDebugInfo<Expression>>>,
    bindings: &Vec<TokenWithDebugInfo<Type>>,
    ctx: &mut Context,
    depth: usize,
) -> (res: Result<Typed<TokenWithDebugInfo<Expression>>, CompileError>)
    ensures
        checker_step(old(ctx), final(ctx), old(fn_array)@, final(fn_array)@),
        scope_kept(old(ctx), final(ctx)),
        res matches Ok(r) ==> r.expr.internal_tok matches Expression::Atom(a) && a.expr.internal_tok matches Atom::FunctionCall(
            _,
            new_args,
            generics,
        ) && new_args@.len() == args@.len() && generics@.len() == 0,
        call_checked(old(ctx), name.internal_tok@, args@, res, depth as int),
    decreases depth,
{
    if depth == 0 {
        return Err(too_deep(atom));
    }
    let (line_name, file_name) = (name.line, name.file.clone());
    let mut fname = qualify(&ctx.namespace, &name.internal_tok);
    let declared = ctx.declared;
    if let Some(func) = declared.generic_functions.get(fname.as_str()) {
        if func.generics.len() != bindings.len() {
            let m = concat("Function '", fname.as_str());
            let m = concat(m.as_str(), "' expects ");
            let m = concat(m.as_str(), number_text(func.generics.len()).as_str());
            let m = concat(m.as_str(), " generics, but ");
            return Err(error_with_name(m.as_str(), number_text(bindings.len()).as_str(), " were provided", name));
        }
        let new_bindings = check_bindings(ctx, bindings, depth - 1)?;
        fname = mangle(&fname, &new_bindings);
        if ctx.get_function(fname.as_str()).is_none() {
            let mut bound: Names<Type> = Names::new();
            let mut k: usize = 0;
            while k < func.generics.len()
                invariant
                    k <= func.generics@.len(),
                    func.generics@.len() == new_bindings@.len(),
                    depth > 0,
                    old(ctx).declared.generic_functions.value_of(qualified(old(ctx).namespace@, name.internal_tok@))
                        is Some,
                    ctx.extends(old(ctx)),
                    scope_kept(old(ctx), ctx),
                decreases func.generics@.len() - k,
            {
                // The type arguments are resolved once more, as they were
                // resolved for the name.
                let b = check_if_struct_or_enum(ctx, &new_bindings[k], depth - 1)?;
                bound.insert(func.generics[k].internal_tok.clone(), b.internal_tok);
                k = k + 1;
            }
            let m = ctx.mark();
            std::mem::swap(&mut ctx.generics_bindings, &mut bound);
            let mut arg_types: Vec<Type> = Vec::new();
            let mut j: usize = 0;
            while j < func.args.len()
                invariant
                    j <= func.args@.len(),
                decreases func.args@.len() - j,
            {
                arg_types.push(clone_type(&func.args[j].1.internal_tok));
                j = j + 1;
            }
            // The instance is known while it is checked, so that it can call
            // itself.
            ctx.concrete_functions.insert(
                fname.clone(),
                Signature { return_type: clone_type(&func.return_type.internal_tok), args: arg_types },
            );
            let instance = TokenWithDebugInfo {
                internal_tok: Function {
                    id: TokenWithDebugInfo { internal_tok: fname.clone(), line: line_name, file: file_name.clone() },
                    return_type: clone_type_info(&func.return_type),
                    args: clone_params(&func.args),
                    generics: Vec::new(),
                    body: clone_typed_statement(&func.body),
                },
                line: atom.line,
                file: atom.file.clone(),
            };
            let typed = type_function(fn_array, &instance, ctx, &String::new(), depth - 1);
            std::mem::swap(&mut ctx.generics_bindings, &mut bound);
            ctx.restore(&m, true);
            assert(ctx.variables.entries@ =~= old(ctx).variables.entries@);
            assert(ctx.array_dims.entries@ =~= old(ctx).array_dims.entries@);
            let typed = typed?;
            let mut typed_args: Vec<Type> = Vec::new();
            let mut j: usize = 0;
            while j < typed.expr.internal_tok.args.len()
                invariant
                    j <= typed.expr.internal_tok.args@.len(),
                decreases typed.expr.internal_tok.args@.len() - j,
            {
                typed_args.push(clone_type(&typed.expr.internal_tok.args[j].1.internal_tok));
                j = j + 1;
            }
            let sig = Signature {
                return_type: clone_type(&typed.expr.internal_tok.return_type.internal_tok),
                args: typed_args,
            };
            let ghost before = fn_array@;
            fn_array.push(typed);
            proof {
                assert forall|i: int| all_functions_typed(before) && 0 <= i < fn_array@.len() implies #[trigger] function_typed(
                    fn_array@[i],
                ) by {
                    if i < before.len() {
                        assert(fn_array@[i] == before[i]);
                    }
                }
            }
            ctx.concrete_functions.insert(fname.clone(), sig);
        }
    }
    let sig = match ctx.get_function(fname.as_str()) {
        Some(sig) => clone_signature(sig),
        None => return Err(error_with_name("Function '", fname.as_str(), "' not in scope", atom)),
    };
    if args.len() != sig.args.len() {
        let m = concat("Function '", fname.as_str());
        let m = concat(m.as_str(), "' expects ");
        let m = concat(m.as_str(), number_text(sig.args.len()).as_str());
        let m = concat(m.as_str(), " arguments, but ");
        return Err(error_with_name(m.as_str(), number_text(args.len()).as_str(), " were provided", atom));
    }
    // The arguments are read in the namespace of the call's root, and what
    // typing them adds to the context is not kept.
    proof {
        let q = qualified(old(ctx).namespace@, name.internal_tok@);
        if old(ctx).declared.generic_functions.value_of(q) is None && all_literals(args@) {
            let s0 = old(ctx).function_signature(q)->0;
            assert(literals_match(args@, sig.args@) <==> literals_match(args@, s0.args@)) by {
                if literals_match(args@, sig.args@) {
                    assert forall|i: int| 0 <= i < args@.len() implies same_type(
                        literal_type(#[trigger] literal_of(args@[i].expr.internal_tok)->0),
                        s0.args@[i],
                    ) by {
                        assert(same_type(sig.args@[i], s0.args@[i]));
                        crate::shared::lemma_same_type_transitive(
                            literal_type(literal_of(args@[i].expr.internal_tok)->0),
                            sig.args@[i],
                            s0.args@[i],
                        );
                    }
                }
                if literals_match(args@, s0.args@) {
                    assert forall|i: int| 0 <= i < args@.len() implies same_type(
                        literal_type(#[trigger] literal_of(args@[i].expr.internal_tok)->0),
                        sig.args@[i],
                    ) by {
                        assert(same_type(sig.args@[i], s0.args@[i]));
                        crate::shared::lemma_same_type_symmetric(sig.args@[i], s0.args@[i]);
                        crate::shared::lemma_same_type_transitive(
                            literal_type(literal_of(args@[i].expr.internal_tok)->0),
                            s0.args@[i],
                            sig.args@[i],
                        );
                    }
                }
            }
        }
    }
    let m = ctx.mark();
    let mut ns = ctx.namespace_root.clone();
    std::mem::swap(&mut ctx.namespace, &mut ns);
    let new_args = type_call_args(fn_array, args, &sig.args, &fname, ctx, depth - 1);
    std::mem::swap(&mut ctx.namespace, &mut ns);
    ctx.restore(&m, false);
    assert(ctx.variables.entries@ =~= old(ctx).variables.entries@);
    assert(ctx.array_dims.entries@ =~= old(ctx).array_dims.entries@);
    let new_args = new_args?;
    proof {
        let q = qualified(old(ctx).namespace@, name.internal_tok@);
        if old(ctx).declared.generic_functions.value_of(q) is None {
            let s0 = old(ctx).function_signature(q)->0;
            assert forall|i: int| 0 <= i < new_args@.len() implies same_type(
                (#[trigger] new_args@[i]).type_,
                s0.args@[i],
            ) by {
                crate::shared::lemma_same_type_transitive(new_args@[i].type_, sig.args@[i], s0.args@[i]);
            }
        }
    }
    let ret = check_if_struct_or_enum(
        ctx,
        &TokenWithDebugInfo { internal_tok: clone_type(&sig.return_type), line: atom.line, file: atom.file.clone() },
        depth - 1,
    )?;
    let (line, file) = (atom.line, atom.file.clone());
    let call = Atom::FunctionCall(
        TokenWithDebugInfo { internal_tok: fname, line: line_name, file: file_name },
        new_args,
        Vec::new(),
    );
    Ok(atom_expression(call, line, file.clone(), clone_type(&ret.internal_tok), ret.internal_tok, line, file))
}

/// Whether each of `args` is a literal.
pub open spec fn all_literals(args: Seq<Typed<TokenWithDebugInfo<Expression>>>) -> bool {
    forall|i: int| 0 <= i < args.len() ==> #[trigger] literal_of(args[i].expr.internal_tok) is Some
}

/// Whether the literals `args` all have the type of the first.
pub open spec fn same_literal_types(args: Seq<Typed<TokenWithDebugInfo<Expression>>>) -> bool {
    forall|i: int|
        0 <= i < args.len() ==> literal_type(literal_of((#[trigger] args[i]).expr.internal_tok)->0) == literal_type(
            literal_of(args[0].expr.internal_tok)->0,
        )
}

/// Whether each of the literals `args` has the type that `expected` holds at
/// its position.
pub open spec fn literals_match(args: Seq<Typed<TokenWithDebugInfo<Expression>>>, expected: Seq<Type>) -> bool {
    forall|i: int|
        0 <= i < args.len() ==> same_type(literal_type(#[trigger] literal_of(args[i].expr.internal_tok)->0), expected[i])
}

/// Types the arguments of a call of `fname`; each must have the type of its
/// parameter in `expected`.
fn type_call_args(
    fn_array: &mut Vec<Typed<TokenWithDebugInfo<Function>>>,
    args: &Vec<Typed<TokenWithDebugInfo<Expression>>>,
    expected: &Vec<Type>,
    fname: &String,
    ctx: &mut Context,
    depth: usize,
) -> (res: Result<Vec<Typed<TokenWithDebugInfo<Expression>>>, CompileError>)
    requires
        args@.len() == expected@.len(),
    ensures
        checker_step(old(ctx), final(ctx), old(fn_array)@, final(fn_array)@),
        scope_kept(old(ctx), final(ctx)),
        res matches Ok(v) ==> v@.len() == args@.len() && forall|i: int|
            0 <= i < v@.len() ==> #[trigger] same_type(v@[i].type_, expected@[i]),
        depth > 1 && all_literals(args@) ==> (res is Ok <==> literals_match(args@, expected@)),
    decreases depth,
{
    let mut new_args: Vec<Typed<TokenWithDebugInfo<Expression>>> = Vec::new();
    let mut i: usize = 0;
    if depth == 0 {
        return Err(end_of_block());
    }
    while i < args.len()
        invariant
            i <= args@.len(),
            depth > 0,
            args@.len() == expected@.len(),
            new_args@.len() == i,
            forall|j: int| 0 <= j < i ==> #[trigger] same_type(new_args@[j].type_, expected@[j]),
            depth > 1 && all_literals(args@) ==> forall|j: int|
                0 <= j < i ==> same_type(literal_type(#[trigger] literal_of(args@[j].expr.internal_tok)->0), expected@[j]),
            checker_step(old(ctx), ctx, old(fn_array)@, fn_array@),
            scope_kept(old(ctx), ctx),
        decreases args@.len() - i,
    {
        let arg = type_expression(fn_array, &args[i].expr, ctx, depth - 1)?;
        if !types_equal(&arg.type_, &expected[i]) {
            let found = type_to_string(&arg.type_);
            let wanted = type_to_string(&expected[i]);
            let m = concat("Argument ", number_text(i).as_str());
            let m = concat(m.as_str(), " of function '");
            let m = concat(m.as_str(), fname.as_str());
            let m = concat(m.as_str(), "' has type '");
            let m = concat(m.as_str(), found.as_str());
            let m = concat(m.as_str(), "', but '");
            return Err(error_with_name(m.as_str(), wanted.as_str(), "' was expected", &args[i].expr));
        }
        new_args.push(arg);
        i = i + 1;
    }
    Ok(new_args)
}

/// Whether each of the literals `fields` has the type of the member at its
/// position in `members`.
pub open spec fn literal_members_match(
    fields: Seq<Typed<TokenWithDebugInfo<Expression>>>,
    members: Seq<(String, Type)>,
) -> bool {
    forall|i: int|
        0 <= i < fields.len() ==> same_type(
            literal_type(#[trigger] literal_of(fields[i].expr.internal_tok)->0),
            members[i].1,
        )
}

/// Types a struct instance `id:<bindings>{fields}`: the (instantiated)
/// struct must be known, and each field must have the type of its member.
pub fn type_struct_instance(
    fn_array: &mut Vec<Typed<TokenWithDebugInfo<Function>>>,
    atom: &TokenWithDebugInfo<Atom>,
    id: &TokenWithDebugInfo<String>,
    fields: &Vec<Typed<TokenWithDebugInfo<Expression>>>,
    bindings: &Vec<TokenWithDebugInfo<Type>>,
    ctx: &mut Context,
    depth: usize,
) -> (res: Result<Typed<TokenWithDebugInfo<Expression>>, CompileError>)
    ensures
        checker_step(old(ctx), final(ctx), old(fn_array)@, final(fn_array)@),
        scope_kept(old(ctx), final(ctx)),
        res matches Ok(r) ==> r.type_ is Struct,
        bindings@.len() == 0 ==> match old(ctx).struct_layout(qualified(old(ctx).namespace@, id.internal_tok@)) {
            None => res is Err,
            Some(layout) => (fields@.len() != layout.ordered@.len() ==> res is Err) && (res matches Ok(r) ==> {
                &&& r.type_ matches Type::Struct(n) && n@ == qualified(old(ctx).namespace@, id.internal_tok@)
                &&& r.expr.internal_tok matches Expression::Atom(a)
                &&& a.expr.internal_tok matches Atom::StructInstance(_, new_fields, _)
                &&& new_fields@.len() == fields@.len()
                &&& forall|i: int|
                    0 <= i < new_fields@.len() ==> same_type(
                        (#[trigger] new_fields@[i]).type_,
                        layout.ordered@[i].1,
                    )
            }) && (depth > 1 && fields@.len() == layout.ordered@.len() && all_literals(fields@) ==> (res is Ok
                <==> literal_members_match(fields@, layout.ordered@))),
        },
    decreases depth,
{
    if depth == 0 {
        return Err(too_deep(atom));
    }
    let q = qualify(&ctx.namespace, &id.internal_tok);
    let new_bindings = check_bindings(ctx, bindings, depth - 1)?;
    let sid = mangle(&q, &new_bindings);
    let mut member_types: Vec<Type> = Vec::new();
    let ghost layout_at = ctx.struct_layout(sid@);
    proof {
        if bindings@.len() == 0 {
            assert(sid@ =~= qualified(old(ctx).namespace@, id.internal_tok@));
        }
    }
    match ctx.get_struct(sid.as_str()) {
        Some(layout) => {
            let mut j: usize = 0;
            while j < layout.ordered.len()
                invariant
                    j <= layout.ordered@.len(),
                    member_types@.len() == j,
                    forall|k: int| 0 <= k < j ==> same_type(#[trigger] member_types@[k], layout.ordered@[k].1),
                decreases layout.ordered@.len() - j,
            {
                member_types.push(clone_type(&layout.ordered[j].1));
                j = j + 1;
            }
        },
        None => return Err(error_with_name("Struct '", sid.as_str(), "' not in scope", atom)),
    }
    if fields.len() != member_types.len() {
        let m = concat("Struct '", sid.as_str());
        let m = concat(m.as_str(), "' has ");
        let m = concat(m.as_str(), number_text(member_types.len()).as_str());
        let m = concat(m.as_str(), " members, but ");
        return Err(error_with_name(m.as_str(), number_text(fields.len()).as_str(), " were provided", atom));
    }
    let mut new_fields: Vec<Typed<TokenWithDebugInfo<Expression>>> = Vec::new();
    let mut i: usize = 0;
    while i < fields.len()
        invariant
            i <= fields@.len(),
            fields@.len() == member_types@.len(),
            depth > 0,
            checker_step(old(ctx), ctx, old(fn_array)@, fn_array@),
            scope_kept(old(ctx), ctx),
            new_fields@.len() == i,
            forall|k: int| 0 <= k < i ==> same_type((#[trigger] new_fields@[k]).type_, member_types@[k]),
            depth > 1 && all_literals(fields@) ==> forall|k: int|
                0 <= k < i ==> (#[trigger] new_fields@[k]).type_ == literal_type(
                    literal_of(fields@[k].expr.internal_tok)->0,
                ),
            bindings@.len() == 0 ==> layout_at == old(ctx).struct_layout(
                qualified(old(ctx).namespace@, id.internal_tok@),
            ),
            layout_at matches Some(layout) ==> layout.ordered@.len() == member_types@.len() && forall|k: int|
                0 <= k < member_types@.len() ==> same_type(#[trigger] member_types@[k], layout.ordered@[k].1),
        decreases fields@.len() - i,
    {
        let f = type_expression(fn_array, &fields[i].expr, ctx, depth - 1)?;
        proof {
            if same_type(member_types@[i as int], f.type_) {
                crate::shared::lemma_same_type_symmetric(member_types@[i as int], f.type_);
            }
            if let Some(layout) = layout_at {
                if same_type(f.type_, layout.ordered@[i as int].1) {
                    crate::shared::lemma_same_type_symmetric(member_types@[i as int], layout.ordered@[i as int].1);
                    crate::shared::lemma_same_type_transitive(f.type_, layout.ordered@[i as int].1, member_types@[i as int]);
                    crate::shared::lemma_same_type_symmetric(f.type_, member_types@[i as int]);
                }
            }
        }
        if !types_equal(&member_types[i], &f.type_) {
            proof {
                if depth > 1 && all_literals(fields@) && layout_at is Some {
                    assert(literal_of(fields@[i as int].expr.internal_tok) is Some);
                    assert(!same_type(
                        literal_type(literal_of(fields@[i as int].expr.internal_tok)->0),
                        layout_at->0.ordered@[i as int].1,
                    ));
                }
            }
            return Err(
                types_error(
                    "Struct member type does not match expression type: '",
                    &member_types[i],
                    &f.type_,
                    &fields[i].expr,
                ),
            );
        }
        new_fields.push(f);
        i = i + 1;
    }
    proof {
        if let Some(layout) = layout_at {
            assert forall|i: int| 0 <= i < new_fields@.len() implies same_type(
                (#[trigger] new_fields@[i]).type_,
                layout.ordered@[i].1,
            ) by {
                crate::shared::lemma_same_type_transitive(new_fields@[i].type_, member_types@[i], layout.ordered@[i].1);
            }
            if depth > 1 && all_literals(fields@) {
                assert forall|i: int| 0 <= i < fields@.len() implies same_type(
                    literal_type(#[trigger] literal_of(fields@[i].expr.internal_tok)->0),
                    layout.ordered@[i].1,
                ) by {
                    assert(same_type(new_fields@[i].type_, layout.ordered@[i].1));
                }
            }
        }
    }
    let (line, file) = (atom.line, atom.file.clone());
    let inst = Atom::StructInstance(
        TokenWithDebugInfo { internal_tok: sid.clone(), line, file: file.clone() },
        new_fields,
        Vec::new(),
    );
    Ok(atom_expression(inst, line, file.clone(), Type::Struct(sid.clone()), Type::Struct(sid), line, file))
}


/// Types a namespace access `a::b::x`: `x` is typed in the namespace that
/// `a::b` names. Only the functions instantiated meanwhile are kept.
pub fn type_namespace_access(
    fn_array: &mut Vec<Typed<TokenWithDebugInfo<Function>>>,
    lhs: &TokenWithDebugInfo<Expression>,
    rhs: &TokenWithDebugInfo<Expression>,
    ctx: &mut Context,
    depth: usize,
) -> (res: Result<Typed<TokenWithDebugInfo<Expression>>, CompileError>)
    ensures
        checker_step(old(ctx), final(ctx), old(fn_array)@, final(fn_array)@),
        scope_kept(old(ctx), final(ctx)),
        namespace_path_of(lhs.internal_tok, old(ctx).namespace@) is None ==> res is Err,
        depth > 1 && literal_of(rhs.internal_tok) is Some ==> (res is Ok <==> namespace_path_of(
            lhs.internal_tok,
            old(ctx).namespace@,
        ) is Some),
        depth > 1 && literal_of(rhs.internal_tok) is Some ==> (res matches Ok(r) ==> r.type_ == literal_type(
            literal_of(rhs.internal_tok)->0,
        )),
    decreases depth,
{
    if depth == 0 {
        return Err(too_deep(lhs));
    }
    let path = unroll_namespace_access(lhs, ctx)?;
    let m = ctx.mark();
    let mut ns = path.internal_tok;
    std::mem::swap(&mut ctx.namespace, &mut ns);
    let typed = type_expression(fn_array, rhs, ctx, depth - 1);
    std::mem::swap(&mut ctx.namespace, &mut ns);
    ctx.restore(&m, true);
    assert(ctx.variables.entries@ =~= old(ctx).variables.entries@);
    assert(ctx.array_dims.entries@ =~= old(ctx).array_dims.entries@);
    typed
}

/// Types a binary operation: member and namespace accesses by their own
/// rules, and the other operators by `binop_type`.
pub fn type_binaryop(
    fn_array: &mut Vec<Typed<TokenWithDebugInfo<Function>>>,
    lhs: &TokenWithDebugInfo<Expression>,
    rhs: &TokenWithDebugInfo<Expression>,
    op: BinOp,
    ctx: &mut Context,
    depth: usize,
) -> (res: Result<Typed<TokenWithDebugInfo<Expression>>, CompileError>)
    ensures
        checker_step(old(ctx), final(ctx), old(fn_array)@, final(fn_array)@),
        scope_kept(old(ctx), final(ctx)),
        op != BinOp::NamespaceAccess && op != BinOp::MemberAccess && depth > 2 ==> (res matches Ok(r)
            ==> r.expr.internal_tok matches Expression::BinaryOp(a, b, _) && keeps_operand(
            old(ctx),
            lhs.internal_tok,
            a.expr.internal_tok,
        ) && keeps_operand(old(ctx), rhs.internal_tok, b.expr.internal_tok)),
        op != BinOp::NamespaceAccess && op != BinOp::MemberAccess ==> (res matches Ok(r) ==> r.expr.internal_tok matches Expression::BinaryOp(
            a,
            b,
            o,
        ) && o == op && (binop_type(op, a.type_, b.type_) matches Some(t) && same_type(r.type_, t))),
        op != BinOp::NamespaceAccess && op != BinOp::MemberAccess && depth > 1 && literal_of(lhs.internal_tok) is Some
            && literal_of(rhs.internal_tok) is Some ==> (res is Ok <==> binop_type(
            op,
            literal_type(literal_of(lhs.internal_tok)->0),
            literal_type(literal_of(rhs.internal_tok)->0),
        ) is Some),
        op != BinOp::NamespaceAccess && op != BinOp::MemberAccess && op != BinOp::NotABinaryOp && depth > 1
            && operand_type(old(ctx), lhs.internal_tok) is Some && operand_type(old(ctx), rhs.internal_tok) is Some ==> {
            let tl = operand_type(old(ctx), lhs.internal_tok)->0;
            let tr = operand_type(old(ctx), rhs.internal_tok)->0;
            &&& res is Ok <==> binop_type(op, tl, tr) is Some
            &&& res matches Ok(r) ==> same_type(r.type_, binop_type(op, tl, tr)->0)
            &&& binop_type(op, tl, tr) is None ==> fails_saying(
                res,
                binop_message(op) + type_text(tl) + "' and '"@ + type_text(tr) + "'"@,
            )
        },
        op == BinOp::NamespaceAccess && depth > 0 && namespace_path_of(lhs.internal_tok, old(ctx).namespace@) is None
            ==> res is Err,
        op == BinOp::NamespaceAccess && depth > 2 && literal_of(rhs.internal_tok) is Some ==> (res is Ok
            <==> namespace_path_of(lhs.internal_tok, old(ctx).namespace@) is Some),
        op == BinOp::NamespaceAccess && depth > 2 && literal_of(rhs.internal_tok) is Some ==> (res matches Ok(r)
            ==> r.type_ == literal_type(literal_of(rhs.internal_tok)->0)),
    decreases depth,
{
    if depth == 0 {
        return Err(too_deep(lhs));
    }
    if op == BinOp::NamespaceAccess {
        return type_namespace_access(fn_array, lhs, rhs, ctx, depth - 1);
    }
    let left = type_expression(fn_array, lhs, ctx, depth - 1)?;
    if op == BinOp::MemberAccess {
        return type_member_access(lhs, rhs, op, ctx, left.expr, left.type_);
    }
    let ghost ctx_r = *ctx;
    let right = type_expression(fn_array, rhs, ctx, depth - 1)?;
    proof {
        if op != BinOp::NotABinaryOp && depth > 1 && operand_type(old(ctx), lhs.internal_tok) is Some
            && operand_type(old(ctx), rhs.internal_tok) is Some {
            assert(ctx_r.variable_type(variable_of(rhs.internal_tok)->0) == old(ctx).variable_type(
                variable_of(rhs.internal_tok)->0,
            ));
            if literal_of(lhs.internal_tok) is None {
                lemma_same_primitive(left.type_, operand_type(old(ctx), lhs.internal_tok)->0);
            }
            if literal_of(rhs.internal_tok) is None {
                lemma_same_primitive(right.type_, operand_type(old(ctx), rhs.internal_tok)->0);
            }
        }
    }
    let t = match binop_result(op, &left.type_, &right.type_) {
        Some(t) => t,
        None => {
            let what = match op {
                BinOp::Add | BinOp::Subtract | BinOp::Multiply | BinOp::Divide => "Invalid types for arithmetic operation: '",
                BinOp::Equal | BinOp::NotEqual | BinOp::LessThan | BinOp::LessOrEqualThan | BinOp::GreaterThan
                | BinOp::GreaterOrEqualThan => "Invalid types for comparison operation: '",
                BinOp::LogicalAnd | BinOp::LogicalOr | BinOp::LogicalXor => "Invalid types for logical operation: '",
                BinOp::NotABinaryOp => return Err(error("Invalid binary operation", lhs)),
                _ => "Invalid types for bitwise operation: '",
            };
            return Err(types_error(what, &left.type_, &right.type_, lhs));
        },
    };
    Ok(
        Typed {
            expr: TokenWithDebugInfo {
                internal_tok: Expression::BinaryOp(Box::new(left), Box::new(right), op),
                line: lhs.line,
                file: lhs.file.clone(),
            },
            type_: t,
        },
    )
}

/// Types a unary operation by `unop_type`.
pub fn type_unaryop(
    fn_array: &mut Vec<Typed<TokenWithDebugInfo<Function>>>,
    expr: &TokenWithDebugInfo<Expression>,
    op: UnOp,
    ctx: &mut Context,
    depth: usize,
) -> (res: Result<Typed<TokenWithDebugInfo<Expression>>, CompileError>)
    ensures
        checker_step(old(ctx), final(ctx), old(fn_array)@, final(fn_array)@),
        scope_kept(old(ctx), final(ctx)),
        res matches Ok(r) ==> r.expr.internal_tok matches Expression::UnaryOp(a, o) && o == op && unop_rule(
            op,
            a.type_,
            r.type_,
        ),
        depth > 1 && literal_of(expr.internal_tok) is Some ==> (res is Ok <==> unop_applies(
            op,
            literal_type(literal_of(expr.internal_tok)->0),
        )),
        depth > 1 && literal_of(expr.internal_tok) is Some ==> (res matches Ok(r) ==> unop_rule(
            op,
            literal_type(literal_of(expr.internal_tok)->0),
            r.type_,
        )),
    decreases depth,
{
    if depth == 0 {
        return Err(too_deep(expr));
    }
    let inner = type_expression(fn_array, expr, ctx, depth - 1)?;
    let (line, file) = (inner.expr.line, inner.expr.file.clone());
    let t = match unop_result(op, &inner.type_, line, &file) {
        Some(t) => t,
        None => {
            return Err(
                match op {
                    UnOp::LogicalNot => type_error("Invalid type for logical not operation: '", &inner.type_, expr),
                    UnOp::Dereference => type_error("Dereferencing a non-pointer type: '", &inner.type_, expr),
                    UnOp::NotAUnaryOp => error("Invalid unary operation", expr),
                    _ => type_error("Invalid type for unary operation: '", &inner.type_, expr),
                },
            )
        },
    };
    Ok(
        Typed {
            expr: TokenWithDebugInfo { internal_tok: Expression::UnaryOp(Box::new(inner), op), line, file },
            type_: t,
        },
    )
}

/// Types an assignment: the target and the value must have the same type,
/// which the operator must allow (see `assignment_allowed`).
pub fn type_assignment(
    fn_array: &mut Vec<Typed<TokenWithDebugInfo<Function>>>,
    var: &TokenWithDebugInfo<ReassignmentIdentifier>,
    expr: &TokenWithDebugInfo<Expression>,
    op: AssignmentOp,
    ctx: &mut Context,
    depth: usize,
) -> (res: Result<Typed<TokenWithDebugInfo<Expression>>, CompileError>)
    ensures
        checker_step(old(ctx), final(ctx), old(fn_array)@, final(fn_array)@),
        scope_kept(old(ctx), final(ctx)),
        res matches Ok(r) ==> r.expr.internal_tok matches Expression::Assignment(l, v, o) && o == op
            && same_type(l.type_, v.type_) && assignment_allowed(op, l.type_) && same_type(r.type_, l.type_),
        var.internal_tok matches ReassignmentIdentifier::Variable(v) ==> (depth > 1 && literal_of(expr.internal_tok) is Some
            ==> match old(ctx).variable_type(v.internal_tok@) {
            Some(t) => (res is Ok <==> same_type(literal_type(literal_of(expr.internal_tok)->0), t)
                && assignment_allowed(op, t)),
            None => res is Err,
        }),
    decreases depth,
{
    if depth == 0 {
        return Err(too_deep(expr));
    }
    let rhs = type_expression(fn_array, expr, ctx, depth - 1)?;
    let (line, file) = (var.line, var.file.clone());
    let (new_lhs, lhs_type) = match &var.internal_tok {
        ReassignmentIdentifier::Variable(v) => match ctx.get_variable(v.internal_tok.as_str()) {
            Some(t) => (ReassignmentIdentifier::Variable(clone_name(v)), clone_type(t)),
            None => return Err(error_with_name("Variable '", v.internal_tok.as_str(), "' not in scope", v)),
        },
        ReassignmentIdentifier::Array(arr, idxs) => {
            let access = TokenWithDebugInfo {
                internal_tok: Expression::ArrayAccess(
                    Box::new(Typed { expr: clone_expression_info(&arr.expr), type_: clone_type(&arr.type_) }),
                    crate::ast_build::clone_typed_expressions(idxs),
                ),
                line,
                file: file.clone(),
            };
            let typed = type_expression(fn_array, &access, ctx, depth - 1)?;
            match typed.expr.internal_tok {
                Expression::ArrayAccess(e1, e2) => (ReassignmentIdentifier::Array(e1, e2), typed.type_),
                _ => return Err(error("Unreachable code in array access", var)),
            }
        },
        ReassignmentIdentifier::Dereference(e) => {
            let typed = type_expression(fn_array, &e.expr, ctx, depth - 1)?;
            match &typed.type_ {
                Type::Pointer(t) => {
                    let inner = clone_type(&t.internal_tok);
                    (ReassignmentIdentifier::Dereference(Box::new(typed)), inner)
                },
                _ => return Err(type_error("Dereferencing a non-pointer type: '", &typed.type_, &e.expr)),
            }
        },
        ReassignmentIdentifier::MemberAccess(obj, mbr) => {
            let access = TokenWithDebugInfo {
                internal_tok: Expression::BinaryOp(
                    Box::new(Typed { expr: clone_expression_info(&obj.expr), type_: clone_type(&obj.type_) }),
                    Box::new(Typed { expr: clone_expression_info(&mbr.expr), type_: clone_type(&mbr.type_) }),
                    BinOp::MemberAccess,
                ),
                line,
                file: file.clone(),
            };
            let typed = type_expression(fn_array, &access, ctx, depth - 1)?;
            match typed.expr.internal_tok {
                Expression::BinaryOp(e1, e2, o) => {
                    if o != BinOp::MemberAccess {
                        return Err(error("Unreachable code in member access", var));
                    }
                    // A member is assigned through its index, as an array
                    // element of the struct.
                    (ReassignmentIdentifier::Array(e1, vec![*e2]), typed.type_)
                },
                _ => return Err(error("Unreachable code in member access", var)),
            }
        },
    };
    if !types_equal(&lhs_type, &rhs.type_) {
        return Err(
            types_error(
                "Assignment types do not match, on the left and on the right: '",
                &lhs_type,
                &rhs.type_,
                var,
            ),
        );
    }
    let allowed = match op {
        AssignmentOp::Assign => true,
        AssignmentOp::AddAssign | AssignmentOp::SubtractAssign | AssignmentOp::MultiplyAssign
        | AssignmentOp::DivideAssign => {
            if matches!(lhs_type, Type::Int) || matches!(lhs_type, Type::Float) {
                true
            } else {
                return Err(
                    types_error(
                        "This assignment operation is only supported for integers and floats, but got '",
                        &lhs_type,
                        &rhs.type_,
                        var,
                    ),
                );
            }
        },
        AssignmentOp::BitwiseAndAssign | AssignmentOp::BitwiseOrAssign | AssignmentOp::BitwiseXorAssign
        | AssignmentOp::LeftShiftAssign | AssignmentOp::RightShiftAssign | AssignmentOp::ModulusAssign => {
            if matches!(lhs_type, Type::Int) {
                true
            } else {
                return Err(
                    types_error(
                        "This assignment operation is only supported for integers, but got '",
                        &lhs_type,
                        &rhs.type_,
                        var,
                    ),
                );
            }
        },
        AssignmentOp::NotAnAssignmentOp => return Err(error("Invalid assignment operation", var)),
    };
    let result_type = clone_type(&lhs_type);
    proof {
        crate::shared::lemma_same_type_reflexive(lhs_type);
    }
    let t2 = lhs_type;
    Ok(
        Typed {
            expr: TokenWithDebugInfo {
                internal_tok: Expression::Assignment(
                    Typed { expr: TokenWithDebugInfo { internal_tok: new_lhs, line, file: file.clone() }, type_: t2 },
                    Box::new(rhs),
                    op,
                ),
                line,
                file,
            },
            type_: result_type,
        },
    )
}


/// Whether `e` is the integer literal `i`, typed `int`, with each of its
/// nodes located at `line` of `file`.
pub open spec fn int_literal_at(e: Expression, i: i64, line: usize, file: Seq<char>) -> bool {
    &&& e matches Expression::Atom(a)
    &&& a.type_ is Int
    &&& a.expr.line == line
    &&& a.expr.file@ == file
    &&& a.expr.internal_tok matches Atom::Literal(l)
    &&& l.type_ is Int
    &&& l.expr.line == line
    &&& l.expr.file@ == file
    &&& l.expr.internal_tok == Literal::Int(i)
}

/// The integer expression `0`, located at `line` of `file`.
fn zero_expression(line: usize, file: &String) -> (res: Expression)
    ensures
        int_literal_at(res, 0, line, file@),
{
    int_literal(0, line, file).expr.internal_tok
}

/// Whether `e` is the row-major index `((0 * d1 + i1) * d2 + i2) ...` over
/// the first `n` of the dimensions `dims` and the literal indices `idx`, each
/// dimension and index as the literal it is.
pub open spec fn flat_index(
    e: Expression,
    dims: Seq<Expression>,
    idx: Seq<Typed<TokenWithDebugInfo<Expression>>>,
    n: int,
) -> bool
    decreases n,
{
    if n <= 0 {
        literal_of(e) == Some(Literal::Int(0))
    } else {
        &&& e matches Expression::BinaryOp(scaled, i, BinOp::Add)
        &&& literal_of(i.expr.internal_tok) == literal_of(idx[n - 1].expr.internal_tok)
        &&& scaled.expr.internal_tok matches Expression::BinaryOp(prev, d, BinOp::Multiply)
        &&& literal_of(d.expr.internal_tok) == literal_of(dims[n - 1])
        &&& flat_index(prev.expr.internal_tok, dims, idx, n - 1)
    }
}

/// Types an array access `expr[indices]`: the array must be of an array
/// type and every index an int. Several indices, on an array variable,
/// become one: `((0 * d1 + i1) * d2 + i2) ...` with the dimensions the
/// variable was declared with.
pub fn type_arrayaccess(
    fn_array: &mut Vec<Typed<TokenWithDebugInfo<Function>>>,
    expr: &TokenWithDebugInfo<Expression>,
    indices: &Vec<Typed<TokenWithDebugInfo<Expression>>>,
    ctx: &mut Context,
    depth: usize,
) -> (res: Result<Typed<TokenWithDebugInfo<Expression>>, CompileError>)
    ensures
        checker_step(old(ctx), final(ctx), old(fn_array)@, final(fn_array)@),
        scope_kept(old(ctx), final(ctx)),
        res matches Ok(r) ==> r.expr.internal_tok matches Expression::ArrayAccess(_, idx) && idx@.len() == 1
            && idx@[0].type_ is Int,
        indices@.len() == 0 ==> res is Err,
        depth > 1 && variable_of(expr.internal_tok) is Some ==> match old(ctx).variable_type(
            variable_of(expr.internal_tok)->0,
        ) {
            Some(Type::Array(el)) => (res matches Ok(r) ==> same_type(r.type_, el.internal_tok)) && (indices@.len()
                == 1 && all_literals(indices@) ==> (res is Ok <==> literal_of(indices@[0].expr.internal_tok)->0
                is Int || literal_of(indices@[0].expr.internal_tok)->0 is Hex || literal_of(
                indices@[0].expr.internal_tok,
            )->0 is Binary)),
            Some(_) => res is Err,
            None => true,
        },
        depth > 2 && indices@.len() == 1 ==> (res matches Ok(r) ==> r.expr.internal_tok matches Expression::ArrayAccess(
            _,
            idx,
        ) && keeps_operand(old(ctx), indices@[0].expr.internal_tok, idx@[0].expr.internal_tok)),
        variable_of(expr.internal_tok) matches Some(v) ==> (depth > 1 && indices@.len() > 1 && all_literals(indices@)
            && old(ctx).variable_type(v) is Some ==> (res matches Ok(r) ==> {
            &&& old(ctx).array_dims.value_of(v) matches Some(dims)
            &&& r.expr.internal_tok matches Expression::ArrayAccess(_, idx)
            &&& flat_index(
                idx@[0].expr.internal_tok,
                dims@,
                indices@,
                if dims@.len() < indices@.len() {
                    dims@.len() as int
                } else {
                    indices@.len() as int
                },
            )
        })),
    decreases depth,
{
    if depth == 0 {
        return Err(too_deep(expr));
    }
    let (line, file) = (expr.line, expr.file.clone());
    let arr = type_expression(fn_array, expr, ctx, depth - 1)?;
    let element_type = match &arr.type_ {
        Type::Array(e) => clone_type(&e.internal_tok),
        _ => return Err(type_error("Array access on non-array type: '", &arr.type_, expr)),
    };
    proof {
        if depth > 1 && variable_of(expr.internal_tok) is Some {
            if let Some(Type::Array(el)) = old(ctx).variable_type(variable_of(expr.internal_tok)->0) {
                let e = arr.type_->Array_0;
                crate::shared::lemma_same_type_transitive(element_type, e.internal_tok, el.internal_tok);
            }
        }
    }
    let mut new_indices: Vec<TokenWithDebugInfo<Expression>> = Vec::new();
    let mut i: usize = 0;
    while i < indices.len()
        invariant
            i <= indices@.len(),
            new_indices@.len() == i,
            depth > 0,
            depth > 1 && all_literals(indices@) ==> forall|j: int|
                0 <= j < i ==> literal_type(#[trigger] literal_of(indices@[j].expr.internal_tok)->0) is Int,
            depth > 1 && all_literals(indices@) ==> forall|j: int|
                0 <= j < i ==> literal_of(#[trigger] new_indices@[j].internal_tok) == literal_of(
                    indices@[j].expr.internal_tok,
                ),
            depth > 2 ==> forall|j: int|
                0 <= j < i ==> keeps_operand(
                    old(ctx),
                    indices@[j].expr.internal_tok,
                    (#[trigger] new_indices@[j]).internal_tok,
                ),
            checker_step(old(ctx), ctx, old(fn_array)@, fn_array@),
            scope_kept(old(ctx), ctx),
        decreases indices@.len() - i,
    {
        let t = type_expression(fn_array, &indices[i].expr, ctx, depth - 1)?;
        if !matches!(t.type_, Type::Int) {
            return Err(type_error("Array index must be an integer, but got '", &t.type_, &indices[i].expr));
        }
        new_indices.push(t.expr);
        i = i + 1;
    }
    let new_index: Expression;
    if indices.len() > 1 {
        let name = match &arr.expr.internal_tok {
            Expression::Atom(a) => match &a.expr.internal_tok {
                Atom::Variable(n) => n,
                _ => return Err(error("Multidimensional array access must be on a variable", expr)),
            },
            _ => return Err(error("Multidimensional array access must be on a variable", expr)),
        };
        let dims = match ctx.array_dims.get(name.internal_tok.as_str()) {
            Some(d) => d,
            None => return Err(error("Array dimensions not found", expr)),
        };
        let mut acc = zero_expression(line, &file);
        let mut k: usize = 0;
        while k < dims.len() && k < new_indices.len()
            invariant
                k <= dims@.len(),
                k <= new_indices@.len(),
                new_indices@.len() == indices@.len(),
                depth > 1 && all_literals(indices@) ==> forall|j: int|
                    0 <= j < new_indices@.len() ==> literal_of(#[trigger] new_indices@[j].internal_tok) == literal_of(
                        indices@[j].expr.internal_tok,
                    ),
                flat_index(acc, dims@, indices@, k as int) || !(depth > 1 && all_literals(indices@)),
            decreases dims@.len() - k,
        {
            let scaled = Expression::BinaryOp(
                Box::new(Typed { expr: TokenWithDebugInfo { internal_tok: acc, line, file: file.clone() }, type_: Type::Int }),
                Box::new(
                    Typed {
                        expr: TokenWithDebugInfo { internal_tok: clone_expression(&dims[k]), line, file: file.clone() },
                        type_: Type::Int,
                    },
                ),
                BinOp::Multiply,
            );
            acc = Expression::BinaryOp(
                Box::new(Typed { expr: TokenWithDebugInfo { internal_tok: scaled, line, file: file.clone() }, type_: Type::Int }),
                Box::new(Typed { expr: clone_expression_info(&new_indices[k]), type_: Type::Int }),
                BinOp::Add,
            );
            k = k + 1;
        }
        new_index = acc;
    } else if new_indices.len() == 1 {
        new_index = clone_expression(&new_indices[0].internal_tok);
    } else {
        return Err(error("Array access has no index", expr));
    }
    let index = Typed { expr: TokenWithDebugInfo { internal_tok: new_index, line, file: file.clone() }, type_: Type::Int };
    Ok(
        Typed {
            expr: TokenWithDebugInfo {
                internal_tok: Expression::ArrayAccess(Box::new(Typed { expr: arr.expr, type_: Type::Int }), vec![index]),
                line,
                file,
            },
            type_: element_type,
        },
    )
}

// ---------------------------------------------------------------------------
// Statements and functions.

/// The type of a list of typed statements: that of the last one that is not
/// `void`, or `void`.
pub open spec fn last_non_void(stmts: Seq<Typed<TokenWithDebugInfo<Statement>>>) -> Type
    decreases stmts.len(),
{
    if stmts.len() == 0 {
        Type::Void
    } else if stmts.last().type_ is Void {
        last_non_void(stmts.drop_last())
    } else {
        stmts.last().type_
    }
}

/// Whether the typed statement `r`, made of `s`, follows the typing rules:
/// conditions are bools, an `if` and its `else` have one type, a block has
/// the type of its last statement that is not `void`, a loop the type of its
/// body, a statement of an expression the type of that expression, and a
/// `let` with a value declares the value's type.
pub open spec fn statement_typed(s: Statement, r: Typed<TokenWithDebugInfo<Statement>>) -> bool {
    match s {
        Statement::If(_, _, _) => r.expr.internal_tok matches Statement::If(c, t, e) && c.type_ is Bool
            && same_type(r.type_, t.type_) && (e matches Some(b) ==> same_type(b.type_, t.type_)),
        Statement::While(_, _) => r.expr.internal_tok matches Statement::While(c, b) && c.type_ is Bool
            && same_type(r.type_, b.type_),
        Statement::Dowhile(_, _) => r.expr.internal_tok matches Statement::Dowhile(c, b) && c.type_ is Bool
            && same_type(r.type_, b.type_),
        Statement::For(_, _, _, _) => r.expr.internal_tok matches Statement::For(_, c, _, b) && c.type_ is Bool
            && same_type(r.type_, b.type_),
        Statement::Loop(_) => r.expr.internal_tok matches Statement::Loop(b) && same_type(r.type_, b.type_),
        Statement::Expression(_) => r.expr.internal_tok matches Statement::Expression(e) && same_type(
            r.type_,
            e.type_,
        ),
        Statement::Return(_) => r.expr.internal_tok matches Statement::Return(e) && same_type(r.type_, e.type_),
        Statement::Compound(_) => r.expr.internal_tok matches Statement::Compound(v) && same_type(
            r.type_,
            last_non_void(v@),
        ),
        Statement::Let(_, Some(_), _) => r.expr.internal_tok matches Statement::Let(_, Some(e), t) && same_type(
            t.internal_tok,
            e.type_,
        ),
        Statement::Let(_, None, _) => r.expr.internal_tok matches Statement::Let(_, None, _),
        Statement::Break => r.expr.internal_tok is Break && r.type_ is Void,
        Statement::Continue => r.expr.internal_tok is Continue && r.type_ is Void,
        Statement::Asm(_, _) => r.expr.internal_tok is Asm,
    }
}

/// Whether `s` is a statement that types whatever the context: `break`,
/// `continue`, a literal as a statement or returned, or a `let` of a
/// variable of a primitive type bound to a literal of that type.
pub open spec fn simple_statement(s: Statement) -> bool {
    match s {
        Statement::Break => true,
        Statement::Continue => true,
        Statement::Expression(e) => literal_of(e.expr.internal_tok) is Some,
        Statement::Return(e) => literal_of(e.expr.internal_tok) is Some,
        Statement::Let(id, Some(e), t) => {
            &&& id.internal_tok is Variable
            &&& literal_of(e.expr.internal_tok) is Some
            &&& is_primitive(t.internal_tok)
            &&& same_type(literal_type(literal_of(e.expr.internal_tok)->0), t.internal_tok)
        },
        _ => false,
    }
}

/// The type of the simple statement `s`.
pub open spec fn simple_type(s: Statement) -> Type {
    match s {
        Statement::Expression(e) => literal_type(literal_of(e.expr.internal_tok)->0),
        Statement::Return(e) => literal_type(literal_of(e.expr.internal_tok)->0),
        Statement::Let(_, _, t) => t.internal_tok,
        _ => Type::Void,
    }
}

/// The type that the last `let` among `stmts` that declares the variable
/// `v` gives it, where one does.
pub open spec fn declared_in(stmts: Seq<Typed<TokenWithDebugInfo<Statement>>>, v: Seq<char>) -> Option<Type>
    decreases stmts.len(),
{
    if stmts.len() == 0 {
        None
    } else {
        match stmts.last().expr.internal_tok {
            Statement::Let(id, _, t) => match id.internal_tok {
                AssignmentIdentifier::Variable(name) => if name.internal_tok@ == v {
                    Some(t.internal_tok)
                } else {
                    declared_in(stmts.drop_last(), v)
                },
                _ => declared_in(stmts.drop_last(), v),
            },
            _ => declared_in(stmts.drop_last(), v),
        }
    }
}

/// The variable that the statement `s` evaluates on its own or returns,
/// where it is one (`x;`, `return x;`).
pub open spec fn shown_variable(s: Statement) -> Option<Seq<char>> {
    match s {
        Statement::Expression(e) => variable_of(e.expr.internal_tok),
        Statement::Return(e) => variable_of(e.expr.internal_tok),
        _ => None,
    }
}

/// Whether `s`, which follows the statements `before` in a block, types
/// whatever the context: a simple statement, or a variable that a `let`
/// among `before` declared.
pub open spec fn scoped_statement(before: Seq<Typed<TokenWithDebugInfo<Statement>>>, s: Statement) -> bool {
    ||| simple_statement(s)
    ||| (shown_variable(s) matches Some(v) && declared_in(before, v) is Some)
    ||| bound_let(before, s)
    ||| (shown_value(s) matches Some(e) && block_operation_type(before, e) is Some)
}

/// The expression that the statement `s` evaluates on its own or returns.
pub open spec fn shown_value(s: Statement) -> Option<Expression> {
    match s {
        Statement::Expression(e) => Some(e.expr.internal_tok),
        Statement::Return(e) => Some(e.expr.internal_tok),
        _ => None,
    }
}

/// The type of the operand `e` after the statements `before` of a block: a
/// literal, or a variable of a primitive type that a `let` among them
/// declared.
pub open spec fn block_operand_type(before: Seq<Typed<TokenWithDebugInfo<Statement>>>, e: Expression) -> Option<Type> {
    match literal_of(e) {
        Some(l) => Some(literal_type(l)),
        None => match variable_of(e) {
            Some(v) => match declared_in(before, v) {
                Some(t) => if is_primitive(t) {
                    Some(t)
                } else {
                    None
                },
                None => None,
            },
            None => None,
        },
    }
}

/// The type of `e` after the statements `before` of a block, where it is a
/// binary operation (other than an access) on two such operands whose types
/// go together.
pub open spec fn block_operation_type(before: Seq<Typed<TokenWithDebugInfo<Statement>>>, e: Expression) -> Option<
    Type,
> {
    match e {
        Expression::BinaryOp(l, r, op) => if op != BinOp::NamespaceAccess && op != BinOp::MemberAccess && op
            != BinOp::NotABinaryOp && block_operand_type(before, l.expr.internal_tok) is Some && block_operand_type(
            before,
            r.expr.internal_tok,
        ) is Some {
            binop_type(
                op,
                block_operand_type(before, l.expr.internal_tok)->0,
                block_operand_type(before, r.expr.internal_tok)->0,
            )
        } else {
            None
        },
        _ => None,
    }
}

/// Whether `s` is a `let` of a variable of a primitive type, bound to a
/// value of the same type: a variable that a `let` among `before` declared,
/// or an operation on operands of the block (see `block_operation_type`).
pub open spec fn bound_let(before: Seq<Typed<TokenWithDebugInfo<Statement>>>, s: Statement) -> bool {
    &&& s matches Statement::Let(id, Some(e), t)
    &&& id.internal_tok is Variable
    &&& is_primitive(t.internal_tok)
    &&& block_value_type(before, e.expr.internal_tok) matches Some(dt)
    &&& same_type(dt, t.internal_tok)
}

/// The type of the value `e` after the statements `before` of a block: that
/// of a variable that a `let` among them declared, or of an operation on
/// operands of the block.
pub open spec fn block_value_type(before: Seq<Typed<TokenWithDebugInfo<Statement>>>, e: Expression) -> Option<Type> {
    match variable_of(e) {
        Some(v) => declared_in(before, v),
        None => block_operation_type(before, e),
    }
}

/// The type of the statement `s` that follows `before` in a block (see
/// `scoped_statement`).
pub open spec fn scoped_type(before: Seq<Typed<TokenWithDebugInfo<Statement>>>, s: Statement) -> Type {
    if simple_statement(s) || s is Let {
        simple_type(s)
    } else if shown_variable(s) is Some {
        declared_in(before, shown_variable(s)->0)->0
    } else {
        block_operation_type(before, shown_value(s)->0)->0
    }
}

/// Whether each statement of the block `stmts` types whatever the context,
/// the variables that its simple `let` statements declare included.
pub open spec fn scoped_statements(stmts: Seq<Typed<TokenWithDebugInfo<Statement>>>) -> bool {
    forall|i: int| 0 <= i < stmts.len() ==> scoped_statement(stmts.take(i), #[trigger] stmts[i].expr.internal_tok)
}

/// The type of such a block: that of its last statement that is not
/// `void`, or `void`.
pub open spec fn scoped_block_type(stmts: Seq<Typed<TokenWithDebugInfo<Statement>>>) -> Type
    decreases stmts.len(),
{
    if stmts.len() == 0 {
        Type::Void
    } else if scoped_type(stmts.drop_last(), stmts.last().expr.internal_tok) is Void {
        scoped_block_type(stmts.drop_last())
    } else {
        scoped_type(stmts.drop_last(), stmts.last().expr.internal_tok)
    }
}

/// Where every variable that the statements `before` declare has its
/// declared type in `ctx`, an operation on operands of the block types in
/// `ctx` as it does in the block.
proof fn lemma_operation_in_block(before: Seq<Typed<TokenWithDebugInfo<Statement>>>, e: Expression, ctx: Context)
    requires
        block_operation_type(before, e) is Some,
        forall|v: Seq<char>|
            #[trigger] declared_in(before, v) is Some ==> (ctx.variables.value_of(v) matches Some(t2) && same_type(
                t2,
                declared_in(before, v)->0,
            )),
    ensures
        operation_type(&ctx, e) == block_operation_type(before, e),
{
    if let Expression::BinaryOp(l, r, _) = e {
        if let Some(v) = variable_of(l.expr.internal_tok) {
            if literal_of(l.expr.internal_tok) is None {
                assert(declared_in(before, v) is Some);
                lemma_same_primitive(ctx.variables.value_of(v)->0, declared_in(before, v)->0);
            }
        }
        if let Some(v) = variable_of(r.expr.internal_tok) {
            if literal_of(r.expr.internal_tok) is None {
                assert(declared_in(before, v) is Some);
                lemma_same_primitive(ctx.variables.value_of(v)->0, declared_in(before, v)->0);
            }
        }
    }
}

/// Where each typed statement of `typed` has the type of the statement at
/// its position in `stmts`, the block types as `scoped_block_type` says.
proof fn lemma_scoped_block_type(
    typed: Seq<Typed<TokenWithDebugInfo<Statement>>>,
    stmts: Seq<Typed<TokenWithDebugInfo<Statement>>>,
)
    requires
        typed.len() == stmts.len(),
        forall|i: int|
            0 <= i < stmts.len() ==> same_type(
                #[trigger] typed[i].type_,
                scoped_type(stmts.take(i), stmts[i].expr.internal_tok),
            ),
    ensures
        same_type(last_non_void(typed), scoped_block_type(stmts)),
    decreases stmts.len(),
{
    if stmts.len() > 0 {
        let n = stmts.len() - 1;
        assert(stmts.take(n) =~= stmts.drop_last());
        assert(same_type(typed[n].type_, scoped_type(stmts.take(n), stmts[n].expr.internal_tok)));
        assert forall|i: int| 0 <= i < n implies same_type(
            #[trigger] typed.drop_last()[i].type_,
            scoped_type(stmts.drop_last().take(i), stmts.drop_last()[i].expr.internal_tok),
        ) by {
            assert(stmts.drop_last().take(i) =~= stmts.take(i));
            assert(same_type(typed[i].type_, scoped_type(stmts.take(i), stmts[i].expr.internal_tok)));
        }
        lemma_scoped_block_type(typed.drop_last(), stmts.drop_last());
    }
}

/// The literal that the statement `s` binds, returns or evaluates, where it
/// is one.
pub open spec fn value_literal(s: Statement) -> Option<Literal> {
    match s {
        Statement::Let(_, Some(e), _) => literal_of(e.expr.internal_tok),
        Statement::Return(e) => literal_of(e.expr.internal_tok),
        Statement::Expression(e) => literal_of(e.expr.internal_tok),
        _ => None,
    }
}

/// The literal that the condition of the statement `s` is, where it has a
/// condition and it is a literal.
pub open spec fn condition_literal(s: Statement) -> Option<Literal> {
    match s {
        Statement::If(c, _, _) => literal_of(c.expr.internal_tok),
        Statement::While(c, _) => literal_of(c.expr.internal_tok),
        Statement::Dowhile(c, _) => literal_of(c.expr.internal_tok),
        Statement::For(_, c, _, _) => literal_of(c.expr.internal_tok),
        _ => None,
    }
}

/// The types of the two branches of `s`, where it is an `if` with an
/// `else`, whose condition is a `bool` literal and whose branches are blocks
/// that type whatever the context (see `scoped_statements`).
pub open spec fn scoped_branches(s: Statement) -> Option<(Type, Type)> {
    match s {
        Statement::If(c, a, Some(b)) => match (a.expr.internal_tok, b.expr.internal_tok) {
            (Statement::Compound(va), Statement::Compound(vb)) => if literal_of(c.expr.internal_tok) matches Some(
                Literal::Bool(_),
            ) && scoped_statements(va@) && scoped_statements(vb@) {
                Some((scoped_block_type(va@), scoped_block_type(vb@)))
            } else {
                None
            },
            _ => None,
        },
        _ => None,
    }
}

/// The type of `s`, where it is a loop, or an `if` without `else`, whose
/// condition (if it has one) is a `bool` literal and whose body is a block
/// that types whatever the context (see `scoped_statements`): that of the
/// body.
pub open spec fn scoped_body(s: Statement) -> Option<Type> {
    let (cond_ok, body) = match s {
        Statement::If(c, a, None) => (literal_of(c.expr.internal_tok) matches Some(Literal::Bool(_)), Some(a.expr.internal_tok)),
        Statement::While(c, b) => (literal_of(c.expr.internal_tok) matches Some(Literal::Bool(_)), Some(b.expr.internal_tok)),
        Statement::Dowhile(c, b) => (literal_of(c.expr.internal_tok) matches Some(Literal::Bool(_)), Some(b.expr.internal_tok)),
        Statement::Loop(b) => (true, Some(b.expr.internal_tok)),
        _ => (false, None),
    };
    match body {
        Some(Statement::Compound(v)) => if cond_ok && scoped_statements(v@) {
            Some(scoped_block_type(v@))
        } else {
            None
        },
        _ => None,
    }
}

/// The start of the error for a condition of `s` that is not a `bool`.
pub open spec fn condition_message(s: Statement) -> Seq<char> {
    match s {
        Statement::If(_, _, _) => "Condition in if statement is not a boolean: '"@,
        Statement::While(_, _) => "Condition in while statement is not a boolean: '"@,
        Statement::Dowhile(_, _) => "Condition in do while statement is not a boolean: '"@,
        _ => "Condition in for statement is not a boolean: '"@,
    }
}

/// A type that is the same as a primitive type is that type.
proof fn lemma_same_primitive(a: Type, b: Type)
    requires
        is_primitive(b),
        same_type(a, b),
    ensures
        a == b,
{
}

/// Whether the typed statement `s` is a `let` of the same target as `id`.
pub open spec fn let_kept(s: Statement, id: AssignmentIdentifier) -> bool {
    s matches Statement::Let(id2, _, _) && crate::ast_build::same_target(id2.internal_tok, id)
}

/// The type of a condition, which must be `bool`.
fn check_condition(
    fn_array: &mut Vec<Typed<TokenWithDebugInfo<Function>>>,
    cond: &TokenWithDebugInfo<Expression>,
    what: &str,
    ctx: &mut Context,
    depth: usize,
) -> (res: Result<Typed<TokenWithDebugInfo<Expression>>, CompileError>)
    ensures
        checker_step(old(ctx), final(ctx), old(fn_array)@, final(fn_array)@),
        scope_kept(old(ctx), final(ctx)),
        res matches Ok(c) ==> c.type_ is Bool,
        depth > 1 && literal_of(cond.internal_tok) is Some ==> (res is Ok <==> literal_of(cond.internal_tok)->0 is Bool),
        depth > 1 && literal_of(cond.internal_tok) is Some ==> (res matches Ok(c) ==> literal_of(c.expr.internal_tok)
            == literal_of(cond.internal_tok)),
        literal_of(cond.internal_tok) matches Some(l) ==> (depth > 1 && !(l is Bool) ==> fails_saying(
            res,
            what@ + type_text(literal_type(l)) + "'"@,
        )),
    decreases depth,
{
    if depth == 0 {
        return Err(too_deep(cond));
    }
    let c = type_expression(fn_array, cond, ctx, depth - 1)?;
    if !matches!(c.type_, Type::Bool) {
        return Err(type_error(what, &c.type_, cond));
    }
    Ok(c)
}

/// A copy of the left hand side of a `let`, with its debug information.
fn clone_target(id: &TokenWithDebugInfo<AssignmentIdentifier>) -> (res: TokenWithDebugInfo<AssignmentIdentifier>)
    ensures
        res.line == id.line,
        res.file@ == id.file@,
        crate::ast_build::same_target(res.internal_tok, id.internal_tok),
{
    TokenWithDebugInfo {
        internal_tok: crate::ast_build::clone_assignment_identifier(&id.internal_tok),
        line: id.line,
        file: id.file.clone(),
    }
}

/// The type of the variable under the dereferences of `id`, for a `let`
/// of the type `t`: each `*` takes a pointer to what it points to; `None`
/// where one of them meets a type that is no pointer.
pub open spec fn stripped(id: AssignmentIdentifier, t: TokenWithDebugInfo<Type>) -> Option<TokenWithDebugInfo<Type>>
    decreases id,
{
    match id {
        AssignmentIdentifier::Dereference(inner) => match t.internal_tok {
            Type::Pointer(p) => stripped(inner.expr.internal_tok, *p),
            _ => None,
        },
        _ => Some(t),
    }
}

/// The type that the variable under the dereferences of `id` has, for a
/// `let` of the type `t`: each `*` takes a pointer to what it points to.
fn strip_dereferences(id: &TokenWithDebugInfo<AssignmentIdentifier>, t: TokenWithDebugInfo<Type>) -> (res: Result<
    TokenWithDebugInfo<Type>,
    CompileError,
>)
    ensures
        match stripped(id.internal_tok, t) {
            Some(s) => res matches Ok(r) && r == s,
            None => res is Err,
        },
    decreases id,
{
    match &id.internal_tok {
        AssignmentIdentifier::Dereference(inner) => match t.internal_tok {
            Type::Pointer(p) => strip_dereferences(&inner.expr, *p),
            other => Err(type_error("Dereferencing a non-pointer type: '", &other, id)),
        },
        _ => Ok(t),
    }
}

/// The variable under the dereferences of `id`.
fn declared_target(id: &TokenWithDebugInfo<AssignmentIdentifier>) -> (res: &TokenWithDebugInfo<AssignmentIdentifier>)
    ensures
        !(res.internal_tok is Dereference),
        !(id.internal_tok is Dereference) ==> res == id,
    decreases id,
{
    match &id.internal_tok {
        AssignmentIdentifier::Dereference(inner) => declared_target(&inner.expr),
        _ => id,
    }
}

/// Whether `f` types whatever the context but for its return type: its
/// parameters and return type are primitive, and its body is a block of
/// statements that type whatever the context (see `scoped_statements`).
pub open spec fn simple_function(f: Function) -> bool {
    &&& primitive_members(f.args@)
    &&& is_primitive(f.return_type.internal_tok)
    &&& f.body.expr.internal_tok matches Statement::Compound(v)
    &&& scoped_statements(v@)
}

/// The type of the body of a simple function.
pub open spec fn simple_body_type(f: Function) -> Type {
    match f.body.expr.internal_tok {
        Statement::Compound(v) => scoped_block_type(v@),
        _ => Type::Void,
    }
}

/// Types a function: its parameters are in scope in its body, whose type
/// must be its return type. Only the functions instantiated meanwhile are
/// kept in the context. The function is named by `namespace_path` and its
/// name, and has no type parameters left.
pub fn type_function(
    fn_array: &mut Vec<Typed<TokenWithDebugInfo<Function>>>,
    function: &TokenWithDebugInfo<Function>,
    ctx: &mut Context,
    namespace_path: &String,
    depth: usize,
) -> (res: Result<Typed<TokenWithDebugInfo<Function>>, CompileError>)
    ensures
        checker_step(old(ctx), final(ctx), old(fn_array)@, final(fn_array)@),
        scope_kept(old(ctx), final(ctx)),
        res matches Ok(f) ==> {
            &&& same_type(f.expr.internal_tok.body.type_, f.expr.internal_tok.return_type.internal_tok)
            &&& same_type(f.type_, f.expr.internal_tok.return_type.internal_tok)
            &&& f.expr.internal_tok.id.internal_tok@ == namespace_path@ + function.internal_tok.id.internal_tok@
            &&& f.expr.internal_tok.generics@.len() == 0
            &&& f.expr.internal_tok.args@.len() == function.internal_tok.args@.len()
        },
        depth > 7 && simple_function(function.internal_tok) ==> (res is Ok <==> same_type(
            simple_body_type(function.internal_tok),
            function.internal_tok.return_type.internal_tok,
        )),
    decreases depth,
{
    if depth == 0 {
        return Err(too_deep(function));
    }
    let f = &function.internal_tok;
    let (line, file) = (function.line, function.file.clone());
    let name = concat(namespace_path.as_str(), f.id.internal_tok.as_str());
    let m = ctx.mark();
    let scoped = type_function_scope(fn_array, f, ctx, depth - 1);
    ctx.restore(&m, true);
    assert(ctx.variables.entries@ =~= old(ctx).variables.entries@);
    assert(ctx.array_dims.entries@ =~= old(ctx).array_dims.entries@);
    let (params, body, return_type) = scoped?;
    proof {
        if depth > 7 && simple_function(function.internal_tok) {
            let bt = simple_body_type(function.internal_tok);
            let rt = function.internal_tok.return_type.internal_tok;
            if same_type(body.type_, return_type.internal_tok) {
                crate::shared::lemma_same_type_symmetric(body.type_, bt);
                crate::shared::lemma_same_type_transitive(bt, body.type_, return_type.internal_tok);
                crate::shared::lemma_same_type_transitive(bt, return_type.internal_tok, rt);
            }
            if same_type(bt, rt) {
                crate::shared::lemma_same_type_transitive(body.type_, bt, rt);
                crate::shared::lemma_same_type_symmetric(return_type.internal_tok, rt);
                crate::shared::lemma_same_type_transitive(body.type_, rt, return_type.internal_tok);
            }
        }
    }
    if !types_equal(&body.type_, &return_type.internal_tok) {
        let bt = type_to_string(&body.type_);
        let rt = type_to_string(&return_type.internal_tok);
        let msg = concat("Function '", name.as_str());
        let msg = concat(msg.as_str(), "' body type (");
        let msg = concat(msg.as_str(), bt.as_str());
        let msg = concat(msg.as_str(), ") does not match return type (");
        return Err(error_with_name(msg.as_str(), rt.as_str(), ")", &f.body.expr));
    }
    let t = clone_type(&return_type.internal_tok);
    Ok(
        Typed {
            expr: TokenWithDebugInfo {
                internal_tok: Function {
                    id: TokenWithDebugInfo { internal_tok: name, line, file: file.clone() },
                    args: params,
                    body,
                    return_type,
                    generics: Vec::new(),
                },
                line,
                file,
            },
            type_: t,
        },
    )
}

/// Puts the parameters of `f` in scope and types its body; returns the
/// parameters, with their types resolved, the typed body and the resolved
/// return type.
fn type_function_scope(
    fn_array: &mut Vec<Typed<TokenWithDebugInfo<Function>>>,
    f: &Function,
    ctx: &mut Context,
    depth: usize,
) -> (res: Result<
    (
        Vec<(TokenWithDebugInfo<String>, TokenWithDebugInfo<Type>)>,
        Typed<TokenWithDebugInfo<Statement>>,
        TokenWithDebugInfo<Type>,
    ),
    CompileError,
>)
    ensures
        checker_step(old(ctx), final(ctx), old(fn_array)@, final(fn_array)@),
        res matches Ok((params, _, _)) ==> params@.len() == f.args@.len(),
        depth > 6 && simple_function(*f) ==> (res matches Ok((_, body, rt)) && same_type(body.type_, simple_body_type(*f))
            && same_type(rt.internal_tok, f.return_type.internal_tok)),
    decreases depth,
{
    if depth == 0 {
        return Err(too_deep(&f.id));
    }
    let mut params: Vec<(TokenWithDebugInfo<String>, TokenWithDebugInfo<Type>)> = Vec::new();
    let mut i: usize = 0;
    while i < f.args.len()
        invariant
            i <= f.args@.len(),
            depth > 0,
            params@.len() == i,
            checker_step(old(ctx), ctx, old(fn_array)@, fn_array@),
        decreases f.args@.len() - i,
    {
        assert(primitive_members(f.args@) ==> is_primitive(f.args@[i as int].1.internal_tok));
        let t = check_if_struct_or_enum(ctx, &f.args[i].1, depth - 1)?;
        ctx.variables.insert(f.args[i].0.internal_tok.clone(), clone_type(&t.internal_tok));
        params.push((clone_name(&f.args[i].0), t));
        i = i + 1;
    }
    let body = type_statement(fn_array, &f.body.expr, ctx, depth - 1)?;
    let return_type = check_if_struct_or_enum(ctx, &f.return_type, depth - 1)?;
    Ok((params, body, return_type))
}

/// Types a statement (see `statement_typed`).
#[verifier::rlimit(50)]
pub fn type_statement(
    fn_array: &mut Vec<Typed<TokenWithDebugInfo<Function>>>,
    stmt: &TokenWithDebugInfo<Statement>,
    ctx: &mut Context,
    depth: usize,
) -> (res: Result<Typed<TokenWithDebugInfo<Statement>>, CompileError>)
    ensures
        checker_step(old(ctx), final(ctx), old(fn_array)@, final(fn_array)@),
        scope_kept(old(ctx), final(ctx)),
        res matches Ok(r) ==> statement_typed(stmt.internal_tok, r) && r.expr.line == stmt.line
            && r.expr.file == stmt.file,
        depth > 1 && simple_statement(stmt.internal_tok) ==> (res matches Ok(r) && same_type(
            r.type_,
            simple_type(stmt.internal_tok),
        )),
        stmt.internal_tok matches Statement::Compound(v) ==> (depth > 5 && scoped_statements(v@) ==> (res matches Ok(r)
            && same_type(r.type_, scoped_block_type(v@)))),
        stmt.internal_tok matches Statement::Let(id, Some(e), t) ==> (operation_type(old(ctx), e.expr.internal_tok) matches Some(
            ot,
        ) ==> (depth > 3 && id.internal_tok is Variable && is_primitive(t.internal_tok) && same_type(ot, t.internal_tok) ==> (
        res matches Ok(r) && same_type(r.type_, t.internal_tok)))),
        stmt.internal_tok matches Statement::Let(id, Some(e), t) ==> (variable_of(e.expr.internal_tok) matches Some(v) ==> (
        old(ctx).variable_type(v) matches Some(vt) ==> (depth > 1 && id.internal_tok is Variable && is_primitive(
            t.internal_tok,
        ) && same_type(vt, t.internal_tok) ==> (res matches Ok(r) && same_type(r.type_, t.internal_tok))))),
        shown_value(stmt.internal_tok) matches Some(e) ==> (depth > 3 && operation_type(old(ctx), e) is Some ==> (
        res matches Ok(r) && same_type(r.type_, operation_type(old(ctx), e)->0))),
        depth > 1 && shown_variable(stmt.internal_tok) is Some ==> match old(ctx).variable_type(
            shown_variable(stmt.internal_tok)->0,
        ) {
            Some(t) => res matches Ok(r) && same_type(r.type_, t),
            None => true,
        },
        depth > 2 && condition_literal(stmt.internal_tok) is Some ==> (res matches Ok(r) ==> condition_literal(
            r.expr.internal_tok,
        ) == condition_literal(stmt.internal_tok)),
        depth > 1 && value_literal(stmt.internal_tok) is Some ==> (res matches Ok(r) ==> value_literal(r.expr.internal_tok)
            == value_literal(stmt.internal_tok)),
        stmt.internal_tok matches Statement::Let(id, _, t) ==> (res matches Ok(r) ==> let_kept(
            r.expr.internal_tok,
            id.internal_tok,
        ) && (is_primitive(t.internal_tok) ==> same_type(r.type_, t.internal_tok))),
        scoped_branches(stmt.internal_tok) matches Some((ta, tb)) ==> (depth > 6 ==> (res is Ok <==> same_type(ta, tb))
            && (res matches Ok(r) ==> same_type(r.type_, ta))),
        scoped_body(stmt.internal_tok) matches Some(t) ==> (depth > 6 ==> (res matches Ok(r) && same_type(r.type_, t))),
        condition_literal(stmt.internal_tok) matches Some(l) ==> (depth > 2 && !(stmt.internal_tok is For) && !(l is Bool)
            ==> fails_saying(res, condition_message(stmt.internal_tok) + type_text(literal_type(l)) + "'"@)),
        stmt.internal_tok matches Statement::Let(id, Some(e), t) ==> (literal_of(e.expr.internal_tok) matches Some(l) ==> (
        depth > 1 && id.internal_tok is Variable && is_primitive(t.internal_tok) && !same_type(literal_type(l), t.internal_tok)
            ==> fails_saying(
            res,
            "Variable type does not match expression type: '"@ + type_text(t.internal_tok) + "' and '"@ + type_text(
                literal_type(l),
            ) + "'"@,
        ))),
    decreases depth,
{
    if depth == 0 {
        return Err(too_deep(stmt));
    }
    let (line, file) = (stmt.line, stmt.file.clone());
    let (node, t): (Statement, Type) = match &stmt.internal_tok {
        Statement::Expression(e) => {
            let te = type_expression(fn_array, &e.expr, ctx, depth - 1)?;
            let t = clone_type(&te.type_);
            proof {
                if let Some(vt) = old(ctx).variable_type(shown_variable(stmt.internal_tok)->0) {
                    if depth > 1 && shown_variable(stmt.internal_tok) is Some {
                        crate::shared::lemma_same_type_transitive(t, te.type_, vt);
                    }
                }
                if depth > 3 && operation_type(old(ctx), e.expr.internal_tok) is Some {
                    crate::shared::lemma_same_type_transitive(
                        t,
                        te.type_,
                        operation_type(old(ctx), e.expr.internal_tok)->0,
                    );
                }
            }
            (Statement::Expression(te), t)
        },
        Statement::Return(e) => {
            let te = type_expression(fn_array, &e.expr, ctx, depth - 1)?;
            let t = clone_type(&te.type_);
            proof {
                if let Some(vt) = old(ctx).variable_type(shown_variable(stmt.internal_tok)->0) {
                    if depth > 1 && shown_variable(stmt.internal_tok) is Some {
                        crate::shared::lemma_same_type_transitive(t, te.type_, vt);
                    }
                }
                if depth > 3 && operation_type(old(ctx), e.expr.internal_tok) is Some {
                    crate::shared::lemma_same_type_transitive(
                        t,
                        te.type_,
                        operation_type(old(ctx), e.expr.internal_tok)->0,
                    );
                }
            }
            (Statement::Return(te), t)
        },
        Statement::If(cond, then_body, else_body) => {
            let c = check_condition(fn_array, &cond.expr, "Condition in if statement is not a boolean: '", ctx, depth - 1)?;
            let tb = type_statement(fn_array, &then_body.expr, ctx, depth - 1)?;
            let t = clone_type(&tb.type_);
            match else_body {
                Some(eb) => {
                    let te = type_statement(fn_array, &eb.expr, ctx, depth - 1)?;
                    proof {
                        if depth > 6 && scoped_branches(stmt.internal_tok) is Some {
                            let (ta, tb2) = scoped_branches(stmt.internal_tok)->0;
                            crate::shared::lemma_same_type_transitive(t, tb.type_, ta);
                            crate::shared::lemma_same_type_symmetric(tb.type_, ta);
                            crate::shared::lemma_same_type_symmetric(te.type_, tb2);
                            if same_type(ta, tb2) {
                                crate::shared::lemma_same_type_transitive(tb.type_, ta, tb2);
                                crate::shared::lemma_same_type_transitive(tb.type_, tb2, te.type_);
                            }
                            if same_type(tb.type_, te.type_) {
                                crate::shared::lemma_same_type_transitive(ta, tb.type_, te.type_);
                                crate::shared::lemma_same_type_transitive(ta, te.type_, tb2);
                            }
                        }
                    }
                    if !types_equal(&tb.type_, &te.type_) {
                        return Err(
                            types_error(
                                "If and else branches have different types: '",
                                &tb.type_,
                                &te.type_,
                                &then_body.expr,
                            ),
                        );
                    }
                    proof {
                        crate::shared::lemma_same_type_symmetric(tb.type_, te.type_);
                    }
                    (Statement::If(c, Box::new(tb), Some(Box::new(te))), t)
                },
                None => {
                    proof {
                        if depth > 6 && scoped_body(stmt.internal_tok) is Some {
                            crate::shared::lemma_same_type_transitive(t, tb.type_, scoped_body(stmt.internal_tok)->0);
                        }
                    }
                    (Statement::If(c, Box::new(tb), None), t)
                },
            }
        },
        Statement::While(cond, body) => {
            let c = check_condition(fn_array, &cond.expr, "Condition in while statement is not a boolean: '", ctx, depth - 1)?;
            let tb = type_statement(fn_array, &body.expr, ctx, depth - 1)?;
            let t = clone_type(&tb.type_);
            proof {
                if depth > 6 && scoped_body(stmt.internal_tok) is Some {
                    crate::shared::lemma_same_type_transitive(t, tb.type_, scoped_body(stmt.internal_tok)->0);
                }
            }
            (Statement::While(c, Box::new(tb)), t)
        },
        Statement::Dowhile(cond, body) => {
            let c = check_condition(
                fn_array,
                &cond.expr,
                "Condition in do while statement is not a boolean: '",
                ctx,
                depth - 1,
            )?;
            let tb = type_statement(fn_array, &body.expr, ctx, depth - 1)?;
            let t = clone_type(&tb.type_);
            proof {
                if depth > 6 && scoped_body(stmt.internal_tok) is Some {
                    crate::shared::lemma_same_type_transitive(t, tb.type_, scoped_body(stmt.internal_tok)->0);
                }
            }
            (Statement::Dowhile(c, Box::new(tb)), t)
        },
        Statement::Loop(body) => {
            let tb = type_statement(fn_array, &body.expr, ctx, depth - 1)?;
            let t = clone_type(&tb.type_);
            proof {
                if depth > 6 && scoped_body(stmt.internal_tok) is Some {
                    crate::shared::lemma_same_type_transitive(t, tb.type_, scoped_body(stmt.internal_tok)->0);
                }
            }
            (Statement::Loop(Box::new(tb)), t)
        },
        Statement::For(init, cond, step, body) => {
            let ti = type_statement(fn_array, &init.expr, ctx, depth - 1)?;
            let c = check_condition(fn_array, &cond.expr, "Condition in for statement is not a boolean: '", ctx, depth - 1)?;
            let ts = type_expression(fn_array, &step.expr, ctx, depth - 1)?;
            let tb = type_statement(fn_array, &body.expr, ctx, depth - 1)?;
            let t = clone_type(&tb.type_);
            (Statement::For(Box::new(ti), c, ts, Box::new(tb)), t)
        },
        Statement::Compound(stmts) => {
            let m = ctx.mark();
            let typed = type_block(fn_array, stmts, ctx, depth - 1);
            ctx.restore(&m, true);
            assert(ctx.variables.entries@ =~= old(ctx).variables.entries@);
            assert(ctx.array_dims.entries@ =~= old(ctx).array_dims.entries@);
            let (new_stmts, t) = typed?;
            (Statement::Compound(new_stmts), t)
        },
        Statement::Let(id, value, var_type) => {
            let vt = check_if_struct_or_enum(ctx, var_type, depth - 1)?;
            let t = clone_type(&vt.internal_tok);
            match value {
                Some(e) => {
                    let te = type_expression(fn_array, &e.expr, ctx, depth - 1)?;
                    let ghost vt0 = vt.internal_tok;
                    let stripped = strip_dereferences(id, vt)?;
                    let vt2 = check_if_struct_or_enum(ctx, &stripped, depth - 1)?;
                    proof {
                        if is_primitive(var_type.internal_tok) && id.internal_tok is Variable {
                            lemma_same_primitive(vt0, var_type.internal_tok);
                            lemma_same_primitive(vt2.internal_tok, var_type.internal_tok);
                            if same_type(vt2.internal_tok, te.type_) {
                                crate::shared::lemma_same_type_symmetric(vt2.internal_tok, te.type_);
                            }
                        }
                    }
                    if !types_equal(&vt2.internal_tok, &te.type_) {
                        return Err(
                            types_error(
                                "Variable type does not match expression type: '",
                                &vt2.internal_tok,
                                &te.type_,
                                &e.expr,
                            ),
                        );
                    }
                    (Statement::Let(clone_target(id), Some(te), vt2), t)
                },
                None => (Statement::Let(clone_target(id), None, vt), t),
            }
        },
        Statement::Break => (Statement::Break, Type::Void),
        Statement::Continue => (Statement::Continue, Type::Void),
        Statement::Asm(code, asm_type) => (
            Statement::Asm(clone_name(code), clone_type_info(asm_type)),
            clone_type(&asm_type.internal_tok),
        ),
    };
    Ok(Typed { expr: TokenWithDebugInfo { internal_tok: node, line, file }, type_: t })
}

/// Types the statements of a block, in order, each seeing the variables
/// that the `let` statements before it declared; returns them and the
/// block's type (see `last_non_void`).
fn type_block(
    fn_array: &mut Vec<Typed<TokenWithDebugInfo<Function>>>,
    stmts: &Vec<Typed<TokenWithDebugInfo<Statement>>>,
    ctx: &mut Context,
    depth: usize,
) -> (res: Result<(Vec<Typed<TokenWithDebugInfo<Statement>>>, Type), CompileError>)
    ensures
        checker_step(old(ctx), final(ctx), old(fn_array)@, final(fn_array)@),
        res matches Ok((v, t)) ==> same_type(t, last_non_void(v@)),
        depth > 4 && scoped_statements(stmts@) ==> (res matches Ok((v, t)) && same_type(t, scoped_block_type(stmts@))),
    decreases depth,
{
    if depth == 0 {
        return Err(end_of_block());
    }
    let mut new_stmts: Vec<Typed<TokenWithDebugInfo<Statement>>> = Vec::new();
    let mut last_type = Type::Void;
    let mut i: usize = 0;
    while i < stmts.len()
        invariant
            i <= stmts@.len(),
            depth > 0,
            same_type(last_type, last_non_void(new_stmts@)),
            new_stmts@.len() == i,
            checker_step(old(ctx), ctx, old(fn_array)@, fn_array@),
            depth > 4 && scoped_statements(stmts@) ==> forall|j: int|
                0 <= j < i ==> same_type(
                    #[trigger] new_stmts@[j].type_,
                    scoped_type(stmts@.take(j), stmts@[j].expr.internal_tok),
                ),
            depth > 4 && scoped_statements(stmts@) ==> forall|v: Seq<char>|
                #[trigger] declared_in(stmts@.take(i as int), v) is Some ==> (ctx.variables.value_of(v) matches Some(t2)
                    && same_type(t2, declared_in(stmts@.take(i as int), v)->0)),
        decreases stmts@.len() - i,
    {
        let ghost vars_before = ctx.variables;
        proof {
            if depth > 4 && scoped_statements(stmts@) {
                let s = stmts@[i as int].expr.internal_tok;
                assert(scoped_statement(stmts@.take(i as int), s));
                if bound_let(stmts@.take(i as int), s) {
                    if let Statement::Let(_, Some(e), t) = s {
                        if variable_of(e.expr.internal_tok) is Some {
                            let v = variable_of(e.expr.internal_tok)->0;
                            let dt = declared_in(stmts@.take(i as int), v)->0;
                            let t2 = vars_before.value_of(v)->0;
                            crate::shared::lemma_same_type_transitive(t2, dt, t.internal_tok);
                        } else {
                            lemma_operation_in_block(stmts@.take(i as int), e.expr.internal_tok, *ctx);
                        }
                    }
                }
                if shown_value(s) is Some && block_operation_type(stmts@.take(i as int), shown_value(s)->0) is Some {
                    lemma_operation_in_block(stmts@.take(i as int), shown_value(s)->0, *ctx);
                }
            }
        }
        let st = type_statement(fn_array, &stmts[i].expr, ctx, depth - 1)?;
        proof {
            if depth > 4 && scoped_statements(stmts@) {
                let s = stmts@[i as int].expr.internal_tok;
                if !simple_statement(s) && !bound_let(stmts@.take(i as int), s) && shown_variable(s) is Some {
                    let v = shown_variable(s)->0;
                    let t = declared_in(stmts@.take(i as int), v)->0;
                    let t2 = vars_before.value_of(v)->0;
                    crate::shared::lemma_same_type_transitive(st.type_, t2, t);
                }
            }
        }
        if !matches!(st.type_, Type::Void) {
            // A block has the type of its last statement that is not void.
            last_type = clone_type(&st.type_);
        }
        let ghost before = new_stmts@;
        new_stmts.push(st);
        proof {
            assert(new_stmts@.drop_last() =~= before);
        }
        let ghost vars_pre = ctx.variables;
        proof {
            assert(vars_pre.entries@ == vars_before.entries@);
        }
        if let Statement::Let(name, _, var_type) = &stmts[i].expr.internal_tok {
            let vt = check_if_struct_or_enum(ctx, var_type, depth - 1)?;
            let target = declared_target(name);
            match &target.internal_tok {
                AssignmentIdentifier::Array(var_name, dims) => {
                    ctx.variables.insert(var_name.internal_tok.clone(), vt.internal_tok);
                    let mut unwrapped: Vec<Expression> = Vec::new();
                    let mut k: usize = 0;
                    while k < dims.len()
                        invariant
                            k <= dims@.len(),
                        decreases dims@.len() - k,
                    {
                        unwrapped.push(clone_expression(&dims[k].expr.internal_tok));
                        k = k + 1;
                    }
                    ctx.array_dims.insert(var_name.internal_tok.clone(), unwrapped);
                },
                AssignmentIdentifier::Variable(v) => {
                    ctx.variables.insert(v.internal_tok.clone(), vt.internal_tok);
                },
                AssignmentIdentifier::Dereference(_) => {},
            }
        }
        proof {
            if depth > 4 && scoped_statements(stmts@) {
                let s = stmts@[i as int].expr.internal_tok;
                assert(scoped_statement(stmts@.take(i as int), s));
                assert forall|v: Seq<char>| #[trigger] declared_in(stmts@.take(i + 1), v) is Some implies (
                ctx.variables.value_of(v) matches Some(t2) && same_type(t2, declared_in(stmts@.take(i + 1), v)->0)) by {
                    assert(stmts@.take(i + 1).drop_last() =~= stmts@.take(i as int));
                    assert(stmts@.take(i + 1).last() == stmts@[i as int]);
                    match s {
                        Statement::Let(id, _, t) => {
                            assert(id.internal_tok is Variable && is_primitive(t.internal_tok));
                            let name = id.internal_tok->Variable_0;
                            assert(ctx.variables.value_of(name.internal_tok@) is Some);
                            if v == name.internal_tok@ {
                                assert(declared_in(stmts@.take(i + 1), v) == Some(t.internal_tok));
                            } else {
                                assert(declared_in(stmts@.take(i + 1), v) == declared_in(stmts@.take(i as int), v));
                                assert(ctx.variables.value_of(v) == vars_before.value_of(v));
                            }
                        },
                        _ => {
                            assert(declared_in(stmts@.take(i + 1), v) == declared_in(stmts@.take(i as int), v));
                            assert(ctx.variables.value_of(v) == vars_before.value_of(v));
                        },
                    }
                }
            }
        }
        i = i + 1;
    }
    proof {
        if depth > 4 && scoped_statements(stmts@) {
            lemma_scoped_block_type(new_stmts@, stmts@);
            crate::shared::lemma_same_type_transitive(last_type, last_non_void(new_stmts@), scoped_block_type(stmts@));
        }
    }
    Ok((new_stmts, last_type))
}

/// The error for a block nested more deeply than the checker follows.
fn end_of_block() -> (res: CompileError)
    ensures
        res.line == 0,
        res.file@ == Seq::<char>::empty(),
        res.message matches ErrorMessage::Text(m) && m@ == "Program nested too deeply to be checked"@,
{
    CompileError {
        file: String::new(),
        line: 0,
        message: ErrorMessage::Text(String::from_str("Program nested too deeply to be checked")),
    }
}


// ---------------------------------------------------------------------------
// Programs.

/// How deeply the checker follows nested expressions, statements and
/// instantiations of generics before it gives up.
pub const CHECK_DEPTH: usize = usize::MAX;

/// A copy of a function declaration.
pub fn clone_function(f: &Function) -> (res: Function)
    ensures
        res.id.internal_tok@ == f.id.internal_tok@,
        res.generics@.len() == f.generics@.len(),
        res.args@.len() == f.args@.len(),
{
    Function {
        id: clone_name(&f.id),
        args: clone_params(&f.args),
        body: clone_typed_statement(&f.body),
        return_type: clone_type_info(&f.return_type),
        generics: clone_names(&f.generics),
    }
}

/// A copy of a struct declaration with its debug information.
pub fn clone_struct(s: &TokenWithDebugInfo<Struct>) -> (res: TokenWithDebugInfo<Struct>)
    ensures
        struct_name(res) == struct_name(*s),
        struct_is_generic(res) == struct_is_generic(*s),
        res.internal_tok.members@.len() == s.internal_tok.members@.len(),
        res.line == s.line,
        res.file@ == s.file@,
{
    TokenWithDebugInfo {
        internal_tok: Struct {
            id: clone_name(&s.internal_tok.id),
            members: clone_params(&s.internal_tok.members),
            generics: clone_names(&s.internal_tok.generics),
        },
        line: s.line,
        file: s.file.clone(),
    }
}

/// A copy of an enum declaration with its debug information.
pub fn clone_enum(e: &TokenWithDebugInfo<Enum>) -> (res: TokenWithDebugInfo<Enum>)
    ensures
        enum_name(res) == enum_name(*e),
        res.internal_tok.variants@.len() == e.internal_tok.variants@.len(),
        forall|i: int|
            0 <= i < e.internal_tok.variants@.len() ==> #[trigger] res.internal_tok.variants@[i].internal_tok@
                == e.internal_tok.variants@[i].internal_tok@,
        res.line == e.line,
        res.file@ == e.file@,
{
    TokenWithDebugInfo {
        internal_tok: Enum { id: clone_name(&e.internal_tok.id), variants: clone_names(&e.internal_tok.variants) },
        line: e.line,
        file: e.file.clone(),
    }
}

/// The members of a struct declaration, in order and by name, with their
/// types as declared.
fn member_tables(members: &Vec<(TokenWithDebugInfo<String>, TokenWithDebugInfo<Type>)>) -> (res: (
    Vec<(String, Type)>,
    Names<Type>,
))
    ensures
        res.0@.len() == members@.len(),
{
    let mut ordered: Vec<(String, Type)> = Vec::new();
    let mut lookup: Names<Type> = Names::new();
    let mut i: usize = 0;
    while i < members.len()
        invariant
            i <= members@.len(),
            ordered@.len() == i,
        decreases members@.len() - i,
    {
        ordered.push((members[i].0.internal_tok.clone(), clone_type(&members[i].1.internal_tok)));
        lookup.insert(members[i].0.internal_tok.clone(), clone_type(&members[i].1.internal_tok));
        i = i + 1;
    }
    (ordered, lookup)
}

/// Appends the entries of `from` to `into`: a name that both give a value
/// then has the value that `from` gives it.
fn extend_names<V>(into: &mut Names<V>, from: Names<V>)
    ensures
        final(into).entries@ == old(into).entries@ + from.entries@,
{
    let mut from = from;
    let mut rest: Vec<(String, V)> = Vec::new();
    std::mem::swap(&mut rest, &mut from.entries);
    into.entries.append(&mut rest);
}

/// The name of a function declaration.
pub open spec fn function_name(f: Typed<TokenWithDebugInfo<Function>>) -> Seq<char> {
    f.expr.internal_tok.id.internal_tok@
}

/// The name of a struct declaration.
pub open spec fn struct_name(s: TokenWithDebugInfo<Struct>) -> Seq<char> {
    s.internal_tok.id.internal_tok@
}

/// Whether a struct declaration has type parameters.
pub open spec fn struct_is_generic(s: TokenWithDebugInfo<Struct>) -> bool {
    s.internal_tok.generics@.len() > 0
}

/// The name of an enum declaration.
pub open spec fn enum_name(e: TokenWithDebugInfo<Enum>) -> Seq<char> {
    e.internal_tok.id.internal_tok@
}

/// The name of a constant.
pub open spec fn constant_name(c: Typed<TokenWithDebugInfo<Constant>>) -> Seq<char> {
    match c.expr.internal_tok {
        Constant::Constant(n, _, _) => n.internal_tok@,
    }
}

/// Whether the first `n` functions of `ns` have an entry in `d` under
/// `path`, a generic one among the generic functions.
pub open spec fn functions_entered(d: Declarations, ns: Namespace, path: Seq<char>, n: int) -> bool {
    forall|j: int|
        0 <= j < n ==> (d.concrete_functions.value_of(path + function_name(#[trigger] ns.functions@[j])) is Some
            || d.generic_functions.value_of(path + function_name(ns.functions@[j])) is Some)
}

/// Whether the first `n` structs of `ns` have an entry in `d` under `path`:
/// a generic one among the generic structs, another among the others.
pub open spec fn structs_entered(d: Declarations, ns: Namespace, path: Seq<char>, n: int) -> bool {
    forall|j: int|
        0 <= j < n ==> (if struct_is_generic(#[trigger] ns.structs@[j]) {
            d.generic_structs.value_of(path + struct_name(ns.structs@[j])) is Some
        } else {
            d.concrete_structs.value_of(path + struct_name(ns.structs@[j])) is Some
        })
}

/// Whether the first `n` enums of `ns` have an entry in `d` under `path`.
pub open spec fn enums_entered(d: Declarations, ns: Namespace, path: Seq<char>, n: int) -> bool {
    forall|j: int| 0 <= j < n ==> d.enums.value_of(path + enum_name(#[trigger] ns.enums@[j])) is Some
}

/// Whether the first `n` constants of `ns` have an entry in `d` under `path`.
pub open spec fn constants_entered(d: Declarations, ns: Namespace, path: Seq<char>, n: int) -> bool {
    forall|j: int| 0 <= j < n ==> d.constants.value_of(path + constant_name(#[trigger] ns.constants@[j])) is Some
}

/// Whether the declarations `d` hold, under the qualified names of the
/// namespace `ns` (of path `path`), each function, struct, enum and constant
/// that `ns` declares.
pub open spec fn declares_all(d: Declarations, ns: Namespace, path: Seq<char>) -> bool {
    &&& functions_entered(d, ns, path, ns.functions@.len() as int)
    &&& structs_entered(d, ns, path, ns.structs@.len() as int)
    &&& enums_entered(d, ns, path, ns.enums@.len() as int)
    &&& constants_entered(d, ns, path, ns.constants@.len() as int)
}

/// Whether the first `n` functions of `ns` have distinct names.
pub open spec fn functions_distinct(ns: Namespace, n: int) -> bool {
    forall|j: int, k: int|
        0 <= j < k < n ==> function_name(#[trigger] ns.functions@[j]) != function_name(#[trigger] ns.functions@[k])
}

/// Whether the first `n` structs of `ns` have distinct names.
pub open spec fn structs_distinct(ns: Namespace, n: int) -> bool {
    forall|j: int, k: int|
        0 <= j < k < n ==> struct_name(#[trigger] ns.structs@[j]) != struct_name(#[trigger] ns.structs@[k])
}

/// Whether the first `n` enums of `ns` have distinct names.
pub open spec fn enums_distinct(ns: Namespace, n: int) -> bool {
    forall|j: int, k: int|
        0 <= j < k < n ==> enum_name(#[trigger] ns.enums@[j]) != enum_name(#[trigger] ns.enums@[k])
}

/// Whether no one of the first `n` enums of `ns` has the name of a struct of
/// `ns` without type parameters.
pub open spec fn enums_apart_from_structs(ns: Namespace, n: int) -> bool {
    forall|j: int, k: int|
        0 <= j < n && 0 <= k < ns.structs@.len() && !struct_is_generic(#[trigger] ns.structs@[k]) ==> enum_name(
            #[trigger] ns.enums@[j],
        ) != struct_name(ns.structs@[k])
}

/// Whether the first `n` constants of `ns` have distinct names.
pub open spec fn constants_distinct(ns: Namespace, n: int) -> bool {
    forall|j: int, k: int|
        0 <= j < k < n ==> constant_name(#[trigger] ns.constants@[j]) != constant_name(#[trigger] ns.constants@[k])
}

/// Whether a namespace, leaving aside the namespaces in it, declares no
/// function, struct, enum or constant twice, and no enum under the name of a
/// struct without type parameters.
pub open spec fn names_distinct_here(ns: Namespace) -> bool {
    &&& functions_distinct(ns, ns.functions@.len() as int)
    &&& structs_distinct(ns, ns.structs@.len() as int)
    &&& enums_distinct(ns, ns.enums@.len() as int)
    &&& enums_apart_from_structs(ns, ns.enums@.len() as int)
    &&& constants_distinct(ns, ns.constants@.len() as int)
}

/// Whether a namespace and every namespace in it, at any depth, keep the
/// rule of `names_distinct_here`.
pub open spec fn declarations_ok(ns: Namespace) -> bool
    decreases ns, ns.sub_namespaces@.len() + 1,
{
    names_distinct_here(ns) && subs_declarations_ok(ns, ns.sub_namespaces@.len() as int)
}

/// Whether the first `n` namespaces in `ns` keep the rule of
/// `declarations_ok`.
pub open spec fn subs_declarations_ok(ns: Namespace, n: int) -> bool
    decreases ns, n,
{
    if n <= 0 {
        true
    } else if n > ns.sub_namespaces@.len() {
        false
    } else {
        proof {
            assert(decreases_to!(ns => ns.sub_namespaces));
            assert(decreases_to!(ns.sub_namespaces => ns.sub_namespaces@[n - 1]));
        }
        subs_declarations_ok(ns, n - 1) && declarations_ok(ns.sub_namespaces@[n - 1].internal_tok)
    }
}

proof fn lemma_subs_declarations_ok(ns: Namespace, n: int, k: int)
    requires
        subs_declarations_ok(ns, n),
        0 <= k < n,
    ensures
        declarations_ok(ns.sub_namespaces@[k].internal_tok),
    decreases n,
{
    if k < n - 1 {
        lemma_subs_declarations_ok(ns, n - 1, k);
    }
}

proof fn lemma_same_suffix(p: Seq<char>, a: Seq<char>, b: Seq<char>)
    requires
        p + a == p + b,
    ensures
        a == b,
{
    assert(a =~= (p + a).skip(p.len() as int));
    assert(b =~= (p + b).skip(p.len() as int));
}

/// Whether each name in `t` is, under `path`, that of one of the first `n`
/// functions of `ns`.
spec fn keys_of_functions<V>(t: Seq<(String, V)>, ns: Namespace, path: Seq<char>, n: int) -> bool {
    forall|e: int|
        0 <= e < t.len() ==> exists|j: int|
            0 <= j < n && (#[trigger] t[e]).0@ == path + function_name(#[trigger] ns.functions@[j])
}

/// Whether each name in `t` is, under `path`, that of one of the first `n`
/// structs of `ns`, generic ones if `generic`, the others if not.
spec fn keys_of_structs<V>(t: Seq<(String, V)>, ns: Namespace, path: Seq<char>, n: int, generic: bool) -> bool {
    forall|e: int|
        0 <= e < t.len() ==> exists|j: int|
            0 <= j < n && struct_is_generic(#[trigger] ns.structs@[j]) == generic && (#[trigger] t[e]).0@ == path
                + struct_name(ns.structs@[j])
}

/// Whether each name in `t` is, under `path`, that of one of the first `n`
/// enums of `ns`.
spec fn keys_of_enums<V>(t: Seq<(String, V)>, ns: Namespace, path: Seq<char>, n: int) -> bool {
    forall|e: int|
        0 <= e < t.len() ==> exists|j: int|
            0 <= j < n && (#[trigger] t[e]).0@ == path + enum_name(#[trigger] ns.enums@[j])
}

/// Whether each name in `t` is, under `path`, that of one of the first `n`
/// constants of `ns`.
spec fn keys_of_constants<V>(t: Seq<(String, V)>, ns: Namespace, path: Seq<char>, n: int) -> bool {
    forall|e: int|
        0 <= e < t.len() ==> exists|j: int|
            0 <= j < n && (#[trigger] t[e]).0@ == path + constant_name(#[trigger] ns.constants@[j])
}

/// What a namespace declares stays declared when the declarations of the
/// namespaces in it are appended.
proof fn lemma_declarations_extended(
    before: Declarations,
    sub: Declarations,
    after: Declarations,
    ns: Namespace,
    path: Seq<char>,
)
    requires
        declares_all(before, ns, path),
        after.concrete_functions.entries@ == before.concrete_functions.entries@ + sub.concrete_functions.entries@,
        after.generic_functions.entries@ == before.generic_functions.entries@ + sub.generic_functions.entries@,
        after.concrete_structs.entries@ == before.concrete_structs.entries@ + sub.concrete_structs.entries@,
        after.generic_structs.entries@ == before.generic_structs.entries@ + sub.generic_structs.entries@,
        after.enums.entries@ == before.enums.entries@ + sub.enums.entries@,
        after.constants.entries@ == before.constants.entries@ + sub.constants.entries@,
    ensures
        declares_all(after, ns, path),
{
    assert forall|i: int| 0 <= i < ns.functions@.len() implies (after.concrete_functions.value_of(
        path + function_name(#[trigger] ns.functions@[i]),
    ) is Some || after.generic_functions.value_of(path + function_name(ns.functions@[i])) is Some) by {
        let k = path + function_name(ns.functions@[i]);
        if before.concrete_functions.value_of(k) is Some {
            lemma_lookup_append(before.concrete_functions.entries@, sub.concrete_functions.entries@, k);
        } else {
            lemma_lookup_append(before.generic_functions.entries@, sub.generic_functions.entries@, k);
        }
    }
    assert forall|i: int| 0 <= i < ns.structs@.len() implies (if struct_is_generic(#[trigger] ns.structs@[i]) {
        after.generic_structs.value_of(path + struct_name(ns.structs@[i])) is Some
    } else {
        after.concrete_structs.value_of(path + struct_name(ns.structs@[i])) is Some
    }) by {
        let k = path + struct_name(ns.structs@[i]);
        if struct_is_generic(ns.structs@[i]) {
            lemma_lookup_append(before.generic_structs.entries@, sub.generic_structs.entries@, k);
        } else {
            lemma_lookup_append(before.concrete_structs.entries@, sub.concrete_structs.entries@, k);
        }
    }
    assert forall|i: int| 0 <= i < ns.enums@.len() implies after.enums.value_of(
        path + enum_name(#[trigger] ns.enums@[i]),
    ) is Some by {
        lemma_lookup_append(before.enums.entries@, sub.enums.entries@, path + enum_name(ns.enums@[i]));
    }
    assert forall|i: int| 0 <= i < ns.constants@.len() implies after.constants.value_of(
        path + constant_name(#[trigger] ns.constants@[i]),
    ) is Some by {
        lemma_lookup_append(before.constants.entries@, sub.constants.entries@, path + constant_name(ns.constants@[i]));
    }
}

/// Collects what a namespace and the namespaces in it declare, under names
/// qualified by `namespace_path` and the namespace's name: functions and
/// structs, generic or not, enums and constants. A name may be declared once
/// in a namespace; an enum may not take the name of a struct without type
/// parameters.
pub fn get_all_functions_structs_enums_consts(
    namespace: &TokenWithDebugInfo<Namespace>,
    namespace_path: &str,
) -> (res: Result<Declarations, CompileError>)
    ensures
        res is Ok <==> declarations_ok(namespace.internal_tok),
        res matches Ok(d) ==> declares_all(
            d,
            namespace.internal_tok,
            namespace_path@ + namespace.internal_tok.id@ + "::"@,
        ),
    decreases namespace,
{
    let ns = &namespace.internal_tok;
    let path = concat(namespace_path, ns.id.as_str());
    let path = concat(path.as_str(), "::");
    let ghost p = path@;
    let mut decls = Declarations {
        concrete_functions: Names::new(),
        generic_functions: Names::new(),
        concrete_structs: Names::new(),
        generic_structs: Names::new(),
        enums: Names::new(),
        constants: Names::new(),
    };
    let mut i: usize = 0;
    while i < ns.functions.len()
        invariant
            i <= ns.functions@.len(),
            path@ == p,
            *ns == namespace.internal_tok,
            functions_entered(decls, *ns, p, i as int),
            functions_distinct(*ns, i as int),
            keys_of_functions(decls.concrete_functions.entries@, *ns, p, i as int),
            keys_of_functions(decls.generic_functions.entries@, *ns, p, i as int),
            decls.concrete_structs.entries@.len() == 0,
            decls.generic_structs.entries@.len() == 0,
            decls.enums.entries@.len() == 0,
            decls.constants.entries@.len() == 0,
        decreases ns.functions@.len() - i,
    {
        let f = &ns.functions[i].expr.internal_tok;
        let name = concat(path.as_str(), f.id.internal_tok.as_str());
        assert(name@ == p + function_name(ns.functions@[i as int]));
        if decls.concrete_functions.contains_key(name.as_str()) || decls.generic_functions.contains_key(name.as_str()) {
            proof {
                let j = if decls.concrete_functions.value_of(name@) is Some {
                    let e = lemma_lookup_entry(decls.concrete_functions.entries@, name@);
                    choose|j: int|
                        0 <= j < i && decls.concrete_functions.entries@[e].0@ == p + function_name(
                            #[trigger] ns.functions@[j],
                        )
                } else {
                    let e = lemma_lookup_entry(decls.generic_functions.entries@, name@);
                    choose|j: int|
                        0 <= j < i && decls.generic_functions.entries@[e].0@ == p + function_name(
                            #[trigger] ns.functions@[j],
                        )
                };
                lemma_same_suffix(p, function_name(ns.functions@[j]), function_name(ns.functions@[i as int]));
                assert(!functions_distinct(*ns, ns.functions@.len() as int));
            }
            return Err(error_with_name("Function '", name.as_str(), "' is declared more than once", &ns.functions[i].expr));
        }
        assert forall|j: int, k: int|
            0 <= j < k < i + 1 implies function_name(#[trigger] ns.functions@[j]) != function_name(
                #[trigger] ns.functions@[k],
            ) by {
            if k == i && function_name(ns.functions@[j]) == function_name(ns.functions@[k]) {
                assert(name@ == p + function_name(ns.functions@[j]));
            }
        }
        if f.generics.len() > 0 {
            decls.generic_functions.insert(name, clone_function(f));
        } else {
            let mut args: Vec<Type> = Vec::new();
            let mut j: usize = 0;
            while j < f.args.len()
                invariant
                    j <= f.args@.len(),
                decreases f.args@.len() - j,
            {
                args.push(clone_type(&f.args[j].1.internal_tok));
                j = j + 1;
            }
            decls.concrete_functions.insert(name, Signature { return_type: clone_type(&f.return_type.internal_tok), args });
        }
        i = i + 1;
    }
    let mut i: usize = 0;
    while i < ns.structs.len()
        invariant
            i <= ns.structs@.len(),
            path@ == p,
            *ns == namespace.internal_tok,
            functions_entered(decls, *ns, p, ns.functions@.len() as int),
            functions_distinct(*ns, ns.functions@.len() as int),
            structs_entered(decls, *ns, p, i as int),
            structs_distinct(*ns, i as int),
            keys_of_structs(decls.concrete_structs.entries@, *ns, p, i as int, false),
            keys_of_structs(decls.generic_structs.entries@, *ns, p, i as int, true),
            decls.enums.entries@.len() == 0,
            decls.constants.entries@.len() == 0,
        decreases ns.structs@.len() - i,
    {
        let st = &ns.structs[i].internal_tok;
        let id = concat(path.as_str(), st.id.internal_tok.as_str());
        assert(id@ == p + struct_name(ns.structs@[i as int]));
        assert(decls.enums.value_of(id@) is None);
        if decls.concrete_structs.contains_key(id.as_str()) || decls.generic_structs.contains_key(id.as_str()) {
            proof {
                let j = if decls.concrete_structs.value_of(id@) is Some {
                    let e = lemma_lookup_entry(decls.concrete_structs.entries@, id@);
                    choose|j: int|
                        0 <= j < i && struct_is_generic(#[trigger] ns.structs@[j]) == false
                            && decls.concrete_structs.entries@[e].0@ == p + struct_name(ns.structs@[j])
                } else {
                    let e = lemma_lookup_entry(decls.generic_structs.entries@, id@);
                    choose|j: int|
                        0 <= j < i && struct_is_generic(#[trigger] ns.structs@[j]) == true
                            && decls.generic_structs.entries@[e].0@ == p + struct_name(ns.structs@[j])
                };
                lemma_same_suffix(p, struct_name(ns.structs@[j]), struct_name(ns.structs@[i as int]));
                assert(!structs_distinct(*ns, ns.structs@.len() as int));
            }
            return Err(error_with_name("Struct '", id.as_str(), "' is declared more than once", &ns.structs[i]));
        } else if decls.enums.contains_key(id.as_str()) {
            return Err(error_with_name("Struct '", id.as_str(), "' has the same name as an enum", &ns.structs[i]));
        }
        assert forall|j: int, k: int|
            0 <= j < k < i + 1 implies struct_name(#[trigger] ns.structs@[j]) != struct_name(
                #[trigger] ns.structs@[k],
            ) by {
            if k == i && struct_name(ns.structs@[j]) == struct_name(ns.structs@[k]) {
                assert(id@ == p + struct_name(ns.structs@[j]));
            }
        }
        let (ordered, members) = member_tables(&st.members);
        if st.generics.len() > 0 {
            let mut generics: Vec<String> = Vec::new();
            let mut j: usize = 0;
            while j < st.generics.len()
                invariant
                    j <= st.generics@.len(),
                decreases st.generics@.len() - j,
            {
                generics.push(st.generics[j].internal_tok.clone());
                j = j + 1;
            }
            decls.generic_structs.insert(id, GenericStruct { ordered, members, generics });
        } else {
            decls.concrete_structs.insert(id, StructLayout { ordered, members });
        }
        i = i + 1;
    }
    let mut i: usize = 0;
    while i < ns.enums.len()
        invariant
            i <= ns.enums@.len(),
            path@ == p,
            *ns == namespace.internal_tok,
            functions_entered(decls, *ns, p, ns.functions@.len() as int),
            functions_distinct(*ns, ns.functions@.len() as int),
            structs_entered(decls, *ns, p, ns.structs@.len() as int),
            structs_distinct(*ns, ns.structs@.len() as int),
            keys_of_structs(decls.concrete_structs.entries@, *ns, p, ns.structs@.len() as int, false),
            enums_entered(decls, *ns, p, i as int),
            enums_distinct(*ns, i as int),
            enums_apart_from_structs(*ns, i as int),
            keys_of_enums(decls.enums.entries@, *ns, p, i as int),
            decls.constants.entries@.len() == 0,
        decreases ns.enums@.len() - i,
    {
        let en = &ns.enums[i].internal_tok;
        let id = concat(path.as_str(), en.id.internal_tok.as_str());
        assert(id@ == p + enum_name(ns.enums@[i as int]));
        if decls.enums.contains_key(id.as_str()) {
            proof {
                let e = lemma_lookup_entry(decls.enums.entries@, id@);
                let j = choose|j: int|
                    0 <= j < i && decls.enums.entries@[e].0@ == p + enum_name(#[trigger] ns.enums@[j]);
                lemma_same_suffix(p, enum_name(ns.enums@[j]), enum_name(ns.enums@[i as int]));
                assert(!enums_distinct(*ns, ns.enums@.len() as int));
            }
            return Err(error_with_name("Enum '", id.as_str(), "' is declared more than once", &ns.enums[i]));
        } else if decls.concrete_structs.contains_key(id.as_str()) {
            proof {
                let e = lemma_lookup_entry(decls.concrete_structs.entries@, id@);
                let k = choose|k: int|
                    0 <= k < ns.structs@.len() && struct_is_generic(#[trigger] ns.structs@[k]) == false
                        && decls.concrete_structs.entries@[e].0@ == p + struct_name(ns.structs@[k]);
                lemma_same_suffix(p, struct_name(ns.structs@[k]), enum_name(ns.enums@[i as int]));
                assert(!enums_apart_from_structs(*ns, ns.enums@.len() as int));
            }
            return Err(error_with_name("Enum '", id.as_str(), "' has the same name as a struct", &ns.enums[i]));
        }
        assert forall|j: int, k: int|
            0 <= j < k < i + 1 implies enum_name(#[trigger] ns.enums@[j]) != enum_name(#[trigger] ns.enums@[k]) by {
            if k == i && enum_name(ns.enums@[j]) == enum_name(ns.enums@[k]) {
                assert(id@ == p + enum_name(ns.enums@[j]));
            }
        }
        assert forall|j: int, k: int|
            0 <= j < i + 1 && 0 <= k < ns.structs@.len() && !struct_is_generic(
                #[trigger] ns.structs@[k],
            ) implies enum_name(#[trigger] ns.enums@[j]) != struct_name(ns.structs@[k]) by {
            if j == i && enum_name(ns.enums@[j]) == struct_name(ns.structs@[k]) {
                assert(id@ == p + struct_name(ns.structs@[k]));
            }
        }
        let mut variants: Vec<String> = Vec::new();
        let mut j: usize = 0;
        while j < en.variants.len()
            invariant
                j <= en.variants@.len(),
            decreases en.variants@.len() - j,
        {
            variants.push(en.variants[j].internal_tok.clone());
            j = j + 1;
        }
        decls.enums.insert(id, variants);
        i = i + 1;
    }
    let mut i: usize = 0;
    while i < ns.constants.len()
        invariant
            i <= ns.constants@.len(),
            path@ == p,
            *ns == namespace.internal_tok,
            functions_entered(decls, *ns, p, ns.functions@.len() as int),
            functions_distinct(*ns, ns.functions@.len() as int),
            structs_entered(decls, *ns, p, ns.structs@.len() as int),
            structs_distinct(*ns, ns.structs@.len() as int),
            enums_entered(decls, *ns, p, ns.enums@.len() as int),
            enums_distinct(*ns, ns.enums@.len() as int),
            enums_apart_from_structs(*ns, ns.enums@.len() as int),
            constants_entered(decls, *ns, p, i as int),
            constants_distinct(*ns, i as int),
            keys_of_constants(decls.constants.entries@, *ns, p, i as int),
        decreases ns.constants@.len() - i,
    {
        let Constant::Constant(cname, _, var_type) = &ns.constants[i].expr.internal_tok;
        let name = concat(path.as_str(), cname.internal_tok.as_str());
        assert(name@ == p + constant_name(ns.constants@[i as int]));
        if decls.constants.contains_key(name.as_str()) {
            proof {
                let e = lemma_lookup_entry(decls.constants.entries@, name@);
                let j = choose|j: int|
                    0 <= j < i && decls.constants.entries@[e].0@ == p + constant_name(#[trigger] ns.constants@[j]);
                lemma_same_suffix(p, constant_name(ns.constants@[j]), constant_name(ns.constants@[i as int]));
                assert(!constants_distinct(*ns, ns.constants@.len() as int));
            }
            return Err(error_with_name("Constant '", name.as_str(), "' is declared more than once", &ns.constants[i].expr));
        }
        assert forall|j: int, k: int|
            0 <= j < k < i + 1 implies constant_name(#[trigger] ns.constants@[j]) != constant_name(
                #[trigger] ns.constants@[k],
            ) by {
            if k == i && constant_name(ns.constants@[j]) == constant_name(ns.constants@[k]) {
                assert(name@ == p + constant_name(ns.constants@[j]));
            }
        }
        decls.constants.insert(name, clone_type(&var_type.internal_tok));
        i = i + 1;
    }
    let mut i: usize = 0;
    while i < ns.sub_namespaces.len()
        invariant
            i <= ns.sub_namespaces@.len(),
            path@ == p,
            *ns == namespace.internal_tok,
            declares_all(decls, *ns, p),
            names_distinct_here(*ns),
            subs_declarations_ok(*ns, i as int),
        decreases ns.sub_namespaces@.len() - i,
    {
        proof {
            assert(decreases_to!(namespace => ns.sub_namespaces));
            assert(decreases_to!(ns.sub_namespaces => ns.sub_namespaces@[i as int]));
        }
        let sub = match get_all_functions_structs_enums_consts(&ns.sub_namespaces[i], path.as_str()) {
            Ok(sub) => sub,
            Err(e) => {
                proof {
                    if declarations_ok(namespace.internal_tok) {
                        lemma_subs_declarations_ok(*ns, ns.sub_namespaces@.len() as int, i as int);
                    }
                }
                return Err(e);
            },
        };
        let ghost before = decls;
        let ghost subg = sub;
        extend_names(&mut decls.concrete_functions, sub.concrete_functions);
        extend_names(&mut decls.generic_functions, sub.generic_functions);
        extend_names(&mut decls.concrete_structs, sub.concrete_structs);
        extend_names(&mut decls.generic_structs, sub.generic_structs);
        extend_names(&mut decls.enums, sub.enums);
        extend_names(&mut decls.constants, sub.constants);
        proof {
            lemma_declarations_extended(before, subg, decls, *ns, p);
        }
        i = i + 1;
    }
    Ok(decls)
}


/// Whether an enum declares no variant twice.
pub open spec fn variants_distinct(e: TokenWithDebugInfo<Enum>) -> bool {
    forall|j: int, k: int|
        0 <= j < k < e.internal_tok.variants@.len() ==> (#[trigger] e.internal_tok.variants@[j]).internal_tok@
            != (#[trigger] e.internal_tok.variants@[k]).internal_tok@
}

/// The type of a literal.
pub open spec fn literal_type(l: Literal) -> Type {
    match l {
        Literal::Bool(_) => Type::Bool,
        Literal::Int(_) | Literal::Hex(_) | Literal::Binary(_) => Type::Int,
        Literal::Float(_) => Type::Float,
        Literal::Char(_) => Type::Char,
    }
}

/// Whether a constant is declared with the type of its literal.
pub open spec fn constant_typed(c: Typed<TokenWithDebugInfo<Constant>>) -> bool {
    match c.expr.internal_tok {
        Constant::Constant(_, lit, t) => same_type(t.internal_tok, literal_type(lit.expr.internal_tok)),
    }
}

/// Whether, in a namespace and in every namespace in it at any depth, no
/// enum declares a variant twice and each constant is declared with the type
/// of its literal.
pub open spec fn declarations_checked(ns: Namespace) -> bool
    decreases ns, ns.sub_namespaces@.len() + 1,
{
    &&& forall|i: int| 0 <= i < ns.enums@.len() ==> #[trigger] variants_distinct(ns.enums@[i])
    &&& forall|i: int| 0 <= i < ns.constants@.len() ==> #[trigger] constant_typed(ns.constants@[i])
    &&& subs_declarations_checked(ns, ns.sub_namespaces@.len() as int)
}

/// Whether the first `n` namespaces in `ns` keep the rule of
/// `declarations_checked`.
pub open spec fn subs_declarations_checked(ns: Namespace, n: int) -> bool
    decreases ns, n,
{
    if n <= 0 {
        true
    } else if n > ns.sub_namespaces@.len() {
        false
    } else {
        proof {
            assert(decreases_to!(ns => ns.sub_namespaces));
            assert(decreases_to!(ns.sub_namespaces => ns.sub_namespaces@[n - 1]));
        }
        subs_declarations_checked(ns, n - 1) && declarations_checked(ns.sub_namespaces@[n - 1].internal_tok)
    }
}

/// Whether a checked namespace holds only functions that follow the typing
/// rules, and no namespace: the namespaces in it have been merged into it.
pub open spec fn namespace_checked(ns: Namespace) -> bool {
    &&& all_functions_typed(ns.functions@)
    &&& ns.sub_namespaces@.len() == 0
}

/// Whether the checked namespace `r` begins its constants, structs and
/// enums with those that `ns` declares itself, in order: each constant
/// under its name qualified by `path`, each struct and enum under its name,
/// with the same variants.
pub open spec fn own_declarations_kept(ns: Namespace, path: Seq<char>, r: Namespace) -> bool {
    &&& r.constants@.len() >= ns.constants@.len()
    &&& forall|i: int|
        0 <= i < ns.constants@.len() ==> crate::ast_build::constant_name(
            (#[trigger] r.constants@[i]).expr.internal_tok,
        ) == path + crate::ast_build::constant_name(ns.constants@[i].expr.internal_tok)
    &&& r.structs@.len() >= ns.structs@.len()
    &&& forall|i: int|
        0 <= i < ns.structs@.len() ==> struct_name(#[trigger] r.structs@[i]) == struct_name(ns.structs@[i])
            && struct_is_generic(r.structs@[i]) == struct_is_generic(ns.structs@[i])
    &&& r.enums@.len() >= ns.enums@.len()
    &&& forall|i: int| 0 <= i < ns.enums@.len() ==> enum_name(#[trigger] r.enums@[i]) == enum_name(ns.enums@[i])
}

/// The names of the functions `fs`.
pub open spec fn names_of_functions(fs: Seq<Typed<TokenWithDebugInfo<Function>>>) -> Set<Seq<char>> {
    Set::new(|n: Seq<char>| exists|j: int| 0 <= j < fs.len() && #[trigger] function_name(fs[j]) == n)
}

/// Whether `names` holds, for each function that is not generic of the
/// namespace `ns` (seen from the namespace path `prefix`) and of every
/// namespace in it at any depth, the function's name qualified by its
/// namespace path.
pub open spec fn functions_lifted(ns: Namespace, prefix: Seq<char>, names: Set<Seq<char>>) -> bool
    decreases ns, ns.sub_namespaces@.len() + 1,
{
    let path = prefix + ns.id@ + "::"@;
    &&& forall|i: int|
        0 <= i < ns.functions@.len() && ns.functions@[i].expr.internal_tok.generics@.len() == 0 ==> names.contains(
            path + #[trigger] function_name(ns.functions@[i]),
        )
    &&& subs_lifted(ns, ns.sub_namespaces@.len() as int, path, names)
}

/// Whether the first `n` namespaces in `ns` keep the rule of
/// `functions_lifted`, seen from `path`.
pub open spec fn subs_lifted(ns: Namespace, n: int, path: Seq<char>, names: Set<Seq<char>>) -> bool
    decreases ns, n,
{
    if n <= 0 {
        true
    } else if n > ns.sub_namespaces@.len() {
        false
    } else {
        proof {
            assert(decreases_to!(ns => ns.sub_namespaces));
            assert(decreases_to!(ns.sub_namespaces => ns.sub_namespaces@[n - 1]));
        }
        subs_lifted(ns, n - 1, path, names) && functions_lifted(ns.sub_namespaces@[n - 1].internal_tok, path, names)
    }
}

/// More names keep the rule of `functions_lifted`.
proof fn lemma_lifted_grows(ns: Namespace, prefix: Seq<char>, a: Set<Seq<char>>, b: Set<Seq<char>>)
    requires
        functions_lifted(ns, prefix, a),
        a.subset_of(b),
    ensures
        functions_lifted(ns, prefix, b),
    decreases ns, ns.sub_namespaces@.len() + 1,
{
    lemma_subs_lifted_grows(ns, ns.sub_namespaces@.len() as int, prefix + ns.id@ + "::"@, a, b);
}

/// More names keep the rule of `subs_lifted`.
proof fn lemma_subs_lifted_grows(ns: Namespace, n: int, path: Seq<char>, a: Set<Seq<char>>, b: Set<Seq<char>>)
    requires
        subs_lifted(ns, n, path, a),
        a.subset_of(b),
    ensures
        subs_lifted(ns, n, path, b),
    decreases ns, n,
{
    if n > 0 && n <= ns.sub_namespaces@.len() {
        assert(decreases_to!(ns => ns.sub_namespaces));
        assert(decreases_to!(ns.sub_namespaces => ns.sub_namespaces@[n - 1]));
        lemma_subs_lifted_grows(ns, n - 1, path, a, b);
        lemma_lifted_grows(ns.sub_namespaces@[n - 1].internal_tok, path, a, b);
    }
}

/// A list that keeps `a` at its start has each of its names.
proof fn lemma_names_prefix(a: Seq<Typed<TokenWithDebugInfo<Function>>>, b: Seq<Typed<TokenWithDebugInfo<Function>>>)
    requires
        is_prefix(a, b),
    ensures
        names_of_functions(a).subset_of(names_of_functions(b)),
{
    assert forall|n: Seq<char>| names_of_functions(a).contains(n) implies names_of_functions(b).contains(n) by {
        let j = choose|j: int| 0 <= j < a.len() && #[trigger] function_name(a[j]) == n;
        assert(b[j] == a[j]);
        assert(function_name(b[j]) == n);
    }
}

/// A list that ends with `a` has each of its names.
proof fn lemma_names_suffix(a: Seq<Typed<TokenWithDebugInfo<Function>>>, before: Seq<Typed<TokenWithDebugInfo<Function>>>)
    ensures
        names_of_functions(a).subset_of(names_of_functions(before + a)),
        names_of_functions(before).subset_of(names_of_functions(before + a)),
{
    assert forall|n: Seq<char>| names_of_functions(a).contains(n) implies names_of_functions(before + a).contains(n) by {
        let j = choose|j: int| 0 <= j < a.len() && #[trigger] function_name(a[j]) == n;
        assert((before + a)[before.len() + j] == a[j]);
        assert(function_name((before + a)[before.len() + j]) == n);
    }
    assert forall|n: Seq<char>| names_of_functions(before).contains(n) implies names_of_functions(before + a).contains(n) by {
        let j = choose|j: int| 0 <= j < before.len() && #[trigger] function_name(before[j]) == n;
        assert((before + a)[j] == before[j]);
        assert(function_name((before + a)[j]) == n);
    }
}

/// Whether a struct that is not generic has members with distinct names,
/// none named `len`, each of a primitive type.
pub open spec fn simple_struct(s: TokenWithDebugInfo<Struct>) -> bool {
    s.internal_tok.generics@.len() == 0 ==> member_names_ok(s.internal_tok.members@) && primitive_members(
        s.internal_tok.members@,
    )
}

/// Whether a function that is not generic is simple and its body has its
/// return type.
pub open spec fn simple_typed_function(f: Typed<TokenWithDebugInfo<Function>>) -> bool {
    f.expr.internal_tok.generics@.len() == 0 ==> simple_function(f.expr.internal_tok) && same_type(
        simple_body_type(f.expr.internal_tok),
        f.expr.internal_tok.return_type.internal_tok,
    )
}

/// Whether a namespace, and every namespace in it at any depth, checks
/// whatever the rest of the program declares: it is not named `toplevel`
/// unless it is the top level, its declarations are checked, its structs
/// and functions are simple, and its generic ones are never used.
pub open spec fn simple_namespace(ns: Namespace, is_toplevel: bool) -> bool
    decreases ns, ns.sub_namespaces@.len() + 1,
{
    &&& is_toplevel || ns.id@ != "toplevel"@
    &&& forall|i: int| 0 <= i < ns.enums@.len() ==> #[trigger] variants_distinct(ns.enums@[i])
    &&& forall|i: int| 0 <= i < ns.constants@.len() ==> #[trigger] constant_typed(ns.constants@[i])
    &&& forall|i: int| 0 <= i < ns.structs@.len() ==> #[trigger] simple_struct(ns.structs@[i])
    &&& forall|i: int| 0 <= i < ns.functions@.len() ==> #[trigger] simple_typed_function(ns.functions@[i])
    &&& subs_simple(ns, ns.sub_namespaces@.len() as int)
}

/// Whether the first `n` namespaces in `ns` are simple (see
/// `simple_namespace`).
pub open spec fn subs_simple(ns: Namespace, n: int) -> bool
    decreases ns, n,
{
    if n <= 0 {
        true
    } else if n > ns.sub_namespaces@.len() {
        false
    } else {
        proof {
            assert(decreases_to!(ns => ns.sub_namespaces));
            assert(decreases_to!(ns.sub_namespaces => ns.sub_namespaces@[n - 1]));
        }
        subs_simple(ns, n - 1) && simple_namespace(ns.sub_namespaces@[n - 1].internal_tok, false)
    }
}

proof fn lemma_subs_simple(ns: Namespace, n: int, k: int)
    requires
        subs_simple(ns, n),
        0 <= k < n,
    ensures
        simple_namespace(ns.sub_namespaces@[k].internal_tok, false),
    decreases n,
{
    if k < n - 1 {
        lemma_subs_simple(ns, n - 1, k);
    }
}

/// Checks a namespace and the namespaces in it, against what the whole
/// program declares, and merges them into one: every function, constant,
/// struct and enum, under its qualified name. Enums may not hold a variant
/// twice, constants must have the type they are declared with, and functions
/// and structs must check; generic ones are checked where they are used.
pub fn typechecking(
    namespace: &TokenWithDebugInfo<Namespace>,
    is_toplevel: bool,
    namespace_path: &str,
    declared: &Declarations,
) -> (res: Result<TokenWithDebugInfo<Namespace>, CompileError>)
    ensures
        res matches Ok(ns) ==> namespace_checked(ns.internal_tok) && ns.internal_tok.id@
            == namespace.internal_tok.id@,
        res is Ok ==> declarations_checked(namespace.internal_tok),
        !is_toplevel && namespace.internal_tok.id@ == "toplevel"@ ==> fails_saying(
            res,
            "'toplevel' namespace is reserved for the top-level namespace, use a different name"@,
        ),
        simple_namespace(namespace.internal_tok, is_toplevel) ==> res is Ok,
        res matches Ok(r) ==> functions_lifted(
            namespace.internal_tok,
            namespace_path@,
            names_of_functions(r.internal_tok.functions@),
        ),
        res matches Ok(r) ==> own_declarations_kept(
            namespace.internal_tok,
            namespace_path@ + namespace.internal_tok.id@ + "::"@,
            r.internal_tok,
        ),
    decreases namespace,
{
    let ghost simple = simple_namespace(namespace.internal_tok, is_toplevel);
    let ns = &namespace.internal_tok;
    if same_text(ns.id.as_str(), "toplevel") && !is_toplevel {
        return Err(
            error(
                "'toplevel' namespace is reserved for the top-level namespace, use a different name",
                namespace,
            ),
        );
    }
    let path = concat(namespace_path, ns.id.as_str());
    let path = concat(path.as_str(), "::");
    let mut ctx = Context {
        namespace: path.clone(),
        namespace_root: path.clone(),
        declared,
        variables: Names::new(),
        concrete_functions: Names::new(),
        concrete_structs: Names::new(),
        enums: Names::new(),
        array_dims: Names::new(),
        generics_bindings: Names::new(),
    };
    let mut new_functions: Vec<Typed<TokenWithDebugInfo<Function>>> = Vec::new();
    // Enums, with their variants.
    let mut i: usize = 0;
    while i < ns.enums.len()
        invariant
            i <= ns.enums@.len(),
            new_functions@.len() == 0,
            forall|e: int| 0 <= e < i ==> #[trigger] variants_distinct(ns.enums@[e]),
            *ns == namespace.internal_tok,
            simple == simple_namespace(namespace.internal_tok, is_toplevel),
            is_toplevel || namespace.internal_tok.id@ != "toplevel"@,
        decreases ns.enums@.len() - i,
    {
        let at = &ns.enums[i];
        let en = &at.internal_tok;
        assert(simple ==> variants_distinct(ns.enums@[i as int]));
        let id = concat(path.as_str(), en.id.internal_tok.as_str());
        let mut variants: Vec<String> = Vec::new();
        let mut j: usize = 0;
        while j < en.variants.len()
            invariant
                j <= en.variants@.len(),
                variants@.len() == j,
                forall|a: int| 0 <= a < j ==> (#[trigger] variants@[a])@ == en.variants@[a].internal_tok@,
                forall|a: int, b: int|
                    0 <= a < b < j ==> (#[trigger] en.variants@[a]).internal_tok@ != (
                    #[trigger] en.variants@[b]).internal_tok@,
                simple == simple_namespace(namespace.internal_tok, is_toplevel),
                is_toplevel || namespace.internal_tok.id@ != "toplevel"@,
                simple ==> forall|a: int, b: int|
                    0 <= a < b < en.variants@.len() ==> (#[trigger] en.variants@[a]).internal_tok@ != (
                    #[trigger] en.variants@[b]).internal_tok@,
            decreases en.variants@.len() - j,
        {
            let v = &en.variants[j].internal_tok;
            let mut k: usize = 0;
            proof {
                if simple {
                    assert forall|a: int| 0 <= a < variants@.len() implies (#[trigger] variants@[a])@ != v@ by {
                        assert(en.variants@[a].internal_tok@ != en.variants@[j as int].internal_tok@);
                    }
                }
            }
            while k < variants.len()
                invariant
                    k <= variants@.len(),
                    forall|a: int| 0 <= a < k ==> (#[trigger] variants@[a])@ != v@,
                    simple == simple_namespace(namespace.internal_tok, is_toplevel),
                    is_toplevel || namespace.internal_tok.id@ != "toplevel"@,
                    simple ==> forall|a: int| 0 <= a < variants@.len() ==> (#[trigger] variants@[a])@ != v@,
                decreases variants@.len() - k,
            {
                if same_text(variants[k].as_str(), v.as_str()) {
                    let m = concat("Enum '", id.as_str());
                    let m = concat(m.as_str(), "' has duplicate variant '");
                    return Err(error_with_name(m.as_str(), v.as_str(), "'", at));
                }
                k = k + 1;
            }
            assert forall|a: int, b: int|
                0 <= a < b < j + 1 implies (#[trigger] en.variants@[a]).internal_tok@ != (
                #[trigger] en.variants@[b]).internal_tok@ by {
                if b == j {
                    assert(variants@[a]@ != v@);
                }
            }
            variants.push(v.clone());
            j = j + 1;
        }
        assert(variants_distinct(ns.enums@[i as int]));
        ctx.enums.insert(id, variants);
        i = i + 1;
    }
    // Constants, which must have the type they are declared with.
    let mut typed_constants: Vec<Typed<TokenWithDebugInfo<Constant>>> = Vec::new();
    let mut i: usize = 0;
    while i < ns.constants.len()
        invariant
            i <= ns.constants@.len(),
            all_functions_typed(new_functions@),
            forall|c: int| 0 <= c < i ==> #[trigger] constant_typed(ns.constants@[c]),
            *ns == namespace.internal_tok,
            simple == simple_namespace(namespace.internal_tok, is_toplevel),
            is_toplevel || namespace.internal_tok.id@ != "toplevel"@,
            typed_constants@.len() == i,
            forall|c: int|
                0 <= c < i ==> crate::ast_build::constant_name((#[trigger] typed_constants@[c]).expr.internal_tok) == path@
                    + crate::ast_build::constant_name(ns.constants@[c].expr.internal_tok),
        decreases ns.constants@.len() - i,
    {
        let c = &ns.constants[i].expr;
        let Constant::Constant(cname, lit, var_type) = &c.internal_tok;
        let (line, file) = (c.line, c.file.clone());
        let name = concat(path.as_str(), cname.internal_tok.as_str());
        let lit_expr = TokenWithDebugInfo {
            internal_tok: Expression::Atom(
                Typed::new(TokenWithDebugInfo { internal_tok: Atom::Literal(clone_typed_literal(lit)), line, file: file.clone() }),
            ),
            line,
            file: file.clone(),
        };
        assert(simple ==> constant_typed(ns.constants@[i as int]));
        let typed = type_expression(&mut new_functions, &lit_expr, &mut ctx, CHECK_DEPTH)?;
        if !types_equal(&var_type.internal_tok, &typed.type_) {
            let m = concat("Constant '", name.as_str());
            let m = concat(m.as_str(), "' type does not match expression type: '");
            return Err(types_error(m.as_str(), &var_type.internal_tok, &typed.type_, c));
        }
        ctx.variables.insert(name.clone(), clone_type(&var_type.internal_tok));
        typed_constants.push(
            Typed {
                expr: TokenWithDebugInfo {
                    internal_tok: Constant::Constant(
                        TokenWithDebugInfo { internal_tok: name, line, file: file.clone() },
                        clone_typed_literal(lit),
                        clone_type_info(var_type),
                    ),
                    line,
                    file,
                },
                type_: clone_type(&var_type.internal_tok),
            },
        );
        i = i + 1;
    }
    // Structs that are not generic.
    let mut i: usize = 0;
    while i < ns.structs.len()
        invariant
            i <= ns.structs@.len(),
            all_functions_typed(new_functions@),
            *ns == namespace.internal_tok,
            simple == simple_namespace(namespace.internal_tok, is_toplevel),
            is_toplevel || namespace.internal_tok.id@ != "toplevel"@,
        decreases ns.structs@.len() - i,
    {
        assert(simple ==> simple_struct(ns.structs@[i as int]));
        let st = &ns.structs[i].internal_tok;
        if st.generics.len() == 0 {
            let (id, ordered, members) = type_struct(&st.id, &st.members, &path, &mut ctx, CHECK_DEPTH)?;
            ctx.concrete_structs.insert(id, StructLayout { ordered, members });
        }
        i = i + 1;
    }
    // Functions that are not generic.
    let mut i: usize = 0;
    while i < ns.functions.len()
        invariant
            i <= ns.functions@.len(),
            all_functions_typed(new_functions@),
            *ns == namespace.internal_tok,
            simple == simple_namespace(namespace.internal_tok, is_toplevel),
            is_toplevel || namespace.internal_tok.id@ != "toplevel"@,
            forall|k: int|
                0 <= k < i && ns.functions@[k].expr.internal_tok.generics@.len() == 0 ==> names_of_functions(
                    new_functions@,
                ).contains(path@ + #[trigger] function_name(ns.functions@[k])),
        decreases ns.functions@.len() - i,
    {
        assert(simple ==> simple_typed_function(ns.functions@[i as int]));
        let f = &ns.functions[i].expr;
        if f.internal_tok.generics.len() == 0 {
            let ghost at_start = new_functions@;
            let typed = type_function(&mut new_functions, f, &mut ctx, &path, CHECK_DEPTH)?;
            let ghost before = new_functions@;
            new_functions.push(typed);
            proof {
                lemma_names_prefix(at_start, before);
                assert(is_prefix(before, new_functions@));
                lemma_names_prefix(before, new_functions@);
                let last = new_functions@.len() - 1;
                assert(function_name(new_functions@[last]) == path@ + function_name(ns.functions@[i as int]));
                assert(names_of_functions(new_functions@).contains(path@ + function_name(ns.functions@[i as int])));
                assert forall|j: int| 0 <= j < new_functions@.len() implies #[trigger] function_typed(new_functions@[j]) by {
                    if j < before.len() {
                        assert(new_functions@[j] == before[j]);
                    }
                }
            }
        }
        i = i + 1;
    }
    let mut new_structs: Vec<TokenWithDebugInfo<Struct>> = Vec::new();
    let mut i: usize = 0;
    while i < ns.structs.len()
        invariant
            i <= ns.structs@.len(),
            new_structs@.len() == i,
            forall|k: int|
                0 <= k < i ==> struct_name(#[trigger] new_structs@[k]) == struct_name(ns.structs@[k])
                    && struct_is_generic(new_structs@[k]) == struct_is_generic(ns.structs@[k]),
        decreases ns.structs@.len() - i,
    {
        new_structs.push(clone_struct(&ns.structs[i]));
        i = i + 1;
    }
    let mut new_enums: Vec<TokenWithDebugInfo<Enum>> = Vec::new();
    let mut i: usize = 0;
    while i < ns.enums.len()
        invariant
            i <= ns.enums@.len(),
            new_enums@.len() == i,
            forall|k: int| 0 <= k < i ==> enum_name(#[trigger] new_enums@[k]) == enum_name(ns.enums@[k]),
        decreases ns.enums@.len() - i,
    {
        new_enums.push(clone_enum(&ns.enums[i]));
        i = i + 1;
    }
    // The namespaces in this one, merged into it.
    let mut i: usize = 0;
    while i < ns.sub_namespaces.len()
        invariant
            i <= ns.sub_namespaces@.len(),
            *ns == namespace.internal_tok,
            all_functions_typed(new_functions@),
            subs_declarations_checked(*ns, i as int),
            simple == simple_namespace(namespace.internal_tok, is_toplevel),
            is_toplevel || namespace.internal_tok.id@ != "toplevel"@,
            path@ == namespace_path@ + ns.id@ + "::"@,
            forall|k: int|
                0 <= k < ns.functions@.len() && ns.functions@[k].expr.internal_tok.generics@.len() == 0
                    ==> names_of_functions(new_functions@).contains(path@ + #[trigger] function_name(ns.functions@[k])),
            subs_lifted(*ns, i as int, path@, names_of_functions(new_functions@)),
            typed_constants@.len() >= ns.constants@.len(),
            forall|c: int|
                0 <= c < ns.constants@.len() ==> crate::ast_build::constant_name(
                    (#[trigger] typed_constants@[c]).expr.internal_tok,
                ) == path@ + crate::ast_build::constant_name(ns.constants@[c].expr.internal_tok),
            new_structs@.len() >= ns.structs@.len(),
            forall|k: int|
                0 <= k < ns.structs@.len() ==> struct_name(#[trigger] new_structs@[k]) == struct_name(ns.structs@[k])
                    && struct_is_generic(new_structs@[k]) == struct_is_generic(ns.structs@[k]),
            new_enums@.len() >= ns.enums@.len(),
            forall|k: int| 0 <= k < ns.enums@.len() ==> enum_name(#[trigger] new_enums@[k]) == enum_name(ns.enums@[k]),
        decreases ns.sub_namespaces@.len() - i,
    {
        proof {
            if simple {
                lemma_subs_simple(*ns, ns.sub_namespaces@.len() as int, i as int);
            }
        }
        proof {
            assert(decreases_to!(namespace => ns.sub_namespaces));
            assert(decreases_to!(ns.sub_namespaces => ns.sub_namespaces@[i as int]));
        }
        let sub = typechecking(&ns.sub_namespaces[i], false, path.as_str(), declared)?;
        let Namespace { functions, constants, structs, enums, .. } = sub.internal_tok;
        let mut functions = functions;
        let mut constants = constants;
        let mut structs = structs;
        let mut enums = enums;
        let ghost before = new_functions@;
        let ghost added = functions@;
        new_functions.append(&mut functions);
        proof {
            assert forall|j: int| 0 <= j < new_functions@.len() implies #[trigger] function_typed(new_functions@[j]) by {
                if j < before.len() {
                    assert(new_functions@[j] == before[j]);
                } else {
                    assert(new_functions@[j] == added[j - before.len()]);
                }
            }
            assert(new_functions@ =~= before + added);
            lemma_names_suffix(added, before);
            let grown = names_of_functions(new_functions@);
            lemma_lifted_grows(ns.sub_namespaces@[i as int].internal_tok, path@, names_of_functions(added), grown);
            lemma_subs_lifted_grows(*ns, i as int, path@, names_of_functions(before), grown);
            assert(subs_lifted(*ns, i + 1, path@, grown));
        }
        typed_constants.append(&mut constants);
        new_structs.append(&mut structs);
        new_enums.append(&mut enums);
        i = i + 1;
    }
    Ok(
        TokenWithDebugInfo {
            internal_tok: Namespace {
                id: ns.id.clone(),
                functions: new_functions,
                constants: typed_constants,
                structs: new_structs,
                enums: new_enums,
                sub_namespaces: Vec::new(),
            },
            line: namespace.line,
            file: namespace.file.clone(),
        },
    )
}

/// Whether `f` may be a program's `main` function: it returns an int and
/// has no type parameters.
pub open spec fn is_main(f: Function) -> bool {
    &&& f.id.internal_tok@ == "main"@
    &&& f.return_type.internal_tok is Int
    &&& f.generics@.len() == 0
}

/// Whether the functions of a program's top level meet the rules on their
/// names: one of them is a `main` (see `is_main`), every one named `main`
/// is one, none is named `_start`, and no other name is declared twice.
pub open spec fn top_functions_ok(fns: Seq<Typed<TokenWithDebugInfo<Function>>>) -> bool {
    &&& exists|i: int| 0 <= i < fns.len() && #[trigger] is_main(fns[i].expr.internal_tok)
    &&& forall|i: int|
        0 <= i < fns.len() ==> function_name(#[trigger] fns[i]) != "_start"@ && (function_name(fns[i]) == "main"@
            ==> is_main(fns[i].expr.internal_tok))
    &&& forall|i: int, j: int|
        0 <= i < j < fns.len() && function_name(#[trigger] fns[i]) != "main"@ ==> function_name(fns[i])
            != function_name(#[trigger] fns[j])
}

/// What is wrong with the `i`-th function of a program's top level, as the
/// error says it: a `main` with type parameters or that returns no int, a
/// function named `_start`, or a name other than `main` declared before;
/// `None` where nothing is.
pub open spec fn function_offense(fns: Seq<Typed<TokenWithDebugInfo<Function>>>, i: int) -> Option<Seq<char>> {
    let n = function_name(fns[i]);
    if n == "main"@ {
        if fns[i].expr.internal_tok.generics@.len() > 0 {
            Some("Main function cannot have generics"@)
        } else if !(fns[i].expr.internal_tok.return_type.internal_tok is Int) {
            Some("Main function must return an integer"@)
        } else {
            None
        }
    } else if n == "_start"@ {
        Some("Function cannot be called '_start'. Function '_start' is reserved for the runtime, use 'main' instead"@)
    } else if exists|j: int| 0 <= j < i && function_name(#[trigger] fns[j]) == n {
        Some("Function '"@ + n + "' is declared more than once"@)
    } else {
        None
    }
}

/// Checks a whole program: its top level must declare a function `main`
/// that returns an int and has no type parameters, no function may be named
/// `_start` or be declared twice; then every namespace is checked and the
/// program merged into one namespace (see `typechecking`).
#[verifier::rlimit(60)]
pub fn check_program(ast: &Ast) -> (res: Result<Ast, CompileError>)
    ensures
        res is Ok ==> exists|i: int|
            0 <= i < ast.program.internal_tok.functions@.len() && #[trigger] is_main(
                ast.program.internal_tok.functions@[i].expr.internal_tok,
            ),
        res is Ok ==> forall|i: int|
            0 <= i < ast.program.internal_tok.functions@.len() ==> function_name(
                #[trigger] ast.program.internal_tok.functions@[i],
            ) != "_start"@ && (function_name(ast.program.internal_tok.functions@[i]) == "main"@ ==> is_main(
                ast.program.internal_tok.functions@[i].expr.internal_tok,
            )),
        res is Ok ==> declarations_ok(ast.program.internal_tok),
        res is Ok ==> declarations_checked(ast.program.internal_tok),
        res matches Ok(checked) ==> namespace_checked(checked.program.internal_tok),
        res matches Ok(checked) ==> functions_lifted(
            ast.program.internal_tok,
            Seq::empty(),
            names_of_functions(checked.program.internal_tok.functions@),
        ),
        res matches Ok(checked) ==> own_declarations_kept(
            ast.program.internal_tok,
            ast.program.internal_tok.id@ + "::"@,
            checked.program.internal_tok,
        ),
        top_functions_ok(ast.program.internal_tok.functions@) && declarations_ok(ast.program.internal_tok)
            && simple_namespace(ast.program.internal_tok, true) ==> res is Ok,
        forall|i: int|
            0 <= i < ast.program.internal_tok.functions@.len() && #[trigger] function_offense(
                ast.program.internal_tok.functions@,
                i,
            ) is Some && (forall|j: int|
                0 <= j < i ==> function_offense(ast.program.internal_tok.functions@, j) is None) ==> fails_saying(
                res,
                function_offense(ast.program.internal_tok.functions@, i)->0,
            ),
        (forall|i: int|
            0 <= i < ast.program.internal_tok.functions@.len() ==> #[trigger] function_offense(
                ast.program.internal_tok.functions@,
                i,
            ) is None) && !(exists|i: int|
            0 <= i < ast.program.internal_tok.functions@.len() && #[trigger] is_main(
                ast.program.internal_tok.functions@[i].expr.internal_tok,
            )) ==> fails_saying(
            res,
            "Main function not found. Please define a function named 'main' that returns an integer."@,
        ),
{
    let functions = &ast.program.internal_tok.functions;
    let ghost ok = top_functions_ok(functions@);
    let mut main_at: Option<usize> = None;
    let mut seen: Vec<String> = Vec::new();
    // Where each name of `seen` was declared, and where each function that
    // is not `main` has its name in `seen`.
    let ghost mut seen_at: Seq<int> = Seq::empty();
    let ghost mut seen_index: Seq<int> = Seq::empty();
    let mut i: usize = 0;
    proof {
        reveal_strlit("main");
        reveal_strlit("_start");
        assert("main"@.len() != "_start"@.len());
    }
    while i < functions.len()
        invariant
            i <= functions@.len(),
            *functions == ast.program.internal_tok.functions,
            ok == top_functions_ok(functions@),
            "main"@ != "_start"@,
            ok && (exists|j: int| 0 <= j < i && #[trigger] is_main(functions@[j].expr.internal_tok)) ==> main_at is Some,
            seen_at.len() == seen@.len(),
            forall|a: int|
                0 <= a < seen@.len() ==> 0 <= #[trigger] seen_at[a] < i && seen@[a]@ == function_name(
                    functions@[seen_at[a]],
                ) && function_name(functions@[seen_at[a]]) != "main"@,
            seen_index.len() == i,
            forall|j: int|
                0 <= j < i && function_name(functions@[j]) != "main"@ ==> 0 <= #[trigger] seen_index[j] < seen@.len()
                    && seen@[seen_index[j]]@ == function_name(functions@[j]),
            main_at matches Some(m) ==> m < functions@.len() && is_main(functions@[m as int].expr.internal_tok),
            forall|j: int|
                0 <= j < i ==> function_name(#[trigger] functions@[j]) != "_start"@ && (function_name(functions@[j])
                    == "main"@ ==> is_main(functions@[j].expr.internal_tok)),
            forall|j: int| 0 <= j < i ==> #[trigger] function_offense(functions@, j) is None,
        decreases functions@.len() - i,
    {
        let f = &functions[i].expr;
        let name = &f.internal_tok.id.internal_tok;
        assert(name@ == function_name(functions@[i as int]));
        if same_text(name.as_str(), "main") {
            if f.internal_tok.generics.len() > 0 {
                assert(function_offense(functions@, i as int) == Some("Main function cannot have generics"@));
                return Err(error("Main function cannot have generics", f));
            }
            if !matches!(f.internal_tok.return_type.internal_tok, Type::Int) {
                assert(function_offense(functions@, i as int) == Some("Main function must return an integer"@));
                return Err(error("Main function must return an integer", f));
            }
            main_at = Some(i);
            proof {
                seen_index = seen_index.push(-1);
                assert(function_offense(functions@, i as int) is None);
            }
        } else if same_text(name.as_str(), "_start") {
            return Err(
                error(
                    "Function cannot be called '_start'. Function '_start' is reserved for the runtime, use 'main' instead",
                    f,
                ),
            );
        } else {
            let mut k: usize = 0;
            while k < seen.len()
                invariant
                    k <= seen@.len(),
                    forall|a: int| 0 <= a < k ==> (#[trigger] seen@[a])@ != name@,
                    i < functions@.len(),
                    *functions == ast.program.internal_tok.functions,
                    name@ == function_name(functions@[i as int]),
                    name@ != "main"@ && name@ != "_start"@,
                    forall|j: int| 0 <= j < i ==> #[trigger] function_offense(functions@, j) is None,
                    seen_at.len() == seen@.len(),
                    forall|a: int|
                        0 <= a < seen@.len() ==> 0 <= #[trigger] seen_at[a] < i && seen@[a]@ == function_name(
                            functions@[seen_at[a]],
                        ),
                decreases seen@.len() - k,
            {
                if same_text(seen[k].as_str(), name.as_str()) {
                    proof {
                        let j = seen_at[k as int];
                        assert(function_name(functions@[j]) == function_name(functions@[i as int]));
                        assert(function_offense(functions@, i as int) == Some(
                            "Function '"@ + name@ + "' is declared more than once"@,
                        ));
                    }
                    return Err(error_with_name("Function '", name.as_str(), "' is declared more than once", f));
                }
                k = k + 1;
            }
            proof {
                assert(!(exists|j: int| 0 <= j < i && function_name(#[trigger] functions@[j]) == name@)) by {
                    if exists|j: int| 0 <= j < i && function_name(#[trigger] functions@[j]) == name@ {
                        let j = choose|j: int| 0 <= j < i && function_name(#[trigger] functions@[j]) == name@;
                        let a = seen_index[j];
                        assert(seen@[a]@ == name@);
                    }
                }
                assert(function_offense(functions@, i as int) is None);
                if ok {
                    assert(is_main(functions@[i as int].expr.internal_tok) ==> name@ == "main"@);
                }
            }
            let ghost before = seen@;
            seen.push(name.clone());
            proof {
                seen_at = seen_at.push(i as int);
                seen_index = seen_index.push(before.len() as int);
                assert forall|a: int| 0 <= a < seen@.len() implies 0 <= #[trigger] seen_at[a] < i + 1
                    && seen@[a]@ == function_name(functions@[seen_at[a]]) && function_name(
                    functions@[seen_at[a]],
                ) != "main"@ by {
                    if a < before.len() {
                        assert(seen@[a] == before[a]);
                    }
                }
                assert forall|j: int|
                    0 <= j < i + 1 && function_name(functions@[j]) != "main"@ implies 0 <= #[trigger] seen_index[j]
                        < seen@.len() && seen@[seen_index[j]]@ == function_name(functions@[j]) by {
                    if j < i {
                        assert(seen@[seen_index[j]] == before[seen_index[j]]);
                    }
                }
            }
        }
        i = i + 1;
    }
    let m = match main_at {
        Some(m) => m,
        None => return Err(
            error(
                "Main function not found. Please define a function named 'main' that returns an integer.",
                &ast.program,
            ),
        ),
    };
    assert(is_main(functions@[m as int].expr.internal_tok));
    let declared = get_all_functions_structs_enums_consts(&ast.program, "")?;
    let program = typechecking(&ast.program, true, "", &declared)?;
    proof {
        reveal_strlit("");
        assert(""@ =~= Seq::<char>::empty());
        assert(""@ + ast.program.internal_tok.id@ + "::"@ =~= ast.program.internal_tok.id@ + "::"@);
    }
    Ok(Ast { program })
}

} // verus!
