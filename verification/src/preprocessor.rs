//! The preprocessor: handles the `#` directives and removes comments.
//!
//! - `#include <FILE>` puts the preprocessed contents of another file (or of
//!   `include.dpl` in a directory), relative to the current file, in place.
//! - `#define IDENTIFIER REPLACEMENT` defines a macro, replaced throughout
//!   the code after it; a warning if it was defined already.
//! - `#undef IDENTIFIER` removes a macro; a warning if it was not defined.
//! - `#ifdef IDENTIFIER` / `#ifndef IDENTIFIER` keep the code up to `#else`
//!   or `#endif` when the macro is (is not) defined, and skip it otherwise;
//!   `#else` skips up to `#endif`. These do not nest.
//! - `#error MESSAGE` stops with the message; `#print MESSAGE` prints it.
//! - `#namespace NAME` / `#spacename` open and close a namespace.
//!
//! The files that the program includes are read by the caller: where the
//! preprocessor needs a path that `Sources` does not describe yet, it stops
//! and names it, and the caller describes it and runs the preprocessor again.
use vstd::prelude::*;

use crate::lexer::{count_char, count_occurrences};
use crate::ast_build::radix_text;
use crate::logic_checker::number_text;
use crate::names::{lookup, Names};
use crate::pattern::{regex_compiles, regex_find, regex_group, Pattern};
use crate::text::{chars_of, concat, same_text, skip_chars, starts_with_text, substring};

verus! {

/// A directive: `#` and the directive's name.
pub const DIRECTIVE_RE: &'static str =
    r"^\#(include|define|undef|ifdef|ifndef|else|endif|error|print|namespace|spacename)";

/// A macro or namespace name, with the white space before it.
pub const MACRO_NAME_RE: &'static str = r"^(?:\s*)[a-zA-Z_][a-zA-Z0-9_]*";

/// The rest of a line, with its line break.
pub const REPLACEMENT_RE: &'static str = r"^[\t ]*(.*)\s*?(?:\n|$)";

/// The file of an `#include`: `<FILE>`.
pub const INCLUDE_FILE_RE: &'static str = r"^(?:\s*)<(.*)>";

/// A line comment, with its line break.
pub const LINE_COMMENT_RE: &'static str = r"^\/\/.*(?:\n|$)";

/// A block comment.
pub const BLOCK_COMMENT_RE: &'static str = r"^\/\*[\s\S]*?\*\/";

/// Whether the `regex` crate accepts each of the preprocessor's patterns.
pub open spec fn directive_patterns_compile() -> bool {
    &&& regex_compiles(DIRECTIVE_RE@)
    &&& regex_compiles(MACRO_NAME_RE@)
    &&& regex_compiles(REPLACEMENT_RE@)
    &&& regex_compiles(INCLUDE_FILE_RE@)
    &&& regex_compiles(LINE_COMMENT_RE@)
    &&& regex_compiles(BLOCK_COMMENT_RE@)
}

/// The preprocessor's patterns, compiled.
pub struct Directives {
    directive: Pattern,
    macro_name: Pattern,
    replacement: Pattern,
    include_file: Pattern,
    line_comment: Pattern,
    block_comment: Pattern,
}

impl Directives {
    /// Each field holds the pattern its name says.
    pub closed spec fn wf(&self) -> bool {
        &&& self.directive.source() == DIRECTIVE_RE@
        &&& self.macro_name.source() == MACRO_NAME_RE@
        &&& self.replacement.source() == REPLACEMENT_RE@
        &&& self.include_file.source() == INCLUDE_FILE_RE@
        &&& self.line_comment.source() == LINE_COMMENT_RE@
        &&& self.block_comment.source() == BLOCK_COMMENT_RE@
    }

    /// Compiles the preprocessor's patterns; `None` if the `regex` crate
    /// refuses one.
    pub fn compile() -> (res: Option<Directives>)
        ensures
            res is Some <==> directive_patterns_compile(),
            res matches Some(d) ==> d.wf(),
    {
        let directive = Pattern::new(DIRECTIVE_RE)?;
        let macro_name = Pattern::new(MACRO_NAME_RE)?;
        let replacement = Pattern::new(REPLACEMENT_RE)?;
        let include_file = Pattern::new(INCLUDE_FILE_RE)?;
        let line_comment = Pattern::new(LINE_COMMENT_RE)?;
        let block_comment = Pattern::new(BLOCK_COMMENT_RE)?;
        Some(Directives { directive, macro_name, replacement, include_file, line_comment, block_comment })
    }
}

/// What a path of the file system is, as the caller found it.
#[derive(Debug)]
pub enum PathKind {
    Directory,
    File(String),
    Missing,
}

/// What the caller has found of the paths that the program includes.
pub struct Sources {
    pub paths: Names<PathKind>,
}

/// What the preprocessor keeps across files: the files included in each
/// namespace, the macros (`None` once undefined), and the messages it
/// printed, in order.
pub struct PreprocessorState {
    pub included_files: Names<Vec<String>>,
    pub defined: Names<Option<String>>,
    pub messages: Vec<String>,
}

/// Why preprocessing stopped.
#[derive(Debug)]
pub enum PreprocessError {
    /// The caller must describe this path in `Sources` and run again.
    NeedPath(String),
    /// The program is wrong: the message says where and why.
    Failed(String),
    /// The `regex` crate refused one of the patterns.
    InvalidPattern,
}

/// `Path::parent` of `p`, as text; `None` for a path that has no parent.
pub uninterp spec fn path_parent(p: Seq<char>) -> Option<Seq<char>>;

/// `Path::join` of `a` and `b`, as text.
pub uninterp spec fn path_join(a: Seq<char>, b: Seq<char>) -> Seq<char>;

/// `std::path::Path::parent` of `p`, as text: the contract says only that the
/// result is the one that `path_parent` names for `p`.
#[verifier::external_body]
fn parent_of(p: &str) -> (res: Option<String>)
    ensures
        match res {
            Some(d) => path_parent(p@) == Some(d@),
            None => path_parent(p@) is None,
        },
{
    match std::path::Path::new(p).parent() {
        Some(d) => Some(d.display().to_string()),
        None => None,
    }
}

/// The directory of the file `p`: its parent, or `.` where it has none.
fn directory_of(p: &str) -> (res: String)
    ensures
        res@ == match path_parent(p@) {
            Some(d) => d,
            None => "."@,
        },
{
    match parent_of(p) {
        Some(d) => d,
        None => String::from_str("."),
    }
}

/// `std::path::Path::join` of `a` and `b`, as text: the contract says only
/// that the result is the one that `path_join` names for `a` and `b`.
#[verifier::external_body]
fn join_path(a: &str, b: &str) -> (res: String)
    ensures
        res@ == path_join(a@, b@),
{
    std::path::Path::new(a).join(b).display().to_string()
}

/// The names of a namespace path joined by `::`.
pub open spec fn joined(names: Seq<String>) -> Seq<char>
    decreases names.len(),
{
    if names.len() == 0 {
        Seq::empty()
    } else if names.len() == 1 {
        names[0]@
    } else {
        joined(names.drop_last()) + "::"@ + names.last()@
    }
}

/// The names of a namespace path joined by `::`.
pub fn join_names(names: &Vec<String>) -> (res: String)
    ensures
        res@ == joined(names@),
{
    let mut s = String::new();
    let mut i: usize = 0;
    while i < names.len()
        invariant
            i <= names@.len(),
            s@ == joined(names@.take(i as int)),
        decreases names@.len() - i,
    {
        assert(names@.take(i + 1).drop_last() =~= names@.take(i as int));
        if i > 0 {
            s.append("::");
        }
        s.append(names[i].as_str());
        proof {
            if i == 0 {
                assert(s@ =~= joined(names@.take(1)));
            }
        }
        i = i + 1;
    }
    assert(names@.take(names@.len() as int) =~= names@);
    s
}

/// The text that leads a message about `line` of `filename`:
/// `FILENAME Line LINE`.
fn where_text(filename: &str, line: usize) -> (res: String)
    ensures
        res@ == filename@ + " Line "@ + radix_text(line as nat, 10),
{
    let s = concat(filename, " Line ");
    concat(s.as_str(), number_text(line).as_str())
}

/// The message `FILENAME Line LINE: WHAT`.
fn failure(filename: &str, line: usize, what: &str) -> (res: PreprocessError)
    ensures
        res matches PreprocessError::Failed(m) && m@ == filename@ + " Line "@ + radix_text(line as nat, 10) + ": "@
            + what@,
{
    let s = where_text(filename, line);
    let s = concat(s.as_str(), ": ");
    PreprocessError::Failed(concat(s.as_str(), what))
}

/// `s` without the white space at its end.
pub open spec fn trimmed_end(s: Seq<char>) -> Seq<char>
    decreases s.len(),
{
    if s.len() > 0 && (s.last() == ' ' || s.last() == '\t' || s.last() == '\n' || s.last() == '\r') {
        trimmed_end(s.drop_last())
    } else {
        s
    }
}

/// `s` without the white space at its end.
fn trim_end_text(s: &str) -> (res: String)
    ensures
        res@ == trimmed_end(s@),
{
    let cs = chars_of(s);
    let mut n = cs.len();
    assert(s@.take(n as int) =~= s@);
    while n > 0 && (cs[n - 1] == ' ' || cs[n - 1] == '\t' || cs[n - 1] == '\n' || cs[n - 1] == '\r')
        invariant
            n <= cs@.len(),
            cs@ == s@,
            trimmed_end(s@) == trimmed_end(s@.take(n as int)),
        decreases n,
    {
        assert(s@.take(n as int).drop_last() =~= s@.take(n - 1));
        n = n - 1;
    }
    assert(s@.take(n as int) =~= s@.subrange(0, n as int));
    substring(s, 0, n)
}

/// `s` without the white space at its start.
pub open spec fn trimmed_start(s: Seq<char>) -> Seq<char>
    decreases s.len(),
{
    if s.len() > 0 && (s[0] == ' ' || s[0] == '\t' || s[0] == '\n' || s[0] == '\r') {
        trimmed_start(s.drop_first())
    } else {
        s
    }
}

/// `s` without the white space at its start and end.
fn trim_text(s: &str) -> (res: String)
    ensures
        res@ == trimmed_end(trimmed_start(s@)),
{
    let cs = chars_of(s);
    let mut start: usize = 0;
    assert(s@.skip(0) =~= s@);
    while start < cs.len() && (cs[start] == ' ' || cs[start] == '\t' || cs[start] == '\n' || cs[start] == '\r')
        invariant
            start <= cs@.len(),
            cs@ == s@,
            trimmed_start(s@) == trimmed_start(s@.skip(start as int)),
        decreases cs@.len() - start,
    {
        assert(s@.skip(start as int).drop_first() =~= s@.skip(start + 1));
        start = start + 1;
    }
    let rest = substring(s, start, cs.len() - start);
    assert(rest@ =~= s@.skip(start as int));
    trim_end_text(rest.as_str())
}

/// The name that a macro name match `m` stands for: the match without the
/// white space around it.
pub open spec fn macro_key(m: Seq<char>) -> Seq<char> {
    trimmed_end(trimmed_start(m))
}

/// The number of white space characters at the start of `s`.
fn leading_space(s: &str) -> (res: usize)
    ensures
        res == s@.len() - trimmed_start(s@).len(),
{
    let cs = chars_of(s);
    let mut start: usize = 0;
    assert(s@.skip(0) =~= s@);
    while start < cs.len() && (cs[start] == ' ' || cs[start] == '\t' || cs[start] == '\n' || cs[start] == '\r')
        invariant
            start <= cs@.len(),
            cs@ == s@,
            trimmed_start(s@) == trimmed_start(s@.skip(start as int)),
        decreases cs@.len() - start,
    {
        assert(s@.skip(start as int).drop_first() =~= s@.skip(start + 1));
        start = start + 1;
    }
    start
}

/// Whether the macro `name` is defined.
fn is_defined(state: &PreprocessorState, name: &str) -> (res: bool)
    ensures
        res == (state.defined.value_of(name@) matches Some(Some(_))),
{
    match state.defined.get(name) {
        Some(Some(_)) => true,
        _ => false,
    }
}

/// The cursor of the scan: the text left, the number of characters read,
/// and the current line.
struct Cursor<'a> {
    rest: &'a str,
    pos: usize,
    line: usize,
}

impl<'a> Cursor<'a> {
    /// Whether the cursor stands at `pos` of `file`, with the line within
    /// what was read.
    spec fn at(&self, file: Seq<char>) -> bool {
        &&& self.pos <= file.len()
        &&& self.rest@ == file.skip(self.pos as int)
        &&& self.line <= self.pos + 1
        &&& file.len() < usize::MAX
    }

    /// Reads `n` characters, of which `lines` are line breaks.
    fn advance(&mut self, n: usize, lines: usize, Ghost(file): Ghost<Seq<char>>)
        requires
            old(self).at(file),
            n <= old(self).rest@.len(),
            lines <= n,
        ensures
            final(self).at(file),
            final(self).pos == old(self).pos + n,
            final(self).line == old(self).line + lines,
    {
        self.rest = skip_chars(self.rest, n);
        self.pos = self.pos + n;
        self.line = self.line + lines;
        assert(self.rest@ =~= file.skip(self.pos as int));
    }
}

/// The number of line breaks among the first `n` characters of `s`.
fn lines_in(s: &str, n: usize) -> (res: usize)
    requires
        n <= s@.len(),
    ensures
        res == count_char(s@.take(n as int), '\n'),
        res <= n,
{
    let piece = substring(s, 0, n);
    let cs = chars_of(piece.as_str());
    count_occurrences(&cs, '\n')
}

/// The place `FILENAME Line LINE` of a message.
pub open spec fn located(filename: Seq<char>, line: usize) -> Seq<char> {
    filename + " Line "@ + radix_text(line as nat, 10)
}

/// Whether `res` is the failure `FILENAME Line LINE: WHAT`.
pub open spec fn fails_with<T>(res: Result<T, PreprocessError>, filename: Seq<char>, line: usize, what: Seq<char>) -> bool {
    res matches Err(PreprocessError::Failed(m)) && m@ == located(filename, line) + ": "@ + what
}

/// Whether the messages `after` are `before` with `message` added when
/// `add`, and `before` otherwise.
pub open spec fn told(before: Seq<String>, after: Seq<String>, add: bool, message: Seq<char>) -> bool {
    if add {
        after.len() == before.len() + 1 && after.drop_last() == before && after.last()@ == message
    } else {
        after == before
    }
}

/// Whether the macro `name` has a definition in `defined`.
pub open spec fn macro_defined(defined: Seq<(String, Option<String>)>, name: Seq<char>) -> bool {
    lookup(defined, name) matches Some(Some(_))
}

/// Whether the macro table `after` is `before` with the macro `name` given
/// the definition `value` (`None`: none).
pub open spec fn defines(
    before: Seq<(String, Option<String>)>,
    after: Seq<(String, Option<String>)>,
    name: Seq<char>,
    value: Option<Seq<char>>,
) -> bool {
    &&& after.len() == before.len() + 1
    &&& after.drop_last() == before
    &&& after.last().0@ == name
    &&& match value {
        Some(v) => after.last().1 matches Some(x) && x@ == v,
        None => after.last().1 is None,
    }
}

/// A change to the namespaces that a file has open.
pub enum NamespaceChange {
    Keep,
    Open(String),
    Close,
}

/// What a directive does to the scan of a file.
pub struct DirectiveStep {
    /// The number of characters read, from the `#`.
    pub read: usize,
    /// The number of line breaks passed.
    pub lines: usize,
    /// What is written to the output.
    pub output: String,
    /// A namespace opened or closed.
    pub namespace: NamespaceChange,
    /// A branch to skip next (see `skip_branch`): `Some(stop_at_else)`.
    pub skip: Option<bool>,
}

/// Whether `st` reads `read` characters, passes `lines` line breaks, writes
/// `output` and neither changes the namespaces nor skips.
pub open spec fn plain_directive(st: DirectiveStep, read: int, lines: int, output: Seq<char>) -> bool {
    st.read == read && st.lines == lines && st.output@ == output && st.namespace is Keep && st.skip is None
}

/// The text of `t` that the span `g` covers; empty where there is no span.
pub open spec fn group_text(t: Seq<char>, g: Option<(usize, usize)>) -> Seq<char> {
    match g {
        Some((a, b)) => t.subrange(a as int, b as int),
        None => Seq::empty(),
    }
}

/// What the directive `d` (other than `#include`) does, at line `line` of
/// `filename`, where its name takes `dir_end` characters and `after` is the
/// text that follows it: `s0` is the state before it, `s1` the state after
/// it and `res` its step or its failure. `name_end` is where the match of
/// the macro name pattern at the start of `after` ends, `text_end` where the
/// first match of the replacement pattern in `after` ends, `rest_end` where
/// it ends in what follows the name, and `value` the span of its group 1
/// there (the text of a macro); `open_namespaces` is the number of
/// namespaces that `#namespace` opened and that are still open. A
/// `#define`, `#undef` or `#namespace` warns in the messages about a name
/// already (or not yet) defined, and `#print` prints there.
pub open spec fn directive_effect(
    d: Seq<char>,
    dir_end: usize,
    after: Seq<char>,
    name_end: Option<usize>,
    text_end: Option<usize>,
    rest_end: Option<usize>,
    value: Option<(usize, usize)>,
    filename: Seq<char>,
    line: usize,
    open_namespaces: usize,
    s0: PreprocessorState,
    s1: PreprocessorState,
    res: Result<DirectiveStep, PreprocessError>,
) -> bool {
    &&& (d == "define"@ ==> match name_end {
        None => fails_with(res, filename, line, "Invalid #define identifier"@) && s1 == s0,
        Some(n) => {
            let id = macro_key(after.take(n as int));
            &&& told(
                s0.messages@,
                s1.messages@,
                macro_defined(s0.defined.entries@, id),
                located(filename, line) + " Warning: #define identifier '"@ + id + "' is already defined"@,
            )
            &&& match rest_end {
                None => fails_with(res, filename, line, "Invalid #define replacement"@) && s1.defined
                    == s0.defined,
                Some(r) => res matches Ok(st) && plain_directive(st, dir_end + n + r, 1, "\n"@) && defines(
                    s0.defined.entries@,
                    s1.defined.entries@,
                    id,
                    Some(group_text(after.skip(n as int), value)),
                ),
            }
        },
    })
    &&& (d == "undef"@ ==> match name_end {
        None => fails_with(res, filename, line, "Invalid #undef identifier"@) && s1 == s0,
        Some(n) => {
            let id = macro_key(after.take(n as int));
            &&& told(
                s0.messages@,
                s1.messages@,
                !macro_defined(s0.defined.entries@, id),
                located(filename, line) + " Warning: #undef identifier '"@ + id + "' is not defined"@,
            )
            &&& res matches Ok(st) && plain_directive(st, dir_end + n, 1, "\n"@)
            &&& defines(s0.defined.entries@, s1.defined.entries@, id, None)
        },
    })
    &&& (d == "ifdef"@ || d == "ifndef"@ ==> s1 == s0 && match name_end {
        None => fails_with(
            res,
            filename,
            line,
            if d == "ifdef"@ {
                "Invalid #ifdef identifier"@
            } else {
                "Invalid #ifndef identifier"@
            },
        ),
        Some(n) => res matches Ok(st) && st.read == dir_end + n && st.lines == 0 && st.output@.len() == 0
            && st.namespace is Keep && st.skip == if macro_defined(
            s0.defined.entries@,
            macro_key(after.take(n as int)),
        ) != (d == "ifdef"@) {
            Some(true)
        } else {
            None
        },
    })
    &&& (d == "else"@ ==> s1 == s0 && (res matches Ok(st) && st.read == 0 && st.lines == 0
        && st.output@.len() == 0 && st.namespace is Keep && st.skip == Some(false)))
    &&& (d == "endif"@ ==> s1 == s0 && (res matches Ok(st) && plain_directive(
        st,
        dir_end as int,
        0,
        Seq::empty(),
    )))
    &&& (d == "error"@ ==> s1 == s0 && match text_end {
        None => fails_with(res, filename, line, "Invalid #error message"@),
        Some(m) => fails_with(res, filename, line, trimmed_end(after.take(m as int))),
    })
    &&& (d == "print"@ ==> s1.defined == s0.defined && match text_end {
        None => fails_with(res, filename, line, "Invalid #print message"@) && s1.messages
            == s0.messages,
        Some(m) => {
            &&& told(
                s0.messages@,
                s1.messages@,
                true,
                located(filename, line) + ": "@ + trimmed_end(after.take(m as int)),
            )
            &&& res matches Ok(st) && plain_directive(
                st,
                dir_end + m,
                count_char(after.take(m as int), '\n') as int,
                Seq::empty(),
            )
        },
    })
    &&& (d == "namespace"@ ==> s1.defined == s0.defined && match name_end {
        None => fails_with(res, filename, line, "Invalid #namespace identifier"@) && s1.messages
            == s0.messages,
        Some(n) => {
            let ns = after.take(n as int);
            &&& told(
                s0.messages@,
                s1.messages@,
                macro_defined(s0.defined.entries@, macro_key(ns)),
                located(filename, line) + " Warning: #namespace identifier '"@ + ns + "' is already defined"@,
            )
            &&& res matches Ok(st) && st.read == dir_end + n && st.lines == 0 && st.output@ == "namespace "@ + ns
                + ";\n"@ && st.skip is None && (st.namespace matches NamespaceChange::Open(x) && x@ == trimmed_end(
                trimmed_start(ns),
            ))
        },
    })
    &&& (d == "spacename"@ ==> s1 == s0 && if open_namespaces == 0 {
        fails_with(res, filename, line, "#spacename directive without matching #namespace"@)
    } else {
        res matches Ok(st) && st.read == dir_end && st.lines == 0 && st.output@ == "spacename;\n"@
            && st.namespace is Close && st.skip is None
    })
    &&& (!(d == "define"@ || d == "undef"@ || d == "ifdef"@ || d == "ifndef"@ || d == "else"@ || d == "endif"@
        || d == "error"@ || d == "print"@ || d == "namespace"@ || d == "spacename"@) ==> s1 == s0
        && fails_with(res, filename, line, "Invalid preprocessor directive"@))
}

/// Carries out the directive `d` (other than `#include`) on `state`: see
/// `directive_effect`.
pub fn directive_step(
    d: &str,
    dir_end: usize,
    after: &str,
    name_end: Option<usize>,
    text_end: Option<usize>,
    rest_end: Option<usize>,
    value: Option<(usize, usize)>,
    filename: &str,
    line: usize,
    open_namespaces: usize,
    state: &mut PreprocessorState,
) -> (res: Result<DirectiveStep, PreprocessError>)
    requires
        d@ != "include"@,
        0 < dir_end,
        dir_end + after@.len() < usize::MAX,
        name_end matches Some(n) ==> 0 < n <= after@.len(),
        text_end matches Some(e) ==> e <= after@.len(),
        rest_end matches Some(e) ==> (name_end matches Some(n) && e <= after@.len() - n),
        value matches Some((a, b)) ==> (name_end matches Some(n) && a <= b <= after@.len() - n),
    ensures
        final(state).included_files == old(state).included_files,
        res matches Ok(st) ==> st.lines <= st.read <= dir_end + after@.len(),
        res matches Err(e) ==> e is Failed,
        directive_effect(
            d@,
            dir_end,
            after@,
            name_end,
            text_end,
            rest_end,
            value,
            filename@,
            line,
            open_namespaces,
            *old(state),
            *final(state),
            res,
        ),
{
    proof {
        reveal_strlit("define");
        reveal_strlit("undef");
        reveal_strlit("ifdef");
        reveal_strlit("ifndef");
        reveal_strlit("else");
        reveal_strlit("endif");
        reveal_strlit("error");
        reveal_strlit("print");
        reveal_strlit("namespace");
        reveal_strlit("spacename");
        assert("define"@.len() == 6 && "define"@[0] == 'd' && "define"@[1] == 'e');
        assert("undef"@.len() == 5 && "undef"@[0] == 'u' && "undef"@[1] == 'n');
        assert("ifdef"@.len() == 5 && "ifdef"@[0] == 'i' && "ifdef"@[1] == 'f');
        assert("ifndef"@.len() == 6 && "ifndef"@[0] == 'i' && "ifndef"@[1] == 'f');
        assert("else"@.len() == 4 && "else"@[0] == 'e' && "else"@[1] == 'l');
        assert("endif"@.len() == 5 && "endif"@[0] == 'e' && "endif"@[1] == 'n');
        assert("error"@.len() == 5 && "error"@[0] == 'e' && "error"@[1] == 'r');
        assert("print"@.len() == 5 && "print"@[0] == 'p' && "print"@[1] == 'r');
        assert("namespace"@.len() == 9 && "namespace"@[0] == 'n' && "namespace"@[1] == 'a');
        assert("spacename"@.len() == 9 && "spacename"@[0] == 's' && "spacename"@[1] == 'p');
    }
    if same_text(d, "define") {
        let n = match name_end {
            Some(n) => n,
            None => return Err(failure(filename, line, "Invalid #define identifier")),
        };
        let identifier = trim_text(substring(after, 0, n).as_str());
        if is_defined(state, identifier.as_str()) {
            let m = where_text(filename, line);
            let m = concat(m.as_str(), " Warning: #define identifier '");
            let m = concat(m.as_str(), identifier.as_str());
            state.messages.push(concat(m.as_str(), "' is already defined"));
            assert(state.messages@.drop_last() =~= old(state).messages@);
        }
        let r = match rest_end {
            Some(r) => r,
            None => return Err(failure(filename, line, "Invalid #define replacement")),
        };
        let replacement = match value {
            Some((a, b)) => {
                let t = substring(after, n + a, b - a);
                assert(t@ =~= after@.skip(n as int).subrange(a as int, b as int));
                t
            },
            None => String::new(),
        };
        assert(replacement@ =~= group_text(after@.skip(n as int), value));
        state.defined.insert(identifier, Some(replacement));
        assert(state.defined.entries@.drop_last() =~= old(state).defined.entries@);
        Ok(DirectiveStep {
            read: dir_end + n + r,
            lines: 1,
            output: String::from_str("\n"),
            namespace: NamespaceChange::Keep,
            skip: None,
        })
    } else if same_text(d, "undef") {
        let n = match name_end {
            Some(n) => n,
            None => return Err(failure(filename, line, "Invalid #undef identifier")),
        };
        let identifier = trim_text(substring(after, 0, n).as_str());
        if !is_defined(state, identifier.as_str()) {
            let m = where_text(filename, line);
            let m = concat(m.as_str(), " Warning: #undef identifier '");
            let m = concat(m.as_str(), identifier.as_str());
            state.messages.push(concat(m.as_str(), "' is not defined"));
            assert(state.messages@.drop_last() =~= old(state).messages@);
        }
        state.defined.insert(identifier, None);
        assert(state.defined.entries@.drop_last() =~= old(state).defined.entries@);
        Ok(DirectiveStep {
            read: dir_end + n,
            lines: 1,
            output: String::from_str("\n"),
            namespace: NamespaceChange::Keep,
            skip: None,
        })
    } else if same_text(d, "ifdef") || same_text(d, "ifndef") {
        let keep_if_defined = same_text(d, "ifdef");
        let n = match name_end {
            Some(n) => n,
            None => {
                let what = if keep_if_defined {
                    "Invalid #ifdef identifier"
                } else {
                    "Invalid #ifndef identifier"
                };
                return Err(failure(filename, line, what));
            },
        };
        let identifier = trim_text(substring(after, 0, n).as_str());
        let skip = if is_defined(state, identifier.as_str()) != keep_if_defined {
            Some(true)
        } else {
            None
        };
        Ok(DirectiveStep {
            read: dir_end + n,
            lines: 0,
            output: String::new(),
            namespace: NamespaceChange::Keep,
            skip,
        })
    } else if same_text(d, "else") {
        // Reached at the end of a kept branch: the other one is skipped.
        Ok(DirectiveStep { read: 0, lines: 0, output: String::new(), namespace: NamespaceChange::Keep, skip: Some(false) })
    } else if same_text(d, "endif") {
        Ok(DirectiveStep {
            read: dir_end,
            lines: 0,
            output: String::new(),
            namespace: NamespaceChange::Keep,
            skip: None,
        })
    } else if same_text(d, "error") {
        let m = match text_end {
            Some(m) => m,
            None => return Err(failure(filename, line, "Invalid #error message")),
        };
        let message = substring(after, 0, m);
        let message = trim_end_text(message.as_str());
        Err(failure(filename, line, message.as_str()))
    } else if same_text(d, "print") {
        let m = match text_end {
            Some(m) => m,
            None => return Err(failure(filename, line, "Invalid #print message")),
        };
        let message = substring(after, 0, m);
        let lines = lines_in(after, m);
        let shown = trim_end_text(message.as_str());
        let w = where_text(filename, line);
        let w = concat(w.as_str(), ": ");
        state.messages.push(concat(w.as_str(), shown.as_str()));
        assert(state.messages@.drop_last() =~= old(state).messages@);
        Ok(DirectiveStep {
            read: dir_end + m,
            lines,
            output: String::new(),
            namespace: NamespaceChange::Keep,
            skip: None,
        })
    } else if same_text(d, "namespace") {
        let n = match name_end {
            Some(n) => n,
            None => return Err(failure(filename, line, "Invalid #namespace identifier")),
        };
        let namespace = substring(after, 0, n);
        if is_defined(state, trim_text(namespace.as_str()).as_str()) {
            let m = where_text(filename, line);
            let m = concat(m.as_str(), " Warning: #namespace identifier '");
            let m = concat(m.as_str(), namespace.as_str());
            state.messages.push(concat(m.as_str(), "' is already defined"));
            assert(state.messages@.drop_last() =~= old(state).messages@);
        }
        let opening = concat("namespace ", namespace.as_str());
        let opening = concat(opening.as_str(), ";\n");
        Ok(DirectiveStep {
            read: dir_end + n,
            lines: 0,
            output: opening,
            namespace: NamespaceChange::Open(trim_text(namespace.as_str())),
            skip: None,
        })
    } else if same_text(d, "spacename") {
        if open_namespaces == 0 {
            return Err(failure(filename, line, "#spacename directive without matching #namespace"));
        }
        Ok(DirectiveStep {
            read: dir_end,
            lines: 0,
            output: String::from_str("spacename;\n"),
            namespace: NamespaceChange::Close,
            skip: None,
        })
    } else {
        Err(failure(filename, line, "Invalid preprocessor directive"))
    }
}

/// `n` line breaks.
pub open spec fn line_breaks(n: nat) -> Seq<char> {
    Seq::new(n, |i: int| '\n')
}

/// What the scan writes for the text at the start of `rest`, where no
/// directive begins, with the ends of the matches of the line comment, block
/// comment and macro name patterns there (`None` for no match), and the
/// macros `defined`: the text written, the number of characters read and
/// the number of lines passed. A line break is kept; a comment becomes the
/// line breaks it holds (one for a line comment); a name is replaced by what
/// it is defined as, if anything; an ASCII character is copied. `None` for a
/// character outside ASCII.
pub open spec fn plain_piece(
    rest: Seq<char>,
    line_comment: Option<usize>,
    block_comment: Option<usize>,
    name: Option<usize>,
    defined: Seq<(String, Option<String>)>,
) -> Option<(Seq<char>, int, int)> {
    if rest[0] == '\n' {
        Some((seq!['\n'], 1, 1))
    } else if line_comment is Some {
        Some((seq!['\n'], line_comment->0 as int, 1))
    } else if block_comment is Some {
        let n = count_char(rest.take(block_comment->0 as int), '\n');
        Some((line_breaks(n), block_comment->0 as int, n as int))
    } else if name is Some {
        let id = rest.take(name->0 as int);
        Some(
            (
                match lookup(defined, macro_key(id)) {
                    Some(Some(r)) => id.take(id.len() - trimmed_start(id).len()) + r@,
                    _ => id,
                },
                name->0 as int,
                0,
            ),
        )
    } else if (rest[0] as u32) < 128 {
        Some((seq![rest[0]], 1, 0))
    } else {
        None
    }
}

/// The step of the scan at `rest`, where no directive begins, given the
/// ends of the matches of the comment and name patterns there: see
/// `plain_piece`.
pub fn plain_step(
    rest: &str,
    line_comment: Option<usize>,
    block_comment: Option<usize>,
    name: Option<usize>,
    defined: &Names<Option<String>>,
) -> (res: Option<(String, usize, usize)>)
    requires
        rest@.len() > 0,
        line_comment matches Some(e) ==> 0 < e <= rest@.len(),
        block_comment matches Some(e) ==> 0 < e <= rest@.len(),
        name matches Some(e) ==> 0 < e <= rest@.len(),
    ensures
        match plain_piece(rest@, line_comment, block_comment, name, defined.entries@) {
            Some((written, read, lines)) => res matches Some((out, r, l)) && out@ == written && r == read && l
                == lines,
            None => res is None,
        },
        res matches Some((_, r, l)) ==> 0 < r <= rest@.len() && l <= r,
{
    if starts_with_text(rest, "\n") {
        proof {
            reveal_strlit("\n");
            assert(rest@.subrange(0, 1)[0] == rest@[0]);
        }
        let mut out = String::new();
        crate::text::push_char(&mut out, '\n');
        assert(out@ =~= seq!['\n']);
        return Some((out, 1, 1));
    }
    proof {
        reveal_strlit("\n");
        if rest@[0] == '\n' {
            assert(rest@.subrange(0, 1) =~= "\n"@);
        }
    }
    if let Some(end) = line_comment {
        let mut out = String::new();
        crate::text::push_char(&mut out, '\n');
        assert(out@ =~= seq!['\n']);
        return Some((out, end, 1));
    }
    if let Some(end) = block_comment {
        let lines = lines_in(rest, end);
        let mut out = String::new();
        let mut k: usize = 0;
        while k < lines
            invariant
                k <= lines,
                out@ == line_breaks(k as nat),
            decreases lines - k,
        {
            crate::text::push_char(&mut out, '\n');
            assert(out@ =~= line_breaks((k + 1) as nat));
            k = k + 1;
        }
        return Some((out, end, lines));
    }
    if let Some(end) = name {
        let identifier = substring(rest, 0, end);
        assert(identifier@ =~= rest@.take(end as int));
        let key = trim_text(identifier.as_str());
        let out = match defined.get(key.as_str()) {
            Some(Some(replacement)) => {
                let lead = substring(identifier.as_str(), 0, leading_space(identifier.as_str()));
                concat(lead.as_str(), replacement.as_str())
            },
            _ => identifier,
        };
        return Some((out, end, 0));
    }
    let c = match crate::text::peek_char(rest, 0) {
        Some(c) => c,
        None => return None,
    };
    if (c as u32) >= 128 {
        return None;
    }
    let mut out = String::new();
    crate::text::push_char(&mut out, c);
    assert(out@ =~= seq![c]);
    Some((out, 1, 0))
}

/// Whether `r` begins with `p`.
pub open spec fn begins_with(r: Seq<char>, p: Seq<char>) -> bool {
    p.len() <= r.len() && r.subrange(0, p.len() as int) == p
}

/// How many characters of `r` a branch that is not kept takes: those up to
/// the first `#endif` (or the end of the text), or, when `stop_at_else`, up
/// to and with the first `#else` if that comes first.
pub open spec fn skipped_len(r: Seq<char>, stop_at_else: bool) -> nat
    decreases r.len(),
{
    if r.len() == 0 || begins_with(r, "#endif"@) {
        0
    } else if stop_at_else && begins_with(r, "#else"@) {
        5
    } else {
        1 + skipped_len(r.drop_first(), stop_at_else)
    }
}

proof fn lemma_count_char_append(a: Seq<char>, b: Seq<char>, c: char)
    ensures
        count_char(a + b, c) == count_char(a, c) + count_char(b, c),
    decreases b.len(),
{
    if b.len() == 0 {
        assert(a + b =~= a);
    } else {
        lemma_count_char_append(a, b.drop_last(), c);
        assert((a + b).drop_last() =~= a + b.drop_last());
    }
}

/// Skips the code of a branch that is not kept: up to `#endif`, or also up
/// to `#else` when `stop_at_else`; an `#else` it stops at is read too, so that
/// its branch is kept. The lines it passes are counted.
fn skip_branch(cur: &mut Cursor, stop_at_else: bool, Ghost(file): Ghost<Seq<char>>)
    requires
        old(cur).at(file),
    ensures
        final(cur).at(file),
        final(cur).pos == old(cur).pos + skipped_len(old(cur).rest@, stop_at_else),
        final(cur).line == old(cur).line + count_char(
            old(cur).rest@.take(skipped_len(old(cur).rest@, stop_at_else) as int),
            '\n',
        ),
{
    let ghost start = *cur;
    assert(start.rest@.take(0) =~= Seq::<char>::empty());
    loop
        invariant
            cur.at(file),
            start.at(file),
            start == *old(cur),
            start.pos <= cur.pos,
            cur.rest@ == start.rest@.skip(cur.pos - start.pos),
            skipped_len(start.rest@, stop_at_else) == (cur.pos - start.pos) + skipped_len(cur.rest@, stop_at_else),
            cur.line == start.line + count_char(start.rest@.take(cur.pos - start.pos), '\n'),
        decreases cur.rest@.len(),
    {
        if starts_with_text(cur.rest, "#endif") || cur.rest.is_empty() {
            return;
        }
        if stop_at_else && starts_with_text(cur.rest, "#else") {
            // The `#else` itself is read, and its branch kept.
            proof {
                reveal_strlit("#else");
                assert(start.rest@.take(cur.pos - start.pos + 5) == start.rest@.take(cur.pos - start.pos) + cur.rest@.take(5));
                assert(cur.rest@.take(5) =~= "#else"@);
                reveal_with_fuel(count_char, 6);
                assert(count_char("#else"@, '\n') == 0);
                lemma_count_char_append(start.rest@.take(cur.pos - start.pos), cur.rest@.take(5), '\n');
            }
            cur.advance(5, 0, Ghost(file));
            return;
        }
        let newline = starts_with_text(cur.rest, "\n");
        let ghost r0 = cur.rest@;
        assert(skipped_len(r0, stop_at_else) == 1 + skipped_len(r0.drop_first(), stop_at_else));
        proof {
            reveal_strlit("\n");
            let k = cur.pos - start.pos;
            assert(start.rest@.take(k + 1) =~= start.rest@.take(k).push(cur.rest@[0]));
            assert(start.rest@.take(k + 1).drop_last() =~= start.rest@.take(k));
            if newline {
                assert(cur.rest@.subrange(0, 1)[0] == cur.rest@[0]);
            } else if cur.rest@[0] == '\n' {
                assert(cur.rest@.subrange(0, 1) =~= "\n"@);
            }
            assert(cur.rest@.drop_first() =~= cur.rest@.skip(1));
        }
        cur.advance(1, if newline { 1 } else { 0 }, Ghost(file));
        proof {
            assert(cur.rest@ =~= start.rest@.skip(cur.pos - start.pos));
            assert(cur.rest@ =~= r0.drop_first());
        }
    }
}

/// The span of the whole match of `p` at the start of `text`, if it reads
/// at least one character.
fn match_len(p: &Pattern, text: &str) -> (res: Option<usize>)
    ensures
        res == match regex_find(p.source(), text@) {
            Some((_, e)) => if e > 0 { Some(e) } else { None },
            None => None,
        },
        res matches Some(e) ==> 0 < e <= text@.len(),
{
    match p.find(text) {
        Some((_, e)) => if e > 0 {
            Some(e)
        } else {
            None
        },
        None => None,
    }
}

/// The end of the match of the pattern `source` at the start of `text`, if
/// it reads at least one character (see `match_len`).
pub open spec fn match_end(source: Seq<char>, text: Seq<char>) -> Option<usize> {
    match regex_find(source, text) {
        Some((_, e)) => if e > 0 {
            Some(e)
        } else {
            None
        },
        None => None,
    }
}

/// `a` before the text `o`, if there is one.
pub open spec fn then_text(a: Seq<char>, o: Option<Seq<char>>) -> Option<Seq<char>> {
    match o {
        Some(t) => Some(a + t),
        None => None,
    }
}

/// What the scan writes of `rest`, a text with no directive, with the
/// macros `defined`: the pieces that `plain_piece` gives, one after the
/// other, with the comment and name patterns matched at each; `None` where
/// a piece cannot be read.
pub open spec fn plain_output(rest: Seq<char>, defined: Seq<(String, Option<String>)>) -> Option<Seq<char>>
    decreases rest.len(),
{
    if rest.len() == 0 {
        Some(Seq::empty())
    } else {
        match plain_piece(
            rest,
            match_end(LINE_COMMENT_RE@, rest),
            match_end(BLOCK_COMMENT_RE@, rest),
            match_end(MACRO_NAME_RE@, rest),
            defined,
        ) {
            Some((written, read, _)) => if 0 < read <= rest.len() {
                then_text(written, plain_output(rest.skip(read), defined))
            } else {
                None
            },
            None => None,
        }
    }
}

/// `n` times `spacename;\n`: what closes the namespaces left open.
pub open spec fn closings(n: nat) -> Seq<char>
    decreases n,
{
    if n == 0 {
        Seq::empty()
    } else {
        closings((n - 1) as nat) + "spacename;\n"@
    }
}

/// The texts of a list of strings.
pub open spec fn texts(v: Seq<String>) -> Seq<Seq<char>> {
    v.map_values(|s: String| s@)
}

/// The line that tells the lexer that the code of `path` follows.
pub open spec fn marker(path: Seq<char>) -> Seq<char> {
    "// <"@ + path + ">\n"@
}

/// The directory of the file `path`: its parent, or `.` where it has none.
pub open spec fn directory_name(path: Seq<char>) -> Seq<char> {
    match path_parent(path) {
        Some(d) => d,
        None => "."@,
    }
}

/// Where a directive begins at the start of `rest`: the end of the match of
/// the directive pattern, at a `#`.
pub open spec fn directive_at(rest: Seq<char>) -> Option<usize> {
    if rest.len() > 0 && rest[0] == '#' {
        match_end(DIRECTIVE_RE@, rest)
    } else {
        None
    }
}

/// The end of the first match of `source` in `text`.
pub open spec fn find_end(source: Seq<char>, text: Seq<char>) -> Option<usize> {
    match regex_find(source, text) {
        Some((_, e)) => Some(e),
        None => None,
    }
}

/// Where the replacement pattern's match ends in what follows the macro
/// name at the start of `after`.
pub open spec fn replacement_end(after: Seq<char>) -> Option<usize> {
    match match_end(MACRO_NAME_RE@, after) {
        Some(n) => find_end(REPLACEMENT_RE@, after.skip(n as int)),
        None => None,
    }
}

/// The span of the text of a macro in what follows the macro name at the
/// start of `after`: group 1 of the replacement pattern.
pub open spec fn replacement_span(after: Seq<char>) -> Option<(usize, usize)> {
    match match_end(MACRO_NAME_RE@, after) {
        Some(n) => regex_group(REPLACEMENT_RE@, after.skip(n as int), 1),
        None => None,
    }
}

/// The file that an `#include` of the path `full` reads, and whether `full`
/// is a directory, whose `include.dpl` is read.
pub open spec fn include_target(full: Seq<char>, sources: Sources) -> Option<(Seq<char>, bool)> {
    match sources.paths.value_of(full) {
        None => None,
        Some(PathKind::Directory) => {
            let inc = path_join(full, "include.dpl"@);
            match sources.paths.value_of(inc) {
                Some(PathKind::Directory) => Some((inc, true)),
                Some(PathKind::File(_)) => Some((inc, true)),
                _ => None,
            }
        },
        Some(_) => Some((full, false)),
    }
}

/// The contents of the file `path`, as `sources` describes it.
pub open spec fn source_text(sources: Sources, path: Seq<char>) -> Option<Seq<char>> {
    match sources.paths.value_of(path) {
        Some(PathKind::File(c)) => Some(c@),
        _ => None,
    }
}

/// Whether the file `path` was already included in the namespace `ns`.
pub open spec fn included_in(st: PreprocessorState, ns: Seq<String>, path: Seq<char>) -> bool {
    match lookup(st.included_files.entries@, joined(ns)) {
        Some(files) => texts(files@).contains(path),
        None => false,
    }
}

/// Whether `s1` is `s0` with the file `filename` recorded as included in
/// the namespace named `key`.
pub open spec fn entered(s0: PreprocessorState, s1: PreprocessorState, key: Seq<char>, filename: Seq<char>) -> bool {
    let before = match lookup(s0.included_files.entries@, key) {
        Some(v) => texts(v@),
        None => Seq::empty(),
    };
    &&& s1.defined == s0.defined
    &&& s1.messages == s0.messages
    &&& s1.included_files.entries@.len() == s0.included_files.entries@.len() + 1
    &&& s1.included_files.entries@.drop_last() == s0.included_files.entries@
    &&& s1.included_files.entries@.last().0@ == key
    &&& texts(s1.included_files.entries@.last().1@) == if before.contains(filename) {
        before
    } else {
        before.push(filename)
    }
}

/// Where the scan stands after the directive step `ds` taken at `pos` and
/// `line` of `text`: past what it read and the branch it skips, if any.
pub open spec fn after_directive(text: Seq<char>, pos: int, line: int, ds: DirectiveStep) -> (int, int) {
    let p1 = pos + ds.read;
    let l1 = line + ds.lines;
    match ds.skip {
        Some(stop) => {
            let k = skipped_len(text.skip(p1), stop);
            (p1 + k, l1 + count_char(text.skip(p1).take(k as int), '\n'))
        },
        None => (p1, l1),
    }
}

/// The number of namespaces open after the directive step `ds`.
pub open spec fn count_after(nsc: int, ds: DirectiveStep) -> int {
    match ds.namespace {
        NamespaceChange::Open(_) => nsc + 1,
        NamespaceChange::Close => nsc - 1,
        NamespaceChange::Keep => nsc,
    }
}

/// The namespace path after the directive step `ds`.
pub open spec fn path_after(ns: Seq<String>, ds: DirectiveStep) -> Seq<String> {
    match ds.namespace {
        NamespaceChange::Open(n) => ns.push(n),
        NamespaceChange::Close => ns.drop_last(),
        NamespaceChange::Keep => ns,
    }
}

/// The state and the output that preprocessing an included file leaves.
pub open spec fn outcome(st: PreprocessorState, out: Seq<char>) -> (PreprocessorState, Seq<char>) {
    (st, out)
}

/// Whether the scan of `text` (the file `filename`, included through the
/// files `ip`, with the paths that `sources` describes and `depth` levels of
/// includes left), from `pos` at line `line` with the state `st`, `nsc`
/// namespaces opened and the namespace path `ns`, writes `out` up to the end
/// of the file, namespaces closed, and leaves the state `st_end`. Each step
/// reads at least one character: a directive (an `#include` is replaced by
/// the preprocessed file, unless it was included in this namespace already;
/// the others do what `directive_effect` says, and may skip a branch), or
/// else a piece of plain text (see `plain_piece`).
pub open spec fn scan(
    text: Seq<char>,
    filename: Seq<char>,
    ip: Seq<Seq<char>>,
    sources: Sources,
    depth: nat,
    pos: int,
    line: int,
    st: PreprocessorState,
    nsc: int,
    ns: Seq<String>,
    out: Seq<char>,
    st_end: PreprocessorState,
) -> bool
    decreases depth, text.len() - pos,
{
    if pos < 0 || pos > text.len() || nsc < 0 {
        false
    } else if pos == text.len() {
        out == closings(nsc as nat) && st_end == st
    } else {
        let rest = text.skip(pos);
        match directive_at(rest) {
            None => match plain_piece(
                rest,
                match_end(LINE_COMMENT_RE@, rest),
                match_end(BLOCK_COMMENT_RE@, rest),
                match_end(MACRO_NAME_RE@, rest),
                st.defined.entries@,
            ) {
                Some((piece, read, lines)) => 0 < read <= rest.len() && piece.len() <= out.len() && out.take(
                    piece.len() as int,
                ) == piece && scan(
                    text,
                    filename,
                    ip,
                    sources,
                    depth,
                    pos + read,
                    line + lines,
                    st,
                    nsc,
                    ns,
                    out.skip(piece.len() as int),
                    st_end,
                ),
                None => false,
            },
            Some(end) => end <= rest.len() && match regex_group(DIRECTIVE_RE@, rest, 1) {
                Some((s, e)) => s <= e <= rest.len() && if rest.subrange(s as int, e as int) == "include"@ {
                    let rest1 = rest.skip(end as int);
                    match (regex_group(INCLUDE_FILE_RE@, rest1, 1), find_end(INCLUDE_FILE_RE@, rest1)) {
                        (Some((a, b)), Some(e2)) => a <= b <= rest1.len() && e2 <= rest1.len() && {
                            let full = path_join(directory_name(filename), rest1.subrange(a as int, b as int));
                            let next = pos + end + e2;
                            match include_target(full, sources) {
                                Some((actual, is_dir)) => !ip.contains(actual) && if included_in(st, ns, actual) {
                                    scan(text, filename, ip, sources, depth, next, line, st, nsc, ns, out, st_end)
                                } else {
                                    match source_text(sources, actual) {
                                        Some(contents) => depth > 0 && contents.len() < usize::MAX && exists|
                                            st2: PreprocessorState,
                                            inner: Seq<char>,
                                        |
                                            #[trigger] outcome(st2, inner) == (st2, inner) && preprocessed(
                                                contents,
                                                actual,
                                                ip,
                                                ns,
                                                sources,
                                                (depth - 1) as nat,
                                                st,
                                                st2,
                                                inner,
                                            ) && {
                                                let piece = marker(
                                                    if is_dir {
                                                        full + "/include.dpl"@
                                                    } else {
                                                        actual
                                                    },
                                                ) + inner + marker(filename);
                                                &&& piece.len() <= out.len()
                                                &&& out.take(piece.len() as int) == piece
                                                &&& scan(
                                                    text,
                                                    filename,
                                                    ip,
                                                    sources,
                                                    depth,
                                                    next,
                                                    line,
                                                    st2,
                                                    nsc,
                                                    ns,
                                                    out.skip(piece.len() as int),
                                                    st_end,
                                                )
                                            },
                                        None => false,
                                    }
                                },
                                None => false,
                            }
                        },
                        _ => false,
                    }
                } else {
                    let after = rest.skip(end as int);
                    exists|ds: DirectiveStep, st2: PreprocessorState|
                        #[trigger] directive_effect(
                            rest.subrange(s as int, e as int),
                            end,
                            after,
                            match_end(MACRO_NAME_RE@, after),
                            find_end(REPLACEMENT_RE@, after),
                            replacement_end(after),
                            replacement_span(after),
                            filename,
                            line as usize,
                            nsc as usize,
                            st,
                            st2,
                            Ok(ds),
                        ) && pos < after_directive(text, pos, line, ds).0 <= text.len() && ds.output@.len() <= out.len()
                            && out.take(ds.output@.len() as int) == ds.output@ && scan(
                            text,
                            filename,
                            ip,
                            sources,
                            depth,
                            after_directive(text, pos, line, ds).0,
                            after_directive(text, pos, line, ds).1,
                            st2,
                            count_after(nsc, ds),
                            path_after(ns, ds),
                            out.skip(ds.output@.len() as int),
                            st_end,
                        )
                },
                None => false,
            },
        }
    }
}

/// Whether preprocessing `file` (named `filename`, included through the
/// files `include_path`) in the namespace path `ns`, with the paths that
/// `sources` describes and `depth` levels of includes left, from the state
/// `s0`, writes `out` and leaves the state `s1`: the file is recorded as
/// included in its namespace, and the output is its marker line followed by
/// what the scan of the file writes (see `scan`).
pub open spec fn preprocessed(
    file: Seq<char>,
    filename: Seq<char>,
    include_path: Seq<Seq<char>>,
    ns: Seq<String>,
    sources: Sources,
    depth: nat,
    s0: PreprocessorState,
    s1: PreprocessorState,
    out: Seq<char>,
) -> bool
    decreases depth, file.len() + 1,
{
    let ip = if include_path.contains(filename) {
        include_path
    } else {
        include_path.push(filename)
    };
    let head = marker(filename);
    &&& head.len() <= out.len()
    &&& out.take(head.len() as int) == head
    &&& exists|sa: PreprocessorState|
        #[trigger] entered(s0, sa, joined(ns), filename) && scan(
            file,
            filename,
            ip,
            sources,
            depth,
            0,
            1,
            sa,
            0,
            ns,
            out.skip(head.len() as int),
            s1,
        )
}

/// Whether `text` holds no `#`, and so no directive.
pub open spec fn no_directive(text: Seq<char>) -> bool {
    forall|i: int| 0 <= i < text.len() ==> text[i] != '#'
}

/// Preprocesses `file`, named `filename`, in the namespace `full_namespace`,
/// with `include_path` the files that include it. The output starts with a
/// `// <FILENAME>` line, which tells the lexer where the code comes from, and
/// ends with a `spacename;` for each namespace left open; what it writes in
/// between, and the state it leaves, are those of `preprocessed`.
pub fn preprocessor(
    file: &str,
    filename: &str,
    include_path: &Vec<String>,
    full_namespace: Vec<String>,
    sources: &Sources,
    state: &mut PreprocessorState,
    patterns: &Directives,
    depth: usize,
) -> (res: Result<String, PreprocessError>)
    requires
        patterns.wf(),
        file@.len() < usize::MAX,
    ensures
        res matches Ok(out) ==> ("// <"@ + filename@ + ">\n"@).len() <= out@.len() && out@.take(
            ("// <"@ + filename@ + ">\n"@).len() as int,
        ) == "// <"@ + filename@ + ">\n"@,
        final(state).messages@.len() >= old(state).messages@.len(),
        res matches Err(PreprocessError::NeedPath(path)) ==> sources.paths.value_of(path@) is None,
        no_directive(file@) ==> match plain_output(file@, old(state).defined.entries@) {
            Some(o) => res matches Ok(out) && out@ == "// <"@ + filename@ + ">\n"@ + o,
            None => res is Err,
        },
        no_directive(file@) ==> final(state).defined == old(state).defined,
        res matches Err(e) ==> !(e is InvalidPattern),
        res matches Ok(out) ==> preprocessed(
            file@,
            filename@,
            texts(include_path@),
            full_namespace@,
            *sources,
            depth as nat,
            *old(state),
            *final(state),
            out@,
        ),
    decreases depth,
{
    let ghost ns0 = full_namespace@;
    let ghost ip_in = texts(include_path@);
    let mut full_namespace = full_namespace;
    {
        let ns = join_names(&full_namespace);
        let ghost before = match lookup(state.included_files.entries@, ns@) {
            Some(v) => texts(v@),
            None => Seq::empty(),
        };
        let mut files = match state.included_files.get(ns.as_str()) {
            Some(v) => clone_strings(v),
            None => Vec::new(),
        };
        assert(texts(files@) =~= before);
        proof {
            lemma_texts_contains(files@, filename@);
        }
        if !contains_text(&files, filename) {
            let f = String::from_str(filename);
            proof {
                lemma_texts_push(files@, f);
            }
            files.push(f);
        }
        state.included_files.insert(ns, files);
        assert(state.included_files.entries@.drop_last() =~= old(state).included_files.entries@);
    }
    let ghost sa = *state;
    assert(entered(*old(state), sa, joined(ns0), filename@));
    let mut include_path = clone_strings(include_path);
    proof {
        lemma_texts_contains(include_path@, filename@);
    }
    if !contains_text(&include_path, filename) {
        let f = String::from_str(filename);
        proof {
            lemma_texts_push(include_path@, f);
        }
        include_path.push(f);
    }
    let ghost ipv = texts(include_path@);
    assert(ipv == if ip_in.contains(filename@) {
        ip_in
    } else {
        ip_in.push(filename@)
    });
    let ghost text = file@;
    let header = concat("// <", filename);
    let mut processed = concat(header.as_str(), ">\n");
    let ghost head = processed@;
    let mut cur = Cursor { rest: file, pos: 0, line: 1 };
    assert(file@.skip(0) =~= file@);
    let mut namespace_counter: usize = 0;
    let ghost messages_before = state.messages@.len();
    let ghost plain = no_directive(text);
    let ghost defined0 = old(state).defined.entries@;
    assert(processed@.skip(head.len() as int) =~= Seq::<char>::empty());
    assert(then_text(Seq::empty(), plain_output(text, defined0)) =~= plain_output(text, defined0));
    assert forall|o: Seq<char>, se: PreprocessorState|
        #[trigger] scan(text, filename@, ipv, *sources, depth as nat, 0, 1, sa, 0, ns0, o, se) implies scan(
            text,
            filename@,
            ipv,
            *sources,
            depth as nat,
            0,
            1,
            sa,
            0,
            ns0,
            processed@.skip(head.len() as int) + o,
            se,
        ) by {
        assert(processed@.skip(head.len() as int) + o =~= o);
    }
    while !cur.rest.is_empty()
        invariant
            patterns.wf(),
            ipv == texts(include_path@),
            entered(*old(state), sa, joined(ns0), filename@),
            forall|o: Seq<char>, se: PreprocessorState|
                #[trigger] scan(
                    text,
                    filename@,
                    ipv,
                    *sources,
                    depth as nat,
                    cur.pos as int,
                    cur.line as int,
                    *state,
                    namespace_counter as int,
                    full_namespace@,
                    o,
                    se,
                ) ==> scan(
                    text,
                    filename@,
                    ipv,
                    *sources,
                    depth as nat,
                    0,
                    1,
                    sa,
                    0,
                    ns0,
                    processed@.skip(head.len() as int) + o,
                    se,
                ),
            cur.at(text),
            text == file@,
            plain == no_directive(text),
            plain ==> state.defined.entries@ == defined0 && state.defined == old(state).defined
                && namespace_counter == 0,
            plain ==> plain_output(text, defined0) == then_text(
                processed@.skip(head.len() as int),
                plain_output(cur.rest@, defined0),
            ),
            head.len() <= processed@.len(),
            processed@.take(head.len() as int) == head,
            head == "// <"@ + filename@ + ">\n"@,
            header@ == "// <"@ + filename@,
            namespace_counter <= cur.pos,
            full_namespace@.len() == ns0.len() + namespace_counter,
            state.messages@.len() >= messages_before,
            messages_before == old(state).messages@.len(),
        decreases text.len() - cur.pos,
    {
        let ghost before = processed@;
        let pos_before = cur.pos;
        let ghost l0 = cur.line;
        let ghost st0 = *state;
        let ghost c0 = namespace_counter;
        let ghost n0 = full_namespace@;
        let ghost r0 = cur.rest@;
        // A directive begins with `#`: the directive pattern is only tried
        // there.
        let directive_end = match crate::text::peek_char(cur.rest, 0) {
            Some('#') => match_len(&patterns.directive, cur.rest),
            _ => None,
        };
        if let Some(end) = directive_end {
            assert(!plain) by {
                if plain {
                    assert(text[cur.pos as int] == cur.rest@[0]);
                }
            }
            let (name_start, name_stop) = match patterns.directive.group(cur.rest, 1) {
                Some((s, e)) => (s, e),
                None => return Err(failure(filename, cur.line, "Invalid preprocessor directive")),
            };
            if name_stop < name_start {
                return Err(failure(filename, cur.line, "Invalid preprocessor directive"));
            }
            let directive = substring(cur.rest, name_start, name_stop - name_start);
            let d = directive.as_str();
            if same_text(d, "include") {
                cur.advance(end, 0, Ghost(text));
                assert(cur.rest@ =~= r0.skip(end as int));
                let target = match patterns.include_file.group(cur.rest, 1) {
                    Some((s, e)) => {
                        if e < s {
                            return Err(failure(filename, cur.line, "Invalid #include file"));
                        }
                        substring(cur.rest, s, e - s)
                    },
                    None => return Err(failure(filename, cur.line, "Invalid #include file")),
                };
                match patterns.include_file.find(cur.rest) {
                    Some((_, e)) => cur.advance(e, 0, Ghost(text)),
                    None => return Err(failure(filename, cur.line, "Invalid #include file")),
                }
                let current_dir = directory_of(filename);
                let full_path = join_path(current_dir.as_str(), target.as_str());
                // A directory is included through its `include.dpl`.
                let (actual_path, is_directory) = match sources.paths.get(full_path.as_str()) {
                    None => return Err(PreprocessError::NeedPath(full_path)),
                    Some(PathKind::Directory) => {
                        let include_file = join_path(full_path.as_str(), "include.dpl");
                        match sources.paths.get(include_file.as_str()) {
                            None => return Err(PreprocessError::NeedPath(include_file)),
                            Some(PathKind::Missing) => {
                                let m = concat("Directory does not contain include.dpl: ", full_path.as_str());
                                return Err(failure(filename, cur.line, m.as_str()));
                            },
                            Some(_) => (include_file, true),
                        }
                    },
                    Some(_) => (full_path.clone(), false),
                };
                proof {
                    lemma_texts_contains(include_path@, actual_path@);
                }
                if contains_text(&include_path, actual_path.as_str()) {
                    let m = concat("Circular include detected: ", actual_path.as_str());
                    return Err(failure(filename, cur.line, m.as_str()));
                }
                assert(include_at(text, filename@, *sources, pos_before as int, cur.pos as int, full_path@, actual_path@, is_directory));
                let ns = join_names(&full_namespace);
                let already = match state.included_files.get(ns.as_str()) {
                    Some(files) => {
                        proof {
                            lemma_texts_contains(files@, actual_path@);
                        }
                        contains_text(files, actual_path.as_str())
                    },
                    None => false,
                };
                assert(already == included_in(st0, n0, actual_path@));
                let ghost out0 = processed@;
                if already {
                    proof {
                        lemma_include_again(text, filename@, ipv, *sources, depth as nat, pos_before as int, cur.pos as int, l0 as int, st0, c0 as int, n0, full_path@, actual_path@, is_directory);
                        lemma_scan_back(text, filename@, ipv, *sources, depth as nat, sa, ns0, head.len() as int, out0, Seq::empty(), pos_before as int, l0 as int, st0, c0 as int, n0, cur.pos as int, cur.line as int, *state, namespace_counter as int, full_namespace@);
                        assert(out0 + Seq::<char>::empty() =~= processed@);
                    }
                }
                if !already {
                    let contents = match sources.paths.get(actual_path.as_str()) {
                        Some(PathKind::File(c)) => c,
                        _ => {
                            let m = concat("File not found: ", actual_path.as_str());
                            return Err(failure(filename, cur.line, m.as_str()));
                        },
                    };
                    if depth == 0 || chars_of(contents.as_str()).len() == usize::MAX {
                        let m = concat("Includes nested too deeply: ", actual_path.as_str());
                        return Err(failure(filename, cur.line, m.as_str()));
                    }
                    let included = preprocessor(
                        contents.as_str(),
                        actual_path.as_str(),
                        &include_path,
                        clone_strings(&full_namespace),
                        sources,
                        state,
                        patterns,
                        depth - 1,
                    )?;
                    // Markers tell the lexer which file the code comes from.
                    let marked = if is_directory {
                        concat(full_path.as_str(), "/include.dpl")
                    } else {
                        actual_path.clone()
                    };
                    let opening = concat("// <", marked.as_str());
                    let opening = concat(opening.as_str(), ">\n");
                    processed.append(opening.as_str());
                    processed.append(included.as_str());
                    let back = concat(header.as_str(), ">\n");
                    processed.append(back.as_str());
                    proof {
                        lemma_include_new(text, filename@, ipv, *sources, depth as nat, pos_before as int, cur.pos as int, l0 as int, st0, c0 as int, n0, full_path@, actual_path@, is_directory, contents@, *state, included@);
                        let piece = opening@ + included@ + back@;
                        assert(opening@ == marker(
                            if is_directory {
                                full_path@ + "/include.dpl"@
                            } else {
                                actual_path@
                            },
                        ));
                        assert(back@ == marker(filename@));
                        lemma_scan_back(text, filename@, ipv, *sources, depth as nat, sa, ns0, head.len() as int, out0, piece, pos_before as int, l0 as int, st0, c0 as int, n0, cur.pos as int, cur.line as int, *state, namespace_counter as int, full_namespace@);
                        assert(out0 + piece =~= processed@);
                    }
                }
            } else {
                let after = skip_chars(cur.rest, end);
                let name_end = match_len(&patterns.macro_name, after);
                let text_end = match patterns.replacement.find(after) {
                    Some((_, e)) => Some(e),
                    None => None,
                };
                let rest_end = match name_end {
                    Some(n) => match patterns.replacement.find(skip_chars(after, n)) {
                        Some((_, e)) => Some(e),
                        None => None,
                    },
                    None => None,
                };
                let value = match name_end {
                    Some(n) => patterns.replacement.group(skip_chars(after, n), 1),
                    None => None,
                };
                let step = directive_step(
                    d,
                    end,
                    after,
                    name_end,
                    text_end,
                    rest_end,
                    value,
                    filename,
                    cur.line,
                    namespace_counter,
                    state,
                )?;
                let ghost ds = step;
                let ghost st_mid = *state;
                let ghost b = processed@;
                processed.append(step.output.as_str());
                assert(processed@.take(head.len() as int) =~= b.take(head.len() as int));
                cur.advance(step.read, step.lines, Ghost(text));
                match step.namespace {
                    NamespaceChange::Open(n) => {
                        namespace_counter = namespace_counter + 1;
                        full_namespace.push(n);
                    },
                    NamespaceChange::Close => {
                        namespace_counter = namespace_counter - 1;
                        full_namespace.pop();
                    },
                    NamespaceChange::Keep => {},
                }
                if let Some(stop_at_else) = step.skip {
                    skip_branch(&mut cur, stop_at_else, Ghost(text));
                }
                if cur.pos == pos_before {
                    // Every directive reads its name at least.
                    return Err(failure(filename, cur.line, "Invalid preprocessor directive"));
                }
                proof {
                    assert(after@ == r0.skip(end as int));
                    assert(after_directive(text, pos_before as int, l0 as int, ds) == (cur.pos as int, cur.line as int));
                    assert(count_after(c0 as int, ds) == namespace_counter as int);
                    assert(path_after(n0, ds) == full_namespace@);
                    assert(*state == st_mid);
                    lemma_directive_move(text, filename@, ipv, *sources, depth as nat, pos_before as int, l0, st0, c0, n0, end, name_start, name_stop, ds, st_mid, cur.pos as int, cur.line as int, namespace_counter as int, full_namespace@);
                    lemma_scan_back(text, filename@, ipv, *sources, depth as nat, sa, ns0, head.len() as int, b, ds.output@, pos_before as int, l0 as int, st0, c0 as int, n0, cur.pos as int, cur.line as int, *state, namespace_counter as int, full_namespace@);
                }
            }
        } else {
            let line_comment = match_len(&patterns.line_comment, cur.rest);
            let block_comment = match_len(&patterns.block_comment, cur.rest);
            let name = match_len(&patterns.macro_name, cur.rest);
            let ghost r0 = cur.rest@;
            let ghost p0 = processed@;
            match plain_step(cur.rest, line_comment, block_comment, name, &state.defined) {
                Some((piece, read, lines)) => {
                    processed.append(piece.as_str());
                    cur.advance(read, lines, Ghost(text));
                    proof {
                        lemma_plain_move(text, filename@, ipv, *sources, depth as nat, pos_before as int, l0 as int, st0, c0 as int, n0, piece@, read as int, lines as int);
                        lemma_scan_back(text, filename@, ipv, *sources, depth as nat, sa, ns0, head.len() as int, p0, piece@, pos_before as int, l0 as int, st0, c0 as int, n0, cur.pos as int, cur.line as int, *state, namespace_counter as int, full_namespace@);
                        if plain {
                            assert(cur.rest@ =~= r0.skip(read as int));
                            assert(processed@.skip(head.len() as int) =~= p0.skip(head.len() as int) + piece@);
                            match plain_output(cur.rest@, defined0) {
                                Some(t) => {
                                    assert(p0.skip(head.len() as int) + (piece@ + t) =~= (p0.skip(head.len() as int)
                                        + piece@) + t);
                                },
                                None => {},
                            }
                        }
                    }
                },
                None => return Err(failure(filename, cur.line, "Non-ASCII character outside a comment")),
            }
        }
        assert(processed@.take(head.len() as int) =~= head);
    }
    proof {
        if plain {
            assert(plain_output(cur.rest@, defined0) == Some(Seq::<char>::empty()));
            assert(processed@ =~= head + processed@.skip(head.len() as int));
            assert(processed@.skip(head.len() as int) + Seq::<char>::empty() =~= processed@.skip(head.len() as int));
        }
    }
    let ghost done = processed@;
    proof {
        assert(cur.pos == text.len());
        assert(closings(0) =~= Seq::<char>::empty());
        assert(scan(
            text,
            filename@,
            ipv,
            *sources,
            depth as nat,
            cur.pos as int,
            cur.line as int,
            *state,
            namespace_counter as int,
            full_namespace@,
            closings(namespace_counter as nat),
            *state,
        ));
    }
    let mut k: usize = 0;
    while k < namespace_counter
        invariant
            head.len() <= processed@.len(),
            processed@.take(head.len() as int) == head,
            k <= namespace_counter,
            k == 0 ==> processed@ == done,
            head.len() <= done.len(),
            processed@ == done + closings(k as nat),
        decreases namespace_counter - k,
    {
        let ghost b = processed@;
        processed.append("spacename;\n");
        assert(processed@.take(head.len() as int) =~= b.take(head.len() as int));
        assert(processed@ =~= done + closings((k + 1) as nat));
        full_namespace.pop();
        k = k + 1;
    }
    proof {
        assert(processed@.skip(head.len() as int) =~= done.skip(head.len() as int) + closings(namespace_counter as nat));
        assert(head == marker(filename@));
        assert(entered(*old(state), sa, joined(ns0), filename@));
    }
    Ok(processed)
}

/// A copy of a list of strings.
fn clone_strings(v: &Vec<String>) -> (res: Vec<String>)
    ensures
        res@ == v@,
{
    let mut out: Vec<String> = Vec::new();
    let mut i: usize = 0;
    while i < v.len()
        invariant
            i <= v@.len(),
            out@ == v@.take(i as int),
        decreases v@.len() - i,
    {
        out.push(v[i].clone());
        assert(out@ =~= v@.take(i + 1));
        i = i + 1;
    }
    assert(v@.take(v@.len() as int) =~= v@);
    out
}

/// A list of strings holds the text `x` when one of them is `x`.
proof fn lemma_texts_contains(v: Seq<String>, x: Seq<char>)
    ensures
        texts(v).contains(x) <==> exists|i: int| 0 <= i < v.len() && (#[trigger] v[i])@ == x,
        texts(v).len() == v.len(),
{
    if texts(v).contains(x) {
        let k = choose|k: int| 0 <= k < texts(v).len() && texts(v)[k] == x;
        assert(v[k]@ == x);
    }
    if exists|i: int| 0 <= i < v.len() && (#[trigger] v[i])@ == x {
        let i = choose|i: int| 0 <= i < v.len() && (#[trigger] v[i])@ == x;
        assert(texts(v)[i] == x);
    }
}

/// Adding a string to a list adds its text to the texts of the list.
proof fn lemma_texts_push(v: Seq<String>, x: String)
    ensures
        texts(v.push(x)) == texts(v).push(x@),
{
    assert(texts(v.push(x)) =~= texts(v).push(x@));
}

/// Where every continuation of the scan from the later position leads to
/// one from the earlier position with `piece` before it, and every
/// continuation from the earlier position to a run of the file that wrote
/// `done` so far, every continuation from the later position leads to a run
/// of the file that wrote `done + piece`.
proof fn lemma_scan_back(
    text: Seq<char>,
    filename: Seq<char>,
    ip: Seq<Seq<char>>,
    sources: Sources,
    depth: nat,
    sa: PreprocessorState,
    ns0: Seq<String>,
    hl: int,
    done: Seq<char>,
    piece: Seq<char>,
    p0: int,
    l0: int,
    st0: PreprocessorState,
    c0: int,
    n0: Seq<String>,
    p1: int,
    l1: int,
    st1: PreprocessorState,
    c1: int,
    n1: Seq<String>,
)
    requires
        0 <= hl <= done.len(),
        forall|o: Seq<char>, se: PreprocessorState|
            #[trigger] scan(text, filename, ip, sources, depth, p0, l0, st0, c0, n0, o, se) ==> scan(
                text,
                filename,
                ip,
                sources,
                depth,
                0,
                1,
                sa,
                0,
                ns0,
                done.skip(hl) + o,
                se,
            ),
        forall|o: Seq<char>, se: PreprocessorState|
            #[trigger] scan(text, filename, ip, sources, depth, p1, l1, st1, c1, n1, o, se) ==> scan(
                text,
                filename,
                ip,
                sources,
                depth,
                p0,
                l0,
                st0,
                c0,
                n0,
                piece + o,
                se,
            ),
    ensures
        forall|o: Seq<char>, se: PreprocessorState|
            #[trigger] scan(text, filename, ip, sources, depth, p1, l1, st1, c1, n1, o, se) ==> scan(
                text,
                filename,
                ip,
                sources,
                depth,
                0,
                1,
                sa,
                0,
                ns0,
                (done + piece).skip(hl) + o,
                se,
            ),
{
    assert forall|o: Seq<char>, se: PreprocessorState|
        #[trigger] scan(text, filename, ip, sources, depth, p1, l1, st1, c1, n1, o, se) implies scan(
            text,
            filename,
            ip,
            sources,
            depth,
            0,
            1,
            sa,
            0,
            ns0,
            (done + piece).skip(hl) + o,
            se,
        ) by {
        assert(scan(text, filename, ip, sources, depth, p0, l0, st0, c0, n0, piece + o, se));
        assert(done.skip(hl) + (piece + o) =~= (done + piece).skip(hl) + o);
    }
}

/// A piece of plain text is a step of the scan.
proof fn lemma_plain_move(
    text: Seq<char>,
    filename: Seq<char>,
    ip: Seq<Seq<char>>,
    sources: Sources,
    depth: nat,
    p0: int,
    l0: int,
    st: PreprocessorState,
    nsc: int,
    ns: Seq<String>,
    piece: Seq<char>,
    read: int,
    lines: int,
)
    requires
        0 <= p0 < text.len(),
        nsc >= 0,
        directive_at(text.skip(p0)) is None,
        plain_piece(
            text.skip(p0),
            match_end(LINE_COMMENT_RE@, text.skip(p0)),
            match_end(BLOCK_COMMENT_RE@, text.skip(p0)),
            match_end(MACRO_NAME_RE@, text.skip(p0)),
            st.defined.entries@,
        ) == Some((piece, read, lines)),
        0 < read <= text.len() - p0,
    ensures
        forall|o: Seq<char>, se: PreprocessorState|
            #[trigger] scan(text, filename, ip, sources, depth, p0 + read, l0 + lines, st, nsc, ns, o, se) ==> scan(
                text,
                filename,
                ip,
                sources,
                depth,
                p0,
                l0,
                st,
                nsc,
                ns,
                piece + o,
                se,
            ),
{
    assert forall|o: Seq<char>, se: PreprocessorState|
        #[trigger] scan(text, filename, ip, sources, depth, p0 + read, l0 + lines, st, nsc, ns, o, se) implies scan(
            text,
            filename,
            ip,
            sources,
            depth,
            p0,
            l0,
            st,
            nsc,
            ns,
            piece + o,
            se,
        ) by {
        assert(text.skip(p0).len() == text.len() - p0);
        assert((piece + o).take(piece.len() as int) =~= piece);
        assert((piece + o).skip(piece.len() as int) =~= o);
    }
}

/// Whether an `#include` of the file `actual` (through the path `full`, a
/// directory when `is_dir`) begins at `p0` of `text` and ends at `next`.
pub open spec fn include_at(
    text: Seq<char>,
    filename: Seq<char>,
    sources: Sources,
    p0: int,
    next: int,
    full: Seq<char>,
    actual: Seq<char>,
    is_dir: bool,
) -> bool {
    let rest = text.skip(p0);
    &&& 0 <= p0 < text.len()
    &&& directive_at(rest) matches Some(end) && end <= rest.len() && {
        let rest1 = rest.skip(end as int);
        &&& regex_group(DIRECTIVE_RE@, rest, 1) matches Some((s, e)) && s <= e <= rest.len()
            && rest.subrange(s as int, e as int) == "include"@
        &&& regex_group(INCLUDE_FILE_RE@, rest1, 1) matches Some((a, b)) && a <= b <= rest1.len() && full
            == path_join(directory_name(filename), rest1.subrange(a as int, b as int))
        &&& find_end(INCLUDE_FILE_RE@, rest1) matches Some(e2) && e2 <= rest1.len() && next == p0 + end + e2
    }
    &&& include_target(full, sources) == Some((actual, is_dir))
}

/// An `#include` of a file already included in the namespace is a step of
/// the scan that writes nothing.
proof fn lemma_include_again(
    text: Seq<char>,
    filename: Seq<char>,
    ip: Seq<Seq<char>>,
    sources: Sources,
    depth: nat,
    p0: int,
    next: int,
    l0: int,
    st: PreprocessorState,
    nsc: int,
    ns: Seq<String>,
    full: Seq<char>,
    actual: Seq<char>,
    is_dir: bool,
)
    requires
        nsc >= 0,
        include_at(text, filename, sources, p0, next, full, actual, is_dir),
        !ip.contains(actual),
        included_in(st, ns, actual),
    ensures
        forall|o: Seq<char>, se: PreprocessorState|
            #[trigger] scan(text, filename, ip, sources, depth, next, l0, st, nsc, ns, o, se) ==> scan(
                text,
                filename,
                ip,
                sources,
                depth,
                p0,
                l0,
                st,
                nsc,
                ns,
                Seq::<char>::empty() + o,
                se,
            ),
{
    assert(text.skip(p0).len() == text.len() - p0);
    assert forall|o: Seq<char>, se: PreprocessorState|
        #[trigger] scan(text, filename, ip, sources, depth, next, l0, st, nsc, ns, o, se) implies scan(
            text,
            filename,
            ip,
            sources,
            depth,
            p0,
            l0,
            st,
            nsc,
            ns,
            Seq::<char>::empty() + o,
            se,
        ) by {
        assert(Seq::<char>::empty() + o =~= o);
    }
}

/// An `#include` of a file not yet included in the namespace is a step of
/// the scan that writes the file's marker, the preprocessed file and the
/// marker of the including file.
proof fn lemma_include_new(
    text: Seq<char>,
    filename: Seq<char>,
    ip: Seq<Seq<char>>,
    sources: Sources,
    depth: nat,
    p0: int,
    next: int,
    l0: int,
    st: PreprocessorState,
    nsc: int,
    ns: Seq<String>,
    full: Seq<char>,
    actual: Seq<char>,
    is_dir: bool,
    contents: Seq<char>,
    st2: PreprocessorState,
    inner: Seq<char>,
)
    requires
        nsc >= 0,
        include_at(text, filename, sources, p0, next, full, actual, is_dir),
        !ip.contains(actual),
        !included_in(st, ns, actual),
        source_text(sources, actual) == Some(contents),
        depth > 0,
        contents.len() < usize::MAX,
        preprocessed(contents, actual, ip, ns, sources, (depth - 1) as nat, st, st2, inner),
    ensures
        forall|o: Seq<char>, se: PreprocessorState|
            #[trigger] scan(text, filename, ip, sources, depth, next, l0, st2, nsc, ns, o, se) ==> scan(
                text,
                filename,
                ip,
                sources,
                depth,
                p0,
                l0,
                st,
                nsc,
                ns,
                marker(
                    if is_dir {
                        full + "/include.dpl"@
                    } else {
                        actual
                    },
                ) + inner + marker(filename) + o,
                se,
            ),
{
    assert(text.skip(p0).len() == text.len() - p0);
    let piece = marker(
        if is_dir {
            full + "/include.dpl"@
        } else {
            actual
        },
    ) + inner + marker(filename);
    assert forall|o: Seq<char>, se: PreprocessorState|
        #[trigger] scan(text, filename, ip, sources, depth, next, l0, st2, nsc, ns, o, se) implies scan(
            text,
            filename,
            ip,
            sources,
            depth,
            p0,
            l0,
            st,
            nsc,
            ns,
            piece + o,
            se,
        ) by {
        assert(outcome(st2, inner) == (st2, inner));
        assert((piece + o).take(piece.len() as int) =~= piece);
        assert((piece + o).skip(piece.len() as int) =~= o);
    }
}

/// A directive other than `#include` is a step of the scan.
proof fn lemma_directive_move(
    text: Seq<char>,
    filename: Seq<char>,
    ip: Seq<Seq<char>>,
    sources: Sources,
    depth: nat,
    p0: int,
    l0: usize,
    st: PreprocessorState,
    nsc: usize,
    ns: Seq<String>,
    end: usize,
    s: usize,
    e: usize,
    ds: DirectiveStep,
    st2: PreprocessorState,
    p1: int,
    l1: int,
    c1: int,
    n1: Seq<String>,
)
    requires
        after_directive(text, p0, l0 as int, ds) == (p1, l1),
        count_after(nsc as int, ds) == c1,
        path_after(ns, ds) == n1,
        0 <= p0 < text.len(),
        directive_at(text.skip(p0)) == Some(end),
        end <= text.len() - p0,
        regex_group(DIRECTIVE_RE@, text.skip(p0), 1) == Some((s, e)),
        s <= e <= text.len() - p0,
        text.skip(p0).subrange(s as int, e as int) != "include"@,
        directive_effect(
            text.skip(p0).subrange(s as int, e as int),
            end,
            text.skip(p0).skip(end as int),
            match_end(MACRO_NAME_RE@, text.skip(p0).skip(end as int)),
            find_end(REPLACEMENT_RE@, text.skip(p0).skip(end as int)),
            replacement_end(text.skip(p0).skip(end as int)),
            replacement_span(text.skip(p0).skip(end as int)),
            filename,
            l0,
            nsc,
            st,
            st2,
            Ok(ds),
        ),
        p0 < after_directive(text, p0, l0 as int, ds).0 <= text.len(),
    ensures
        forall|o: Seq<char>, se: PreprocessorState|
            #[trigger] scan(text, filename, ip, sources, depth, p1, l1, st2, c1, n1, o, se) ==> scan(
                text,
                filename,
                ip,
                sources,
                depth,
                p0,
                l0 as int,
                st,
                nsc as int,
                ns,
                ds.output@ + o,
                se,
            ),
{
    let rest = text.skip(p0);
    let after = rest.skip(end as int);
    assert forall|o: Seq<char>, se: PreprocessorState|
        #[trigger] scan(text, filename, ip, sources, depth, p1, l1, st2, c1, n1, o, se) implies scan(
            text,
            filename,
            ip,
            sources,
            depth,
            p0,
            l0 as int,
            st,
            nsc as int,
            ns,
            ds.output@ + o,
            se,
        ) by {
        assert(rest.len() == text.len() - p0);
        assert((l0 as int) as usize == l0);
        assert((nsc as int) as usize == nsc);
        assert((ds.output@ + o).take(ds.output@.len() as int) =~= ds.output@);
        assert((ds.output@ + o).skip(ds.output@.len() as int) =~= o);
    }
}

/// Whether one of `v` is `s`.
fn contains_text(v: &Vec<String>, s: &str) -> (res: bool)
    ensures
        res == exists|i: int| 0 <= i < v@.len() && (#[trigger] v@[i])@ == s@,
{
    let mut i: usize = 0;
    while i < v.len()
        invariant
            i <= v@.len(),
            forall|j: int| 0 <= j < i ==> (#[trigger] v@[j])@ != s@,
        decreases v@.len() - i,
    {
        if same_text(v[i].as_str(), s) {
            return true;
        }
        i = i + 1;
    }
    false
}

/// Preprocesses the program `file`, named `filename`, from the top level
/// namespace, with the paths that `sources` describes; returns the result
/// and the messages printed meanwhile.
pub fn preprocess(file: &str, filename: &str, sources: &Sources) -> (res: (
    Result<String, PreprocessError>,
    Vec<String>,
))
    requires
        file@.len() < usize::MAX,
    ensures
        res.0 matches Err(PreprocessError::NeedPath(path)) ==> sources.paths.value_of(path@) is None,
        res.0 matches Err(PreprocessError::InvalidPattern) <==> !directive_patterns_compile(),
        directive_patterns_compile() && no_directive(file@) ==> match plain_output(file@, Seq::empty()) {
            Some(o) => res.0 matches Ok(out) && out@ == "// <"@ + filename@ + ">\n"@ + o,
            None => res.0 is Err,
        },
        res.0 matches Ok(out) ==> exists|ns: Seq<String>, s0: PreprocessorState, s1: PreprocessorState|
            #[trigger] preprocessed(file@, filename@, Seq::empty(), ns, *sources, usize::MAX as nat, s0, s1, out@)
                && ns.len() == 1 && ns[0]@ == "toplevel"@ && s0.included_files.entries@.len() == 0
                && s0.defined.entries@.len() == 0 && s0.messages@.len() == 0 && s1.messages@ == res.1@,
{
    let mut state = PreprocessorState {
        included_files: Names::new(),
        defined: Names::new(),
        messages: Vec::new(),
    };
    assert(state.defined.entries@ =~= Seq::<(String, Option<String>)>::empty());
    let patterns = match Directives::compile() {
        Some(p) => p,
        None => return (Err(PreprocessError::InvalidPattern), Vec::new()),
    };
    let ghost s0 = state;
    let top = vec![String::from_str("toplevel")];
    let ghost ns = top@;
    let no_files: Vec<String> = Vec::new();
    assert(texts(no_files@) =~= Seq::<Seq<char>>::empty());
    let result = preprocessor(file, filename, &no_files, top, sources, &mut state, &patterns, usize::MAX);
    proof {
        reveal_strlit("toplevel");
    }
    (result, state.messages)
}

} // verus!
