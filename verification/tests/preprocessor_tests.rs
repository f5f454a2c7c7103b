use dubious::ast_build::parse;
use dubious::lexer::lex;
use dubious::logic_checker::check_program;
use dubious::names::Names;
use dubious::preprocessor::{
    directive_step, plain_step, preprocess, NamespaceChange, PathKind, PreprocessError, PreprocessorState, Sources,
};

fn no_sources() -> Sources {
    Sources { paths: Names::new() }
}

fn run(text: &str) -> (Result<String, PreprocessError>, Vec<String>) {
    preprocess(text, "main.dpl", &no_sources())
}

#[test]
fn output_starts_with_the_file_line() {
    let (out, messages) = run("fn main(): int { return 0; }\n");
    assert_eq!(out.unwrap(), "// <main.dpl>\nfn main(): int { return 0; }\n");
    assert!(messages.is_empty());
}

#[test]
fn comments_are_removed_and_lines_kept() {
    let (out, _) = run("a // c\nb /* x\ny */ c");
    assert_eq!(out.unwrap(), "// <main.dpl>\na \nb \n c");
}

#[test]
fn define_replaces_the_identifier() {
    let (out, _) = run("#define X 5\nlet a: int = X;");
    assert_eq!(out.unwrap(), "// <main.dpl>\n\nlet a: int = 5;");
}

#[test]
fn define_twice_warns() {
    let (out, messages) = run("#define X 1\n#define X 2\n");
    assert!(out.is_ok());
    assert_eq!(messages, vec!["main.dpl Line 2 Warning: #define identifier 'X' is already defined".to_string()]);
}

#[test]
fn undef_of_unknown_warns() {
    let (out, messages) = run("#undef Y\n");
    assert!(out.is_ok());
    assert_eq!(messages, vec!["main.dpl Line 1 Warning: #undef identifier 'Y' is not defined".to_string()]);
}

#[test]
fn ifdef_keeps_the_defined_branch() {
    let (out, _) = run("#define A 1\n#ifdef A\nx\n#else\ny\n#endif\n");
    assert_eq!(out.unwrap(), "// <main.dpl>\n\n\nx\n\n");
}

#[test]
fn ifdef_skips_to_else_when_undefined() {
    let (out, _) = run("#ifdef B\nx\n#else\ny\n#endif\n");
    assert_eq!(out.unwrap(), "// <main.dpl>\n\ny\n\n");
}

#[test]
fn ifndef_keeps_the_undefined_branch() {
    let (out, _) = run("#ifndef B\nx\n#endif\n");
    assert_eq!(out.unwrap(), "// <main.dpl>\n\nx\n\n");
}

#[test]
fn error_directive_stops() {
    let (out, _) = run("x\n#error bad thing  \n");
    match out {
        Err(PreprocessError::Failed(m)) => assert_eq!(m, "main.dpl Line 2:  bad thing"),
        other => panic!("{:?}", other),
    }
}

#[test]
fn print_directive_prints() {
    let (out, messages) = run("#print hello\nx");
    assert_eq!(out.unwrap(), "// <main.dpl>\nx");
    assert_eq!(messages, vec!["main.dpl Line 1:  hello".to_string()]);
}

#[test]
fn namespace_directives_open_and_close() {
    let (out, _) = run("#namespace foo\nx\n#spacename\n");
    assert_eq!(out.unwrap(), "// <main.dpl>\nnamespace  foo;\n\nx\nspacename;\n\n");
}

#[test]
fn open_namespaces_are_closed_at_the_end() {
    let (out, _) = run("#namespace foo\nx");
    assert_eq!(out.unwrap(), "// <main.dpl>\nnamespace  foo;\n\nxspacename;\n");
}

#[test]
fn spacename_needs_a_namespace() {
    let (out, _) = run("#spacename\n");
    match out {
        Err(PreprocessError::Failed(m)) => assert_eq!(m, "main.dpl Line 1: #spacename directive without matching #namespace"),
        other => panic!("{:?}", other),
    }
}

#[test]
fn include_asks_for_the_file() {
    let (out, _) = preprocess("#include <lib.dpl>\n", "dir/main.dpl", &no_sources());
    match out {
        Err(PreprocessError::NeedPath(p)) => assert_eq!(p, "dir/lib.dpl"),
        other => panic!("{:?}", other),
    }
}

#[test]
fn include_puts_the_file_in_place() {
    let mut paths = Names::new();
    paths.insert("dir/lib.dpl".to_string(), PathKind::File("fn f(): int { return 1; }".to_string()));
    let sources = Sources { paths };
    let (out, _) = preprocess("#include <lib.dpl>\n", "dir/main.dpl", &sources);
    assert_eq!(
        out.unwrap(),
        "// <dir/main.dpl>\n// <dir/lib.dpl>\n// <dir/lib.dpl>\nfn f(): int { return 1; }// <dir/main.dpl>\n\n"
    );
}

#[test]
fn include_of_a_directory_reads_include_dpl() {
    let mut paths = Names::new();
    paths.insert("dir/lib".to_string(), PathKind::Directory);
    paths.insert("dir/lib/include.dpl".to_string(), PathKind::File("x".to_string()));
    let sources = Sources { paths };
    let (out, _) = preprocess("#include <lib>\n", "dir/main.dpl", &sources);
    assert_eq!(
        out.unwrap(),
        "// <dir/main.dpl>\n// <dir/lib/include.dpl>\n// <dir/lib/include.dpl>\nx// <dir/main.dpl>\n\n"
    );
}

#[test]
fn circular_include_is_an_error() {
    let mut paths = Names::new();
    paths.insert("dir/lib.dpl".to_string(), PathKind::File("#include <main.dpl>\n".to_string()));
    paths.insert("dir/main.dpl".to_string(), PathKind::File("".to_string()));
    let sources = Sources { paths };
    let (out, _) = preprocess("#include <lib.dpl>\n", "dir/main.dpl", &sources);
    match out {
        Err(PreprocessError::Failed(m)) => assert_eq!(m, "dir/lib.dpl Line 1: Circular include detected: dir/main.dpl"),
        other => panic!("{:?}", other),
    }
}

#[test]
fn missing_include_is_an_error() {
    let mut paths = Names::new();
    paths.insert("dir/lib.dpl".to_string(), PathKind::Missing);
    let sources = Sources { paths };
    let (out, _) = preprocess("#include <lib.dpl>\n", "dir/main.dpl", &sources);
    match out {
        Err(PreprocessError::Failed(m)) => assert_eq!(m, "dir/main.dpl Line 1: File not found: dir/lib.dpl"),
        other => panic!("{:?}", other),
    }
}

#[test]
fn a_file_is_included_once_per_namespace() {
    let mut paths = Names::new();
    paths.insert("dir/lib.dpl".to_string(), PathKind::File("y".to_string()));
    let sources = Sources { paths };
    let (out, _) = preprocess("#include <lib.dpl>\n#include <lib.dpl>\n", "dir/main.dpl", &sources);
    assert_eq!(
        out.unwrap(),
        "// <dir/main.dpl>\n// <dir/lib.dpl>\n// <dir/lib.dpl>\ny// <dir/main.dpl>\n\n\n"
    );
}

#[test]
fn whole_pipeline_checks_a_program() {
    let (out, _) = run("#define ZERO 0\nfn main(): int {\n  return ZERO;\n}\n");
    let text = out.unwrap();
    let tokens = lex(&text).unwrap();
    let ast = parse(&tokens).unwrap();
    let checked = check_program(&ast).unwrap();
    assert_eq!(checked.program.internal_tok.functions.len(), 1);
}

#[test]
fn include_from_a_file_without_directory() {
    let (out, _) = preprocess("#include <lib.dpl>\n", "main.dpl", &no_sources());
    match out {
        Err(PreprocessError::NeedPath(p)) => assert_eq!(p, "lib.dpl"),
        other => panic!("{:?}", other),
    }
}

#[test]
fn plain_text_keeps_line_breaks_and_characters() {
    let defined: Names<Option<String>> = Names::new();
    assert_eq!(plain_step("\nabc", None, None, None, &defined), Some(("\n".to_string(), 1, 1)));
    assert_eq!(plain_step("x+1", None, None, None, &defined), Some(("x".to_string(), 1, 0)));
    assert_eq!(plain_step("é", None, None, None, &defined), None);
}

#[test]
fn comments_become_line_breaks() {
    let defined: Names<Option<String>> = Names::new();
    assert_eq!(plain_step("// hi\nx", Some(5), None, None, &defined), Some(("\n".to_string(), 5, 1)));
    assert_eq!(plain_step("/*\n\n*/x", None, Some(6), None, &defined), Some(("\n\n".to_string(), 6, 2)));
    assert_eq!(plain_step("/* a */x", None, Some(7), None, &defined), Some((String::new(), 7, 0)));
}

#[test]
fn names_are_replaced_by_their_definition() {
    let mut defined: Names<Option<String>> = Names::new();
    defined.insert("FOO".to_string(), Some("42".to_string()));
    defined.insert("BAR".to_string(), None);
    assert_eq!(plain_step("FOO x", None, None, Some(3), &defined), Some(("42".to_string(), 3, 0)));
    assert_eq!(plain_step("BAR x", None, None, Some(3), &defined), Some(("BAR".to_string(), 3, 0)));
    assert_eq!(plain_step("BAZ x", None, None, Some(3), &defined), Some(("BAZ".to_string(), 3, 0)));
}

fn empty_state() -> PreprocessorState {
    PreprocessorState { included_files: Names::new(), defined: Names::new(), messages: Vec::new() }
}

#[test]
fn define_records_the_macro_and_warns_on_redefinition() {
    let mut state = empty_state();
    let step = directive_step("define", 7, " FOO 42\nx", Some(4), Some(8), Some(4), Some((1, 3)), "main.dpl", 3, 0, &mut state)
        .ok()
        .unwrap();
    assert_eq!((step.read, step.lines, step.output.as_str()), (15, 1, "\n"));
    assert!(matches!(step.namespace, NamespaceChange::Keep));
    assert!(step.skip.is_none());
    assert!(matches!(state.defined.get("FOO"), Some(Some(r)) if r == "42"));
    assert!(state.messages.is_empty());
    let _ = directive_step("define", 7, " FOO 43\n", Some(4), Some(8), Some(4), Some((1, 3)), "main.dpl", 3, 0, &mut state);
    assert_eq!(state.messages, vec!["main.dpl Line 3 Warning: #define identifier 'FOO' is already defined".to_string()]);
}

#[test]
fn undef_of_an_unknown_name_warns() {
    let mut state = empty_state();
    let step = directive_step("undef", 6, " BAR\n", Some(4), Some(5), Some(1), None, "m.dpl", 2, 0, &mut state).ok().unwrap();
    assert_eq!((step.read, step.lines), (10, 1));
    assert_eq!(state.messages, vec!["m.dpl Line 2 Warning: #undef identifier 'BAR' is not defined".to_string()]);
    assert!(matches!(state.defined.get("BAR"), Some(None)));
}

#[test]
fn conditional_directives_choose_the_branch() {
    let mut state = empty_state();
    let ifdef = directive_step("ifdef", 6, " X\n", Some(2), Some(3), Some(1), None, "m.dpl", 1, 0, &mut state).ok().unwrap();
    assert_eq!(ifdef.read, 8);
    assert_eq!(ifdef.skip, Some(true));
    let ifndef = directive_step("ifndef", 7, " X\n", Some(2), Some(3), Some(1), None, "m.dpl", 1, 0, &mut state).ok().unwrap();
    assert_eq!(ifndef.skip, None);
    let els = directive_step("else", 5, "\n", None, Some(1), None, None, "m.dpl", 1, 0, &mut state).ok().unwrap();
    assert_eq!((els.read, els.skip), (0, Some(false)));
    let endif = directive_step("endif", 6, "\n", None, Some(1), None, None, "m.dpl", 1, 0, &mut state).ok().unwrap();
    assert_eq!((endif.read, endif.skip), (6, None));
}

#[test]
fn namespaces_open_and_close() {
    let mut state = empty_state();
    let open = directive_step("namespace", 10, " lib\n", Some(4), Some(5), Some(1), None, "m.dpl", 1, 0, &mut state)
        .ok()
        .unwrap();
    assert_eq!(open.output, "namespace  lib;\n");
    assert!(matches!(open.namespace, NamespaceChange::Open(ref n) if n == "lib"));
    let close = directive_step("spacename", 10, "\n", None, Some(1), None, None, "m.dpl", 4, 1, &mut state).ok().unwrap();
    assert_eq!(close.output, "spacename;\n");
    assert!(matches!(close.namespace, NamespaceChange::Close));
    match directive_step("spacename", 10, "\n", None, Some(1), None, None, "m.dpl", 4, 0, &mut state) {
        Err(PreprocessError::Failed(m)) => assert_eq!(m, "m.dpl Line 4: #spacename directive without matching #namespace"),
        _ => panic!("a lone #spacename is refused"),
    }
}

#[test]
fn print_and_error_show_their_message() {
    let mut state = empty_state();
    let step = directive_step("print", 6, " hello  \nx", Some(6), Some(9), Some(3), None, "m.dpl", 5, 0, &mut state).ok().unwrap();
    assert_eq!((step.read, step.lines), (15, 1));
    assert_eq!(state.messages, vec!["m.dpl Line 5:  hello".to_string()]);
    match directive_step("error", 6, " stop\n", Some(5), Some(6), Some(1), None, "m.dpl", 7, 0, &mut state) {
        Err(PreprocessError::Failed(m)) => assert_eq!(m, "m.dpl Line 7:  stop"),
        _ => panic!("#error stops"),
    }
}

#[test]
fn define_name_is_found_whatever_precedes_it() {
    let (out, _) = run("#define X 5\nf(X);");
    assert_eq!(out.unwrap(), "// <main.dpl>\n\nf(5);");
}

#[test]
fn text_without_directives_keeps_its_characters() {
    let (out, messages) = run("int x = 1;");
    assert_eq!(out.unwrap(), "// <main.dpl>\nint x = 1;");
    assert!(messages.is_empty());
}

#[test]
fn define_value_is_the_replacement_text() {
    let (out, _) = run("#define X 5\n(X)");
    assert_eq!(out.unwrap(), "// <main.dpl>\n\n(5)");
}

#[test]
fn namespace_warns_about_a_defined_name() {
    let (_, messages) = run("#define A x\n#namespace A\n#spacename\n");
    assert_eq!(messages, vec!["main.dpl Line 2 Warning: #namespace identifier ' A' is already defined".to_string()]);
}
