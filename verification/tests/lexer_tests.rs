use dubious::immutable_map::ImmutableMap;
use dubious::lexer::{lex, process_escape_sequence, scan_step, LexError, LexerState, Operator, ScanMatches, Token};

fn kinds(src: &str) -> Vec<Token> {
    lex(src).unwrap().into_iter().map(|t| t.internal_tok).collect()
}

fn is_keyword(t: &Token, k: &str) -> bool {
    matches!(t, Token::Keyword(s) if s == k)
}

fn is_ident(t: &Token, k: &str) -> bool {
    matches!(t, Token::Identifier(s) if s == k)
}

#[test]
fn lex_main_function_has_ten_tokens() {
    let tokens = lex("// <main.dpl>\nfn main() { return 0; }").unwrap();
    assert_eq!(tokens.len(), 10);
    assert!(is_keyword(&tokens[0].internal_tok, "fn"));
    assert!(is_ident(&tokens[1].internal_tok, "main"));
    assert!(matches!(tokens[2].internal_tok, Token::LParen));
    assert!(matches!(tokens[3].internal_tok, Token::RParen));
    assert!(matches!(tokens[4].internal_tok, Token::LBrace));
    assert!(is_keyword(&tokens[5].internal_tok, "return"));
    assert!(matches!(tokens[6].internal_tok, Token::IntLiteral(0)));
    assert!(matches!(tokens[7].internal_tok, Token::Semicolon));
    assert!(matches!(tokens[8].internal_tok, Token::RBrace));
    assert!(matches!(tokens[9].internal_tok, Token::EOF));
    assert!(tokens.iter().all(|t| t.line == 1 && t.file == "main.dpl"));
}

#[test]
fn lex_reads_text_without_a_source_file_line() {
    let tokens = lex("fn main() { return 0; }").unwrap();
    assert_eq!(tokens.len(), 10);
    assert!(tokens.iter().all(|t| t.line == 1 && t.file.is_empty()));
    assert!(matches!(tokens[9].internal_tok, Token::EOF));
}

#[test]
fn lex_rejects_unexpected_character() {
    assert_eq!(lex("// <f>\nlet a = @;").unwrap_err(), LexError::UnexpectedCharacter('@'));
}

#[test]
fn lex_literals() {
    let t = kinds("// <f>\n0b101 0x1F 42 3.5 true false 'a' \"hi\\n\"");
    assert!(matches!(t[0], Token::BinLiteral(5)));
    assert!(matches!(t[1], Token::HexLiteral(31)));
    assert!(matches!(t[2], Token::IntLiteral(42)));
    assert!(matches!(&t[3], Token::FloatLiteral(s) if s == "3.5"));
    assert!(matches!(t[4], Token::BoolLiteral(true)));
    assert!(matches!(t[5], Token::BoolLiteral(false)));
    assert!(matches!(&t[6], Token::CharLiteral(s) if s == "a"));
    assert!(matches!(&t[7], Token::StringLiteral(s) if s == "hi\n"));
    assert!(matches!(t[8], Token::EOF));
    assert_eq!(t.len(), 9);
}

#[test]
fn lex_negative_float_is_preceded_by_plus() {
    let t = kinds("// <f>\n-1.5");
    assert!(matches!(t[0], Token::Operator(Operator::Add)));
    assert!(matches!(&t[1], Token::FloatLiteral(s) if s == "-1.5"));
    assert!(matches!(t[2], Token::EOF));
}

#[test]
fn lex_int_too_large_is_invalid() {
    assert_eq!(lex("// <f>\n99999999999999999999").unwrap_err(), LexError::InvalidLiteral);
}

#[test]
fn lex_shift_assignments_are_split() {
    let t = kinds("// <f>\na <<= b >>= c");
    assert!(is_ident(&t[0], "a"));
    assert!(matches!(t[1], Token::Operator(Operator::LeftShift)));
    assert!(matches!(t[2], Token::Operator(Operator::Assign)));
    assert!(is_ident(&t[3], "b"));
    assert!(matches!(t[4], Token::Operator(Operator::GreaterThan)));
    assert!(matches!(t[5], Token::Operator(Operator::GreaterThan)));
    assert!(matches!(t[6], Token::Operator(Operator::Assign)));
    assert!(is_ident(&t[7], "c"));
}

#[test]
fn lex_two_char_operators() {
    let t = kinds("// <f>\n== != <= && || ++ -- += -= *= /= %= &= ^= |= ^^ ::");
    let expected = [
        Operator::Equal,
        Operator::NotEqual,
        Operator::LessOrEqualThan,
        Operator::LogicalAnd,
        Operator::LogicalOr,
        Operator::Increment,
        Operator::Decrement,
        Operator::AddAssign,
        Operator::SubtractAssign,
        Operator::MultiplyAssign,
        Operator::DivideAssign,
        Operator::ModulusAssign,
        Operator::BitwiseAndAssign,
        Operator::BitwiseXorAssign,
        Operator::BitwiseOrAssign,
        Operator::LogicalXor,
        Operator::DoubleColon,
    ];
    for (i, op) in expected.iter().enumerate() {
        assert!(matches!(t[i], Token::Operator(o) if o == *op), "operator {}", i);
    }
}

#[test]
fn lex_generic_call_and_types() {
    let t = kinds("// <f>\nf:<int>(x): array");
    assert!(is_ident(&t[0], "f"));
    assert!(matches!(t[1], Token::BeginGeneric));
    assert!(matches!(&t[2], Token::PrimitiveType(s) if s == "int"));
    assert!(matches!(t[3], Token::Operator(Operator::GreaterThan)));
    assert!(matches!(t[4], Token::LParen));
    assert!(is_ident(&t[5], "x"));
    assert!(matches!(t[6], Token::RParen));
    assert!(matches!(t[7], Token::Colon));
    assert!(matches!(&t[8], Token::PrimitiveType(s) if s == "array"));
}

#[test]
fn lex_lines_follow_each_file() {
    let tokens = lex("// <a>\nx\n// <b>\ny\n// <a>\nz").unwrap();
    assert_eq!((tokens[0].line, tokens[0].file.as_str()), (1, "a"));
    assert_eq!((tokens[1].line, tokens[1].file.as_str()), (1, "b"));
    assert_eq!((tokens[2].line, tokens[2].file.as_str()), (2, "a"));
    assert!(matches!(tokens[3].internal_tok, Token::EOF));
    assert_eq!(tokens[3].line, 2);
}

#[test]
fn lex_string_with_line_break_advances_line() {
    // The line is counted on before the string's token is located.
    let tokens = lex("// <f>\n\"a\nb\" x").unwrap();
    assert_eq!(tokens[0].line, 2);
    assert_eq!(tokens[1].line, 2);
}

#[test]
fn escape_sequences_are_processed() {
    assert_eq!(process_escape_sequence("a\\nb"), "a\nb");
    assert_eq!(process_escape_sequence("\\t\\r\\0\\\\"), "\t\r\0\\");
    assert_eq!(process_escape_sequence("\\'\\\""), "'\"");
}

#[test]
fn unknown_escape_keeps_the_character() {
    assert_eq!(process_escape_sequence("\\q"), "q");
}

#[test]
fn trailing_backslash_is_kept() {
    assert_eq!(process_escape_sequence("ab\\"), "ab\\");
}

#[test]
fn immutable_map_refuses_to_replace() {
    let mut m: ImmutableMap<u64, u64> = ImmutableMap::new();
    assert!(m.insert(1, 10).is_ok());
    assert_eq!(m.insert(1, 20), Err("Cannot modify an existing key"));
    assert_eq!(m.get(&1), Some(&10));
    assert_eq!(m.get(&2), None);
}

fn no_matches() -> ScanMatches {
    ScanMatches {
        marker: None,
        bin: None,
        hex: None,
        float: None,
        integer: None,
        character: None,
        string: None,
        large_operator: None,
        operator: None,
        identifier: None,
        whitespace: None,
        primitive_type: false,
        keyword: false,
        boolean: false,
    }
}

#[test]
fn a_step_follows_the_matches_it_is_given() {
    let mut st = LexerState::new();
    let mut found = no_matches();
    found.identifier = Some((0, 2));
    found.keyword = true;
    match scan_step(&found, "if(", &mut st) {
        Ok((2, v)) => assert!(matches!(v.as_slice(), [Token::Keyword(k)] if k == "if")),
        other => panic!("{:?}", other.map(|(n, v)| (n, v.len()))),
    }
    found.keyword = false;
    match scan_step(&found, "if(", &mut st) {
        Ok((2, v)) => assert!(matches!(v.as_slice(), [Token::Identifier(k)] if k == "if")),
        other => panic!("{:?}", other.map(|(n, v)| (n, v.len()))),
    }
}

#[test]
fn a_step_reads_numbers_and_punctuation() {
    let mut st = LexerState::new();
    let mut found = no_matches();
    found.integer = Some((0, 3));
    match scan_step(&found, "123;", &mut st) {
        Ok((3, v)) => assert!(matches!(v.as_slice(), [Token::IntLiteral(123)])),
        other => panic!("{:?}", other.map(|(n, v)| (n, v.len()))),
    }
    match scan_step(&no_matches(), ";", &mut st) {
        Ok((1, v)) => assert!(matches!(v.as_slice(), [Token::Semicolon])),
        other => panic!("{:?}", other.map(|(n, v)| (n, v.len()))),
    }
    assert!(matches!(scan_step(&no_matches(), "@", &mut st), Err(LexError::UnexpectedCharacter('@'))));
}

#[test]
fn escapes_read_piece_by_piece() {
    let whole = process_escape_sequence("a\\nb\\tc");
    let pieces = format!("{}{}", process_escape_sequence("a\\n"), process_escape_sequence("b\\tc"));
    assert_eq!(whole, pieces);
    assert_eq!(whole, "a\nb\tc");
}

#[test]
fn first_value_written_stays() {
    let mut m: ImmutableMap<i32, i32> = ImmutableMap::new();
    assert!(m.insert(1, 10).is_ok());
    assert!(m.insert(2, 20).is_ok());
    assert!(m.insert(1, 11).is_err());
    assert_eq!(m.get(&1), Some(&10));
    assert_eq!(m.get(&2), Some(&20));
}

#[test]
fn upper_case_prefixes_read_as_numbers() {
    let tokens = lex("// <f>\n0B101 0X1F").unwrap();
    assert!(matches!(tokens[0].internal_tok, Token::BinLiteral(5)));
    assert!(matches!(tokens[1].internal_tok, Token::HexLiteral(31)));
    assert!(matches!(tokens[2].internal_tok, Token::EOF));
    assert_eq!(tokens[0].line, 1);
    assert_eq!(tokens[0].file, "f");
}
