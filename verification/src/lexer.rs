//! The lexer: turns preprocessed source text into a list of tokens.
use vstd::prelude::*;

use crate::pattern::{regex_compiles, regex_find, Pattern};
use crate::shared::TokenWithDebugInfo;
use crate::text::{chars_of, peek_char, push_char, skip_chars, string_from_chars};

verus! {

/// All the operators that the lexer recognizes.
#[derive(Debug, PartialEq, Eq, Structural, Clone, Copy)]
pub enum Operator {
    Add,  // +
    Subtract,  // -
    Multiply,  // *
    Divide,  // /
    Modulus,  // %
    BitwiseAnd,  // &
    BitwiseOr,  // |
    BitwiseXor,  // ^
    BitwiseNot,  // ~
    LessThan,  // <
    GreaterThan,  // >
    Assign,  // =
    LogicalAnd,  // &&
    LogicalOr,  // ||
    LogicalNot,  // !
    LogicalXor,  // ^^
    Equal,  // ==
    NotEqual,  // !=
    LessOrEqualThan,  // <=
    Increment,  // ++
    Decrement,  // --
    LeftShift,  // <<
    AddAssign,  // +=
    SubtractAssign,  // -=
    MultiplyAssign,  // *=
    DivideAssign,  // /=
    ModulusAssign,  // %=
    BitwiseAndAssign,  // &=
    BitwiseXorAssign,  // ^=
    BitwiseOrAssign,  // |=
    Comma,  // ,
    MemberAccess,  // .
    DoubleColon,  // ::
}

/// All the tokens that the lexer recognizes.
///
/// A float literal is kept as the text it was written with.
#[derive(Debug, Clone)]
pub enum Token {
    Identifier(String),
    PrimitiveType(String),
    FloatLiteral(String),
    IntLiteral(i64),
    CharLiteral(String),
    StringLiteral(String),
    BinLiteral(i64),
    HexLiteral(i64),
    BoolLiteral(bool),
    Operator(Operator),
    LParen,
    RParen,
    Comma,
    Semicolon,
    Colon,
    LBrace,
    RBrace,
    LBracket,
    RBracket,
    BeginGeneric,  // :<
    Keyword(String),
    EOF,
}

/// A token as a mathematical value: its strings taken by their characters.
pub enum SpecToken {
    Identifier(Seq<char>),
    PrimitiveType(Seq<char>),
    FloatLiteral(Seq<char>),
    IntLiteral(i64),
    CharLiteral(Seq<char>),
    StringLiteral(Seq<char>),
    BinLiteral(i64),
    HexLiteral(i64),
    BoolLiteral(bool),
    Operator(Operator),
    LParen,
    RParen,
    Comma,
    Semicolon,
    Colon,
    LBrace,
    RBrace,
    LBracket,
    RBracket,
    BeginGeneric,
    Keyword(Seq<char>),
    EOF,
}

impl View for Token {
    type V = SpecToken;

    open spec fn view(&self) -> SpecToken {
        match self {
            Token::Identifier(s) => SpecToken::Identifier(s@),
            Token::PrimitiveType(s) => SpecToken::PrimitiveType(s@),
            Token::FloatLiteral(s) => SpecToken::FloatLiteral(s@),
            Token::IntLiteral(i) => SpecToken::IntLiteral(*i),
            Token::CharLiteral(s) => SpecToken::CharLiteral(s@),
            Token::StringLiteral(s) => SpecToken::StringLiteral(s@),
            Token::BinLiteral(i) => SpecToken::BinLiteral(*i),
            Token::HexLiteral(i) => SpecToken::HexLiteral(*i),
            Token::BoolLiteral(b) => SpecToken::BoolLiteral(*b),
            Token::Operator(o) => SpecToken::Operator(*o),
            Token::LParen => SpecToken::LParen,
            Token::RParen => SpecToken::RParen,
            Token::Comma => SpecToken::Comma,
            Token::Semicolon => SpecToken::Semicolon,
            Token::Colon => SpecToken::Colon,
            Token::LBrace => SpecToken::LBrace,
            Token::RBrace => SpecToken::RBrace,
            Token::LBracket => SpecToken::LBracket,
            Token::RBracket => SpecToken::RBracket,
            Token::BeginGeneric => SpecToken::BeginGeneric,
            Token::Keyword(s) => SpecToken::Keyword(s@),
            Token::EOF => SpecToken::EOF,
        }
    }
}

impl Token {
    /// A copy of this token.
    pub fn duplicate(&self) -> (res: Token)
        ensures
            res@ == self@,
    {
        match self {
            Token::Identifier(s) => Token::Identifier(s.clone()),
            Token::PrimitiveType(s) => Token::PrimitiveType(s.clone()),
            Token::FloatLiteral(s) => Token::FloatLiteral(s.clone()),
            Token::IntLiteral(i) => Token::IntLiteral(*i),
            Token::CharLiteral(s) => Token::CharLiteral(s.clone()),
            Token::StringLiteral(s) => Token::StringLiteral(s.clone()),
            Token::BinLiteral(i) => Token::BinLiteral(*i),
            Token::HexLiteral(i) => Token::HexLiteral(*i),
            Token::BoolLiteral(b) => Token::BoolLiteral(*b),
            Token::Operator(o) => Token::Operator(*o),
            Token::LParen => Token::LParen,
            Token::RParen => Token::RParen,
            Token::Comma => Token::Comma,
            Token::Semicolon => Token::Semicolon,
            Token::Colon => Token::Colon,
            Token::LBrace => Token::LBrace,
            Token::RBrace => Token::RBrace,
            Token::LBracket => Token::LBracket,
            Token::RBracket => Token::RBracket,
            Token::BeginGeneric => Token::BeginGeneric,
            Token::Keyword(s) => Token::Keyword(s.clone()),
            Token::EOF => Token::EOF,
        }
    }
}

impl TokenWithDebugInfo<Token> {
    pub fn new(internal_tok: Token, line: usize, file: String) -> (res: TokenWithDebugInfo<Token>)
        ensures
            res.internal_tok == internal_tok,
            res.line == line,
            res.file == file,
    {
        TokenWithDebugInfo { internal_tok, line, file }
    }
}

/// The character that the escape sequence `\c` stands for.
pub open spec fn escaped_char(c: char) -> char {
    if c == 'n' {
        '\n'
    } else if c == 'r' {
        '\r'
    } else if c == 't' {
        '\t'
    } else if c == '0' {
        '\0'
    } else {
        // `\\`, `\'` and `\"` stand for the escaped character itself, and so
        // does an unknown escape.
        c
    }
}

/// `s` with each escape sequence replaced by the character it stands for. A
/// backslash that ends the text stays as it is.
pub open spec fn unescape(s: Seq<char>) -> Seq<char>
    decreases s.len(),
{
    if s.len() == 0 {
        Seq::empty()
    } else if s[0] == '\\' && s.len() > 1 {
        seq![escaped_char(s[1])] + unescape(s.skip(2))
    } else {
        seq![s[0]] + unescape(s.skip(1))
    }
}

/// Whether reading the escape sequences of `s` from its start ends at its
/// end: `s` does not end with a backslash that begins an escape.
pub open spec fn escapes_closed(s: Seq<char>) -> bool
    decreases s.len(),
{
    if s.len() == 0 {
        true
    } else if s[0] == '\\' {
        s.len() > 1 && escapes_closed(s.skip(2))
    } else {
        escapes_closed(s.skip(1))
    }
}

/// Replacing escape sequences distributes over concatenation where the
/// first text splits no escape sequence: the text `a + b` reads as `a` and
/// then `b`.
pub proof fn lemma_unescape_concat(a: Seq<char>, b: Seq<char>)
    requires
        escapes_closed(a),
    ensures
        unescape(a + b) == unescape(a) + unescape(b),
    decreases a.len(),
{
    if a.len() == 0 {
        assert(a + b =~= b);
        assert(unescape(a) =~= Seq::<char>::empty());
        assert(Seq::<char>::empty() + unescape(b) =~= unescape(b));
    } else if a[0] == '\\' {
        lemma_unescape_concat(a.skip(2), b);
        assert((a + b).skip(2) =~= a.skip(2) + b);
        assert((a + b)[0] == a[0] && (a + b)[1] == a[1]);
        assert(unescape(a + b) =~= unescape(a) + unescape(b));
    } else {
        lemma_unescape_concat(a.skip(1), b);
        assert((a + b).skip(1) =~= a.skip(1) + b);
        assert((a + b)[0] == a[0]);
        assert(unescape(a + b) =~= unescape(a) + unescape(b));
    }
}

/// Replaces the escape sequences of a string or character literal.
pub fn process_escape_sequence(s: &str) -> (res: String)
    ensures
        res@ == unescape(s@),
{
    let chars = chars_of(s);
    let mut processed = String::new();
    let mut i: usize = 0;
    assert(s@.skip(0) =~= s@);
    while i < chars.len()
        invariant
            chars@ == s@,
            i <= chars.len(),
            unescape(s@) == processed@ + unescape(s@.skip(i as int)),
        decreases chars.len() - i,
    {
        let c = chars[i];
        assert(s@.skip(i as int)[0] == c);
        if c == '\\' && i + 1 < chars.len() {
            let e = chars[i + 1];
            let r = if e == 'n' {
                '\n'
            } else if e == 'r' {
                '\r'
            } else if e == 't' {
                '\t'
            } else if e == '0' {
                '\0'
            } else {
                e
            };
            assert(s@.skip(i as int).skip(2) =~= s@.skip(i + 2));
            assert(s@.skip(i as int)[1] == e);
            push_char(&mut processed, r);
            i = i + 2;
        } else {
            assert(s@.skip(i as int).skip(1) =~= s@.skip(i + 1));
            push_char(&mut processed, c);
            i = i + 1;
        }
    }
    assert(s@.skip(i as int) =~= Seq::<char>::empty());
    processed
}


// The regular expressions that decide the tokens.
pub const IDENTIFIER_RE: &'static str = r"^[a-zA-Z_][a-zA-Z0-9_]*";
pub const PRIMITIVE_TYPE_RE: &'static str = r"^(int|float|bool|char|str|void|array)$";
pub const FLOAT_RE: &'static str = r"^-?\d+\.\d+";
pub const INT_RE: &'static str = r"^\d+";
pub const BIN_RE: &'static str = r"^0[bB][01]+";
pub const HEX_RE: &'static str = r"^0[xX][0-9a-fA-F]+";
pub const BOOL_RE: &'static str = r"^(true|false)$";
pub const OPERATOR_RE: &'static str = r"^[\+\-\*/%\^&~\|<>=!\.,]";
pub const LARGE_OPERATOR_RE: &'static str =
    r"^(==|!=|<=|&&|\|\||\+\+|--|<<=|<<|\+=|-=|\*=|\/=|%=|&=|\^=|\|=|\^\^|::)";
pub const KEYWORD_RE: &'static str =
    r"^(if|else|do|while|for|loop|return|fn|let|break|continue|const|struct|enum|asm|namespace|spacename)$";
pub const WHITESPACE_RE: &'static str = r"^[^\S\n]+";
pub const CHAR_RE: &'static str = r"^'(?:\\.|[^\\']){0,8}'";
pub const STRING_RE: &'static str = r#"^"(?:\\.|[^\\"])*""#;
/// The line `// <file>` by which the preprocessor marks where the text of a
/// file begins.
pub const IMPORTED_CODE_RE: &'static str = r"^//\s<.*>\n";

/// Whether the `regex` crate accepts every pattern of the lexer.
pub open spec fn patterns_compile() -> bool {
    &&& regex_compiles(IDENTIFIER_RE@)
    &&& regex_compiles(PRIMITIVE_TYPE_RE@)
    &&& regex_compiles(FLOAT_RE@)
    &&& regex_compiles(INT_RE@)
    &&& regex_compiles(BIN_RE@)
    &&& regex_compiles(HEX_RE@)
    &&& regex_compiles(BOOL_RE@)
    &&& regex_compiles(OPERATOR_RE@)
    &&& regex_compiles(LARGE_OPERATOR_RE@)
    &&& regex_compiles(KEYWORD_RE@)
    &&& regex_compiles(WHITESPACE_RE@)
    &&& regex_compiles(CHAR_RE@)
    &&& regex_compiles(STRING_RE@)
    &&& regex_compiles(IMPORTED_CODE_RE@)
}

/// Why the lexer stopped.
#[derive(Debug, Clone, Copy, PartialEq, Eq, Structural)]
pub enum LexError {
    /// No token starts with this character.
    UnexpectedCharacter(char),
    /// A token was found in a file that the line table does not hold.
    NoSourceFile,
    /// A number the literal does not denote as an `i64`, or a float literal
    /// that is not written with ASCII digits.
    InvalidLiteral,
    /// The `regex` crate refused one of the lexer's patterns.
    InvalidPattern,
    /// A pattern matched in a way its text rules out, such as an empty match.
    Internal,
}

/// The value of the digit `c` in base `radix`, if it is one.
pub open spec fn digit_value(c: char, radix: nat) -> Option<nat> {
    let v: int = if '0' <= c <= '9' {
        c as int - '0' as int
    } else if 'a' <= c <= 'f' {
        c as int - 'a' as int + 10
    } else if 'A' <= c <= 'F' {
        c as int - 'A' as int + 10
    } else {
        radix as int
    };
    if v < radix {
        Some(v as nat)
    } else {
        None
    }
}

/// The number that the digits `s` write in base `radix` (0 for no digits).
pub open spec fn digits_value(s: Seq<char>, radix: nat) -> Option<nat>
    decreases s.len(),
{
    if s.len() == 0 {
        Some(0)
    } else {
        match (digits_value(s.drop_last(), radix), digit_value(s.last(), radix)) {
            (Some(v), Some(d)) => Some(v * radix + d),
            _ => None,
        }
    }
}

/// The `i64` that the non-empty digits `s` write in base `radix`.
pub open spec fn number_value(s: Seq<char>, radix: nat) -> Option<i64> {
    if s.len() == 0 {
        None
    } else {
        match digits_value(s, radix) {
            Some(v) => if v <= i64::MAX {
                Some(v as i64)
            } else {
                None
            },
            None => None,
        }
    }
}

/// The value of a literal `0<marker><digits>` in base `radix`, where the
/// marker is written in lower case (`marker`) or in upper case (`upper`).
pub open spec fn prefixed_number_value(m: Seq<char>, marker: char, upper: char, radix: nat) -> Option<i64> {
    if m.len() >= 2 && m[0] == '0' && (m[1] == marker || m[1] == upper) {
        number_value(m.skip(2), radix)
    } else {
        None
    }
}

/// Whether every character of `s` is ASCII.
pub open spec fn all_ascii(s: Seq<char>) -> bool {
    forall|i: int| 0 <= i < s.len() ==> (s[i] as u32) < 128
}

/// Whether the float written `m` is below zero: it has a minus sign and a
/// digit other than zero.
pub open spec fn float_is_negative(m: Seq<char>) -> bool {
    m.len() > 0 && m[0] == '-' && exists|i: int| 1 <= i < m.len() && #[trigger] nonzero_digit(m[i])
}

/// Whether `c` is one of the digits 1 to 9.
pub open spec fn nonzero_digit(c: char) -> bool {
    '1' <= c && c <= '9'
}

/// How often `c` occurs in `s`.
pub open spec fn count_char(s: Seq<char>, c: char) -> nat
    decreases s.len(),
{
    if s.len() == 0 {
        0
    } else {
        count_char(s.drop_last(), c) + if s.last() == c {
            1nat
        } else {
            0nat
        }
    }
}

/// Whether `s` begins with `p`.
pub open spec fn starts_with(s: Seq<char>, p: Seq<char>) -> bool {
    p.len() <= s.len() && s.take(p.len() as int) == p
}

/// Whether `s` ends with `p`.
pub open spec fn ends_with(s: Seq<char>, p: Seq<char>) -> bool {
    p.len() <= s.len() && s.skip(s.len() - p.len()) == p
}

/// `s` without all the repetitions of `p` at its start.
pub open spec fn trim_start_all(s: Seq<char>, p: Seq<char>) -> Seq<char>
    decreases s.len(),
{
    if p.len() > 0 && starts_with(s, p) {
        trim_start_all(s.skip(p.len() as int), p)
    } else {
        s
    }
}

/// `s` without all the repetitions of `p` at its end.
pub open spec fn trim_end_all(s: Seq<char>, p: Seq<char>) -> Seq<char>
    decreases s.len(),
{
    if p.len() > 0 && ends_with(s, p) {
        trim_end_all(s.take(s.len() - p.len()), p)
    } else {
        s
    }
}

/// The file that a `// <file>` line names.
pub open spec fn marker_name(m: Seq<char>) -> Seq<char> {
    trim_end_all(trim_start_all(m, marker_open()), marker_close())
}

/// The text `// <` that opens a `// <file>` line.
pub open spec fn marker_open() -> Seq<char> {
    seq!['/', '/', ' ', '<']
}

/// The text `>` and newline that closes a `// <file>` line.
pub open spec fn marker_close() -> Seq<char> {
    seq!['>', '\n']
}

/// How the operator `o` is spelled in DPL source.
pub open spec fn operator_spelling(o: Operator) -> Seq<char> {
    match o {
        Operator::Add => seq!['+'],
        Operator::Subtract => seq!['-'],
        Operator::Multiply => seq!['*'],
        Operator::Divide => seq!['/'],
        Operator::Modulus => seq!['%'],
        Operator::BitwiseAnd => seq!['&'],
        Operator::BitwiseOr => seq!['|'],
        Operator::BitwiseXor => seq!['^'],
        Operator::BitwiseNot => seq!['~'],
        Operator::LessThan => seq!['<'],
        Operator::GreaterThan => seq!['>'],
        Operator::Assign => seq!['='],
        Operator::LogicalAnd => seq!['&', '&'],
        Operator::LogicalOr => seq!['|', '|'],
        Operator::LogicalNot => seq!['!'],
        Operator::LogicalXor => seq!['^', '^'],
        Operator::Equal => seq!['=', '='],
        Operator::NotEqual => seq!['!', '='],
        Operator::LessOrEqualThan => seq!['<', '='],
        Operator::Increment => seq!['+', '+'],
        Operator::Decrement => seq!['-', '-'],
        Operator::LeftShift => seq!['<', '<'],
        Operator::AddAssign => seq!['+', '='],
        Operator::SubtractAssign => seq!['-', '='],
        Operator::MultiplyAssign => seq!['*', '='],
        Operator::DivideAssign => seq!['/', '='],
        Operator::ModulusAssign => seq!['%', '='],
        Operator::BitwiseAndAssign => seq!['&', '='],
        Operator::BitwiseXorAssign => seq!['^', '='],
        Operator::BitwiseOrAssign => seq!['|', '='],
        Operator::Comma => seq![','],
        Operator::MemberAccess => seq!['.'],
        Operator::DoubleColon => seq![':', ':'],
    }
}

/// The lexer reads each operator from its own spelling: an operator read
/// from one character (or two) is spelled with exactly that character (or
/// those two). So different characters never give the same operator.
pub proof fn lemma_operators_read_as_spelled(c: char, a: char, b: char)
    ensures
        single_operator(c) matches Some(o) ==> operator_spelling(o) == seq![c],
        double_operator(a, b) matches Some(o) ==> operator_spelling(o) == seq![a, b],
{
}

/// The operator written with the single character `c`.
pub open spec fn single_operator(c: char) -> Option<Operator> {
    if c == '+' {
        Some(Operator::Add)
    } else if c == '-' {
        Some(Operator::Subtract)
    } else if c == '*' {
        Some(Operator::Multiply)
    } else if c == '/' {
        Some(Operator::Divide)
    } else if c == '%' {
        Some(Operator::Modulus)
    } else if c == '&' {
        Some(Operator::BitwiseAnd)
    } else if c == '|' {
        Some(Operator::BitwiseOr)
    } else if c == '<' {
        Some(Operator::LessThan)
    } else if c == '>' {
        Some(Operator::GreaterThan)
    } else if c == '=' {
        Some(Operator::Assign)
    } else if c == '!' {
        Some(Operator::LogicalNot)
    } else if c == '~' {
        Some(Operator::BitwiseNot)
    } else if c == '^' {
        Some(Operator::BitwiseXor)
    } else if c == ',' {
        Some(Operator::Comma)
    } else if c == '.' {
        Some(Operator::MemberAccess)
    } else {
        None
    }
}

/// The operator written with the two characters `a` and `b`.
pub open spec fn double_operator(a: char, b: char) -> Option<Operator> {
    if a == '=' && b == '=' {
        Some(Operator::Equal)
    } else if a == '!' && b == '=' {
        Some(Operator::NotEqual)
    } else if a == '<' && b == '=' {
        Some(Operator::LessOrEqualThan)
    } else if a == '&' && b == '&' {
        Some(Operator::LogicalAnd)
    } else if a == '|' && b == '|' {
        Some(Operator::LogicalOr)
    } else if a == '+' && b == '+' {
        Some(Operator::Increment)
    } else if a == '-' && b == '-' {
        Some(Operator::Decrement)
    } else if a == '<' && b == '<' {
        Some(Operator::LeftShift)
    } else if a == '+' && b == '=' {
        Some(Operator::AddAssign)
    } else if a == '-' && b == '=' {
        Some(Operator::SubtractAssign)
    } else if a == '*' && b == '=' {
        Some(Operator::MultiplyAssign)
    } else if a == '/' && b == '=' {
        Some(Operator::DivideAssign)
    } else if a == '%' && b == '=' {
        Some(Operator::ModulusAssign)
    } else if a == '&' && b == '=' {
        Some(Operator::BitwiseAndAssign)
    } else if a == '^' && b == '=' {
        Some(Operator::BitwiseXorAssign)
    } else if a == '|' && b == '=' {
        Some(Operator::BitwiseOrAssign)
    } else if a == '^' && b == '^' {
        Some(Operator::LogicalXor)
    } else if a == ':' && b == ':' {
        Some(Operator::DoubleColon)
    } else {
        None
    }
}

/// The token that a run of identifier characters `m` stands for: a primitive
/// type, a keyword, a boolean literal or an identifier.
pub open spec fn word_token(m: Seq<char>) -> SpecToken {
    word_token_given(
        m,
        regex_find(PRIMITIVE_TYPE_RE@, m) is Some,
        regex_find(KEYWORD_RE@, m) is Some,
        regex_find(BOOL_RE@, m) is Some,
    )
}

/// The token that a run of identifier characters `m` stands for, where
/// `primitive`, `keyword` and `boolean` say whether `m` matches the pattern
/// of a primitive type, a keyword and a boolean literal.
pub open spec fn word_token_given(m: Seq<char>, primitive: bool, keyword: bool, boolean: bool) -> SpecToken {
    if primitive {
        SpecToken::PrimitiveType(m)
    } else if keyword {
        SpecToken::Keyword(m)
    } else if boolean {
        SpecToken::BoolLiteral(m == "true"@)
    } else {
        SpecToken::Identifier(m)
    }
}

/// Where the lexer stands: the file whose text it reads, and the current line
/// of each file it has seen.
pub struct LexState {
    pub file: Seq<char>,
    pub lines: Map<Seq<char>, nat>,
}

/// The current line, if the current file has one.
pub open spec fn current_line(st: LexState) -> Option<nat> {
    if st.lines.contains_key(st.file) {
        Some(st.lines[st.file])
    } else {
        None
    }
}

/// `st` moved `n` lines on in the current file, if that file has a line.
pub open spec fn advance_lines(st: LexState, n: nat) -> LexState {
    if st.lines.contains_key(st.file) {
        LexState { file: st.file, lines: st.lines.insert(st.file, st.lines[st.file] + n) }
    } else {
        st
    }
}

/// What the lexer does at the start of `rest`: the tokens it emits, the number
/// of characters it consumes and the state it moves to; or why it stops.
pub enum Scan {
    Step(Seq<SpecToken>, int, LexState),
    Fail(LexError),
}

/// Where the lexer's patterns match at the start of a text (the spans of
/// their first matches), and, for the identifier pattern's match, whether its
/// text matches the primitive type, keyword and boolean patterns.
pub struct ScanMatches {
    pub marker: Option<(usize, usize)>,
    pub bin: Option<(usize, usize)>,
    pub hex: Option<(usize, usize)>,
    pub float: Option<(usize, usize)>,
    pub integer: Option<(usize, usize)>,
    pub character: Option<(usize, usize)>,
    pub string: Option<(usize, usize)>,
    pub large_operator: Option<(usize, usize)>,
    pub operator: Option<(usize, usize)>,
    pub identifier: Option<(usize, usize)>,
    pub whitespace: Option<(usize, usize)>,
    pub primitive_type: bool,
    pub keyword: bool,
    pub boolean: bool,
}

/// Whether each span of `m` lies within a text of length `len`.
pub open spec fn matches_fit(m: ScanMatches, len: nat) -> bool {
    &&& m.marker matches Some((s, e)) ==> s <= e <= len
    &&& m.bin matches Some((s, e)) ==> s <= e <= len
    &&& m.hex matches Some((s, e)) ==> s <= e <= len
    &&& m.float matches Some((s, e)) ==> s <= e <= len
    &&& m.integer matches Some((s, e)) ==> s <= e <= len
    &&& m.character matches Some((s, e)) ==> s <= e <= len
    &&& m.string matches Some((s, e)) ==> s <= e <= len
    &&& m.large_operator matches Some((s, e)) ==> s <= e <= len
    &&& m.operator matches Some((s, e)) ==> s <= e <= len
    &&& m.identifier matches Some((s, e)) ==> s <= e <= len
    &&& m.whitespace matches Some((s, e)) ==> s <= e <= len
}

/// What the `regex` crate finds for the lexer's patterns at the start of
/// `rest`.
pub open spec fn regex_matches(rest: Seq<char>) -> ScanMatches {
    let word = match regex_find(IDENTIFIER_RE@, rest) {
        Some((s, e)) => rest.subrange(s as int, e as int),
        None => Seq::empty(),
    };
    let found = regex_find(IDENTIFIER_RE@, rest) is Some;
    ScanMatches {
        marker: regex_find(IMPORTED_CODE_RE@, rest),
        bin: regex_find(BIN_RE@, rest),
        hex: regex_find(HEX_RE@, rest),
        float: regex_find(FLOAT_RE@, rest),
        integer: regex_find(INT_RE@, rest),
        character: regex_find(CHAR_RE@, rest),
        string: regex_find(STRING_RE@, rest),
        large_operator: regex_find(LARGE_OPERATOR_RE@, rest),
        operator: regex_find(OPERATOR_RE@, rest),
        identifier: regex_find(IDENTIFIER_RE@, rest),
        whitespace: regex_find(WHITESPACE_RE@, rest),
        primitive_type: found && regex_find(PRIMITIVE_TYPE_RE@, word) is Some,
        keyword: found && regex_find(KEYWORD_RE@, word) is Some,
        boolean: found && regex_find(BOOL_RE@, word) is Some,
    }
}

/// One step of the lexer at the start of the non-empty text `rest`.
pub open spec fn scan(rest: Seq<char>, st: LexState) -> Scan {
    scan_given(rest, regex_matches(rest), st)
}

/// One step of the lexer at the start of the non-empty text `rest`, where
/// its patterns match as `found` says.
pub open spec fn scan_given(rest: Seq<char>, found: ScanMatches, st: LexState) -> Scan {
    let c = rest[0];
    let second = if rest.len() >= 2 {
        rest[1]
    } else {
        ' '
    };
    if c == '/' && second == '/' && found.marker is Some {
        let (s, e) = found.marker->0;
        let f = marker_name(rest.subrange(s as int, e as int));
        let lines = if st.lines.contains_key(f) {
            st.lines
        } else {
            st.lines.insert(f, 1)
        };
        Scan::Step(Seq::empty(), e as int, LexState { file: f, lines })
    } else if c == '\n' {
        Scan::Step(Seq::empty(), 1, advance_lines(st, 1))
    } else if c == '(' {
        Scan::Step(seq![SpecToken::LParen], 1, st)
    } else if c == ')' {
        Scan::Step(seq![SpecToken::RParen], 1, st)
    } else if c == ',' {
        Scan::Step(seq![SpecToken::Comma], 1, st)
    } else if c == ';' {
        Scan::Step(seq![SpecToken::Semicolon], 1, st)
    } else if c == '{' {
        Scan::Step(seq![SpecToken::LBrace], 1, st)
    } else if c == '}' {
        Scan::Step(seq![SpecToken::RBrace], 1, st)
    } else if c == '[' {
        Scan::Step(seq![SpecToken::LBracket], 1, st)
    } else if c == ']' {
        Scan::Step(seq![SpecToken::RBracket], 1, st)
    } else if c == '0' && found.bin is Some {
        let (s, e) = found.bin->0;
        match prefixed_number_value(rest.subrange(s as int, e as int), 'b', 'B', 2) {
            Some(v) => Scan::Step(seq![SpecToken::BinLiteral(v)], e as int, st),
            None => Scan::Fail(LexError::InvalidLiteral),
        }
    } else if c == '0' && found.hex is Some {
        let (s, e) = found.hex->0;
        match prefixed_number_value(rest.subrange(s as int, e as int), 'x', 'X', 16) {
            Some(v) => Scan::Step(seq![SpecToken::HexLiteral(v)], e as int, st),
            None => Scan::Fail(LexError::InvalidLiteral),
        }
    } else if found.float is Some {
        let (s, e) = found.float->0;
        let m = rest.subrange(s as int, e as int);
        if !all_ascii(m) {
            Scan::Fail(LexError::InvalidLiteral)
        } else if float_is_negative(m) {
            Scan::Step(
                seq![SpecToken::Operator(Operator::Add), SpecToken::FloatLiteral(m)],
                e as int,
                st,
            )
        } else {
            Scan::Step(seq![SpecToken::FloatLiteral(m)], e as int, st)
        }
    } else if found.integer is Some {
        let (s, e) = found.integer->0;
        match number_value(rest.subrange(s as int, e as int), 10) {
            Some(v) => Scan::Step(seq![SpecToken::IntLiteral(v)], e as int, st),
            None => Scan::Fail(LexError::InvalidLiteral),
        }
    } else if c == '\'' && found.character is Some {
        let (s, e) = found.character->0;
        let m = rest.subrange(s as int, e as int);
        if m.len() >= 2 && m[0] == '\'' && m.last() == '\'' {
            Scan::Step(
                seq![SpecToken::CharLiteral(unescape(m.subrange(1, m.len() - 1)))],
                e as int,
                advance_lines(st, count_char(m, '\n')),
            )
        } else {
            Scan::Fail(LexError::Internal)
        }
    } else if c == '"' && found.string is Some {
        let (s, e) = found.string->0;
        let m = rest.subrange(s as int, e as int);
        if m.len() >= 2 && m[0] == '"' && m.last() == '"' {
            Scan::Step(
                seq![SpecToken::StringLiteral(unescape(m.subrange(1, m.len() - 1)))],
                e as int,
                advance_lines(st, count_char(m, '\n')),
            )
        } else {
            Scan::Fail(LexError::Internal)
        }
    } else if found.large_operator is Some {
        if rest.len() >= 2 && double_operator(c, second) is Some {
            Scan::Step(seq![SpecToken::Operator(double_operator(c, second)->0)], 2, st)
        } else {
            Scan::Fail(LexError::Internal)
        }
    } else if found.operator is Some {
        match single_operator(c) {
            Some(op) => Scan::Step(seq![SpecToken::Operator(op)], 1, st),
            None => Scan::Fail(LexError::Internal),
        }
    } else if c == ':' && second == '<' {
        Scan::Step(seq![SpecToken::BeginGeneric], 2, st)
    } else if c == ':' {
        Scan::Step(seq![SpecToken::Colon], 1, st)
    } else if found.identifier is Some {
        let (s, e) = found.identifier->0;
        Scan::Step(seq![word_token_given(rest.subrange(s as int, e as int), found.primitive_type, found.keyword, found.boolean)], e as int, st)
    } else if found.whitespace is Some {
        let (s, e) = found.whitespace->0;
        Scan::Step(Seq::empty(), e as int, st)
    } else {
        Scan::Fail(LexError::UnexpectedCharacter(c))
    }
}

/// A lexed token as a mathematical value: the token, its line and its file.
pub type TokenView = (SpecToken, nat, Seq<char>);

/// The tokens `ts`, each found at `line` of `file`.
pub open spec fn located(ts: Seq<SpecToken>, line: nat, file: Seq<char>) -> Seq<TokenView> {
    ts.map_values(|t: SpecToken| (t, line, file))
}

/// `tokens` put in front of what `r` lexes, if it lexes.
pub open spec fn prepend(tokens: Seq<TokenView>, r: Result<Seq<TokenView>, LexError>) -> Result<
    Seq<TokenView>,
    LexError,
> {
    match r {
        Ok(ts) => Ok(tokens + ts),
        Err(e) => Err(e),
    }
}

/// The tokens of `rest`, lexed from state `st`, ending with `EOF`.
pub open spec fn lex_from(rest: Seq<char>, st: LexState) -> Result<Seq<TokenView>, LexError>
    decreases rest.len(),
{
    if rest.len() == 0 {
        match current_line(st) {
            Some(l) => Ok(seq![(SpecToken::EOF, l, st.file)]),
            None => Err(LexError::NoSourceFile),
        }
    } else {
        match scan(rest, st) {
            Scan::Fail(e) => Err(e),
            Scan::Step(ts, n, st2) => if 0 < n <= rest.len() {
                if ts.len() == 0 {
                    lex_from(rest.skip(n), st2)
                } else {
                    match current_line(st2) {
                        Some(l) => prepend(located(ts, l, st2.file), lex_from(rest.skip(n), st2)),
                        None => Err(LexError::NoSourceFile),
                    }
                }
            } else {
                Err(LexError::Internal)
            },
        }
    }
}

/// Where the lexer starts: in the file with no name, which text before any
/// `// <file>` line belongs to, at its line 1.
pub open spec fn start_state() -> LexState {
    LexState { file: Seq::empty(), lines: Map::empty().insert(Seq::empty(), 1) }
}

/// The tokens of `text`, as the lexer finds them.
pub open spec fn spec_lex(text: Seq<char>) -> Result<Seq<TokenView>, LexError> {
    if patterns_compile() {
        lex_from(text, start_state())
    } else {
        Err(LexError::InvalidPattern)
    }
}

/// A token list as a mathematical value.
pub open spec fn tokens_view(ts: Seq<TokenWithDebugInfo<Token>>) -> Seq<TokenView> {
    ts.map_values(|t: TokenWithDebugInfo<Token>| (t.internal_tok@, t.line as nat, t.file@))
}

/// A lexer result as a mathematical value.
pub open spec fn lex_result_view(r: Result<Vec<TokenWithDebugInfo<Token>>, LexError>) -> Result<
    Seq<TokenView>,
    LexError,
> {
    match r {
        Ok(v) => Ok(tokens_view(v@)),
        Err(e) => Err(e),
    }
}


/// The lexer's patterns, compiled.
pub struct Patterns {
    identifier: Pattern,
    primitive_type: Pattern,
    float: Pattern,
    integer: Pattern,
    bin: Pattern,
    hex: Pattern,
    boolean: Pattern,
    operator: Pattern,
    large_operator: Pattern,
    keyword: Pattern,
    whitespace: Pattern,
    character: Pattern,
    string: Pattern,
    imported_code: Pattern,
}

impl Patterns {
    /// Each field holds the pattern its name says.
    pub closed spec fn wf(&self) -> bool {
        &&& self.identifier.source() == IDENTIFIER_RE@
        &&& self.primitive_type.source() == PRIMITIVE_TYPE_RE@
        &&& self.float.source() == FLOAT_RE@
        &&& self.integer.source() == INT_RE@
        &&& self.bin.source() == BIN_RE@
        &&& self.hex.source() == HEX_RE@
        &&& self.boolean.source() == BOOL_RE@
        &&& self.operator.source() == OPERATOR_RE@
        &&& self.large_operator.source() == LARGE_OPERATOR_RE@
        &&& self.keyword.source() == KEYWORD_RE@
        &&& self.whitespace.source() == WHITESPACE_RE@
        &&& self.character.source() == CHAR_RE@
        &&& self.string.source() == STRING_RE@
        &&& self.imported_code.source() == IMPORTED_CODE_RE@
    }

    /// Compiles the lexer's patterns; `None` if the `regex` crate refuses one.
    pub fn compile() -> (res: Option<Patterns>)
        ensures
            res is Some <==> patterns_compile(),
            res matches Some(p) ==> p.wf(),
    {
        let identifier = match Pattern::new(IDENTIFIER_RE) {
            Some(p) => p,
            None => return None,
        };
        let primitive_type = match Pattern::new(PRIMITIVE_TYPE_RE) {
            Some(p) => p,
            None => return None,
        };
        let float = match Pattern::new(FLOAT_RE) {
            Some(p) => p,
            None => return None,
        };
        let integer = match Pattern::new(INT_RE) {
            Some(p) => p,
            None => return None,
        };
        let bin = match Pattern::new(BIN_RE) {
            Some(p) => p,
            None => return None,
        };
        let hex = match Pattern::new(HEX_RE) {
            Some(p) => p,
            None => return None,
        };
        let boolean = match Pattern::new(BOOL_RE) {
            Some(p) => p,
            None => return None,
        };
        let operator = match Pattern::new(OPERATOR_RE) {
            Some(p) => p,
            None => return None,
        };
        let large_operator = match Pattern::new(LARGE_OPERATOR_RE) {
            Some(p) => p,
            None => return None,
        };
        let keyword = match Pattern::new(KEYWORD_RE) {
            Some(p) => p,
            None => return None,
        };
        let whitespace = match Pattern::new(WHITESPACE_RE) {
            Some(p) => p,
            None => return None,
        };
        let character = match Pattern::new(CHAR_RE) {
            Some(p) => p,
            None => return None,
        };
        let string = match Pattern::new(STRING_RE) {
            Some(p) => p,
            None => return None,
        };
        let imported_code = match Pattern::new(IMPORTED_CODE_RE) {
            Some(p) => p,
            None => return None,
        };
        Some(
            Patterns {
                identifier,
                primitive_type,
                float,
                integer,
                bin,
                hex,
                boolean,
                operator,
                large_operator,
                keyword,
                whitespace,
                character,
                string,
                imported_code,
            },
        )
    }
}

/// The current line of each file the lexer has seen.
struct LineTable {
    entries: Vec<(String, usize)>,
    model: Ghost<Map<Seq<char>, nat>>,
}

impl LineTable {
    /// Each file occurs once, and `model` maps each file to its line.
    spec fn wf(&self) -> bool {
        &&& forall|i: int, j: int|
            0 <= i < j < self.entries@.len() ==> self.entries@[i].0@ != self.entries@[j].0@
        &&& forall|i: int|
            0 <= i < self.entries@.len() ==> #[trigger] self.model@.contains_key(
                self.entries@[i].0@,
            ) && self.model@[self.entries@[i].0@] == self.entries@[i].1 as nat
        &&& forall|k: Seq<char>|
            #[trigger] self.model@.contains_key(k) ==> exists|i: int|
                0 <= i < self.entries@.len() && self.entries@[i].0@ == k
    }

    fn new() -> (res: LineTable)
        ensures
            res.wf(),
            res.model@ == Map::<Seq<char>, nat>::empty(),
    {
        LineTable { entries: Vec::new(), model: Ghost(Map::empty()) }
    }

    /// Where `file` stands in the table.
    fn index_of(&self, file: &String) -> (res: Option<usize>)
        requires
            self.wf(),
        ensures
            match res {
                Some(i) => i < self.entries@.len() && self.entries@[i as int].0@ == file@,
                None => !self.model@.contains_key(file@),
            },
    {
        let mut i: usize = 0;
        while i < self.entries.len()
            invariant
                self.wf(),
                i <= self.entries@.len(),
                forall|j: int| 0 <= j < i ==> self.entries@[j].0@ != file@,
            decreases self.entries@.len() - i,
        {
            if self.entries[i].0 == *file {
                return Some(i);
            }
            i = i + 1;
        }
        None
    }

    /// The current line of `file`, if the table has it.
    fn line(&self, file: &String) -> (res: Option<usize>)
        requires
            self.wf(),
        ensures
            match res {
                Some(l) => self.model@.contains_key(file@) && self.model@[file@] == l as nat,
                None => !self.model@.contains_key(file@),
            },
    {
        match self.index_of(file) {
            Some(i) => {
                assert(self.model@.contains_key(self.entries@[i as int].0@));
                Some(self.entries[i].1)
            },
            None => None,
        }
    }

    /// Adds `file` at line 1, unless the table has it.
    fn add_file(&mut self, file: &String)
        requires
            old(self).wf(),
        ensures
            final(self).wf(),
            final(self).model@ == if old(self).model@.contains_key(file@) {
                old(self).model@
            } else {
                old(self).model@.insert(file@, 1)
            },
    {
        if self.index_of(file).is_none() {
            let ghost old_entries = self.entries@;
            self.entries.push((file.clone(), 1));
            self.model = Ghost(self.model@.insert(file@, 1));
            assert forall|k: Seq<char>| #[trigger] self.model@.contains_key(k) implies exists|i: int|
                0 <= i < self.entries@.len() && self.entries@[i].0@ == k by {
                if k != file@ {
                    assert(old(self).model@.contains_key(k));
                    let i = choose|i: int| 0 <= i < old_entries.len() && old_entries[i].0@ == k;
                    assert(self.entries@[i] == old_entries[i]);
                } else {
                    assert(self.entries@[old_entries.len() as int].0@ == k);
                }
            }
        }
    }

    /// Moves the line of `file` on by `n`, if the table has `file`.
    fn advance(&mut self, file: &String, n: usize)
        requires
            old(self).wf(),
            old(self).model@.contains_key(file@) ==> old(self).model@[file@] + n
                <= usize::MAX,
        ensures
            final(self).wf(),
            final(self).model@ == if old(self).model@.contains_key(file@) {
                old(self).model@.insert(file@, (old(self).model@[file@] + n) as nat)
            } else {
                old(self).model@
            },
    {
        match self.index_of(file) {
            Some(i) => {
                assert(self.model@.contains_key(self.entries@[i as int].0@));
                let ghost old_entries = self.entries@;
                let name = self.entries[i].0.clone();
                let l = self.entries[i].1;
                let ghost new_model = self.model@.insert(file@, (self.model@[file@] + n) as nat);
                self.entries.set(i, (name, l + n));
                self.model = Ghost(new_model);
                assert forall|k: Seq<char>| #[trigger] self.model@.contains_key(k) implies exists|
                    j: int,
                | 0 <= j < self.entries@.len() && self.entries@[j].0@ == k by {
                    if k != file@ {
                        assert(old(self).model@.contains_key(k));
                        let j = choose|j: int| 0 <= j < old_entries.len() && old_entries[j].0@ == k;
                        assert(self.entries@[j] == old_entries[j]);
                    } else {
                        assert(self.entries@[i as int].0@ == k);
                    }
                }
                assert forall|j: int| 0 <= j < self.entries@.len() implies #[trigger] self.model@.contains_key(
                    self.entries@[j].0@,
                ) && self.model@[self.entries@[j].0@] == self.entries@[j].1 as nat by {
                    if j != i {
                        assert(self.entries@[j] == old_entries[j]);
                        assert(old(self).model@.contains_key(old_entries[j].0@));
                    }
                }
            },
            None => {},
        }
    }
}


/// A prefix of digits that has no value has no longer extension with one; and
/// a longer prefix has at least the value of a shorter one.
proof fn lemma_digits_prefix(s: Seq<char>, i: int, j: int, radix: nat)
    requires
        0 <= i <= j <= s.len(),
    ensures
        digits_value(s.take(i), radix) is None ==> digits_value(s.take(j), radix) is None,
        digits_value(s.take(j), radix) matches Some(b) ==> digits_value(s.take(i), radix) matches Some(
            a,
        ) && a <= b,
    decreases j - i,
{
    if i < j {
        lemma_digits_prefix(s, i, j - 1, radix);
        assert(s.take(j).drop_last() =~= s.take(j - 1));
        if let Some(b) = digits_value(s.take(j), radix) {
            let a = digits_value(s.take(j - 1), radix)->0;
            let d = digit_value(s.take(j).last(), radix)->0;
            assert(b == a * radix + d);
            if radix > 0 {
                assert(a * radix >= a) by (nonlinear_arith)
                    requires
                        radix > 0,
                        a >= 0,
                ;
            }
            assert(a <= b || radix == 0);
            if radix == 0 {
                // No character is a digit in base 0.
                assert(digit_value(s.take(j).last(), radix) is None);
            }
        }
    }
}

/// The value of `c` as a digit in base `radix`.
fn digit_of(c: char, radix: u32) -> (res: Option<u32>)
    requires
        radix <= 16,
    ensures
        res matches Some(d) ==> digit_value(c, radix as nat) == Some(d as nat),
        res is None ==> digit_value(c, radix as nat) is None,
{
    let v: u32 = if '0' <= c && c <= '9' {
        (c as u32) - ('0' as u32)
    } else if 'a' <= c && c <= 'f' {
        (c as u32) - ('a' as u32) + 10
    } else if 'A' <= c && c <= 'F' {
        (c as u32) - ('A' as u32) + 10
    } else {
        radix
    };
    if v < radix {
        Some(v)
    } else {
        None
    }
}

/// The `i64` that the digits `s[start..]` write in base `radix`.
fn parse_number(s: &Vec<char>, start: usize, radix: u32) -> (res: Option<i64>)
    requires
        start <= s@.len(),
        2 <= radix <= 16,
    ensures
        res == number_value(s@.skip(start as int), radix as nat),
{
    let ghost digits = s@.skip(start as int);
    if start == s.len() {
        return None;
    }
    let mut acc: i64 = 0;
    let mut i: usize = start;
    assert(digits.take(0) =~= Seq::<char>::empty());
    while i < s.len()
        invariant
            start <= i <= s@.len(),
            digits == s@.skip(start as int),
            2 <= radix <= 16,
            digits_value(digits.take(i - start), radix as nat) == Some(acc as nat),
            acc >= 0,
        decreases s@.len() - i,
    {
        let ghost k = i - start;
        assert(digits.take(k + 1).drop_last() =~= digits.take(k));
        assert(digits.take(k + 1).last() == s@[i as int]);
        let d = match digit_of(s[i], radix) {
            Some(d) => d,
            None => {
                proof {
                    lemma_digits_prefix(digits, k + 1, digits.len() as int, radix as nat);
                    assert(digits.take(digits.len() as int) =~= digits);
                }
                return None;
            },
        };
        let next = match acc.checked_mul(radix as i64) {
            Some(m) => m.checked_add(d as i64),
            None => None,
        };
        match next {
            Some(v) => {
                acc = v;
            },
            None => {
                proof {
                    lemma_digits_prefix(digits, k + 1, digits.len() as int, radix as nat);
                    assert(digits.take(digits.len() as int) =~= digits);
                    assert(acc * radix + d > i64::MAX);
                }
                return None;
            },
        }
        i = i + 1;
    }
    assert(digits.take(i - start) =~= digits);
    Some(acc)
}

/// Whether every character of `m` is ASCII.
fn is_all_ascii(m: &Vec<char>) -> (res: bool)
    ensures
        res == all_ascii(m@),
{
    let mut i: usize = 0;
    while i < m.len()
        invariant
            i <= m@.len(),
            forall|j: int| 0 <= j < i ==> (m@[j] as u32) < 128,
        decreases m@.len() - i,
    {
        if (m[i] as u32) >= 128 {
            return false;
        }
        i = i + 1;
    }
    true
}

/// Whether the float written `m` is below zero.
fn is_negative_float(m: &Vec<char>) -> (res: bool)
    ensures
        res == float_is_negative(m@),
{
    if m.len() == 0 || m[0] != '-' {
        return false;
    }
    let mut i: usize = 1;
    while i < m.len()
        invariant
            1 <= i <= m@.len(),
            m@[0] == '-',
            forall|j: int| 1 <= j < i ==> !#[trigger] nonzero_digit(m@[j]),
        decreases m@.len() - i,
    {
        if '1' <= m[i] && m[i] <= '9' {
            assert(nonzero_digit(m@[i as int]));
            assert(m@.len() > 0 && m@[0] == '-');
            assert(1 <= i < m@.len());
            return true;
        }
        i = i + 1;
    }
    false
}

/// How often `c` occurs in `m`.
pub(crate) fn count_occurrences(m: &Vec<char>, c: char) -> (res: usize)
    ensures
        res == count_char(m@, c),
        res <= m@.len(),
{
    let mut n: usize = 0;
    let mut i: usize = 0;
    assert(m@.take(0) =~= Seq::<char>::empty());
    while i < m.len()
        invariant
            i <= m@.len(),
            n == count_char(m@.take(i as int), c),
            n <= i,
        decreases m@.len() - i,
    {
        assert(m@.take(i + 1).drop_last() =~= m@.take(i as int));
        if m[i] == c {
            n = n + 1;
        }
        i = i + 1;
    }
    assert(m@.take(i as int) =~= m@);
    n
}

/// Whether `s` begins with `// <`.
spec fn is_marker_open(s: Seq<char>) -> bool {
    s.len() >= 4 && s[0] == '/' && s[1] == '/' && s[2] == ' ' && s[3] == '<'
}

proof fn lemma_marker_open(s: Seq<char>)
    ensures
        starts_with(s, marker_open()) <==> is_marker_open(s),
        is_marker_open(s) ==> s.skip(4).len() < s.len(),
{
    let p = marker_open();
    assert(p.len() == 4);
    assert(p[0] == '/' && p[1] == '/' && p[2] == ' ' && p[3] == '<');
    if is_marker_open(s) {
        assert(s.take(4) =~= p);
    }
    if starts_with(s, p) {
        assert(s.take(4)[0] == s[0] && s.take(4)[1] == s[1] && s.take(4)[2] == s[2] && s.take(4)[3]
            == s[3]);
    }
}

/// Whether `s` ends with `>` and a newline.
spec fn is_marker_close(s: Seq<char>) -> bool {
    s.len() >= 2 && s[s.len() - 2] == '>' && s[s.len() - 1] == '\n'
}

proof fn lemma_marker_close(s: Seq<char>)
    ensures
        ends_with(s, marker_close()) <==> is_marker_close(s),
{
    let q = marker_close();
    assert(q.len() == 2);
    assert(q[0] == '>' && q[1] == '\n');
    if is_marker_close(s) {
        assert(s.skip(s.len() - 2) =~= q);
    }
    if ends_with(s, q) {
        assert(s.skip(s.len() - 2)[0] == s[s.len() - 2] && s.skip(s.len() - 2)[1] == s[s.len() - 1]);
    }
}

/// How many characters the repetitions of `// <` at the start of `m` take.
fn marker_start(m: &Vec<char>) -> (a: usize)
    ensures
        a <= m@.len(),
        trim_start_all(m@, marker_open()) == m@.subrange(a as int, m@.len() as int),
{
    let ghost p = marker_open();
    let mut a: usize = 0;
    assert(m@.subrange(0, m@.len() as int) =~= m@);
    while m.len() >= 4 && a <= m.len() - 4 && m[a] == '/' && m[a + 1] == '/' && m[a + 2] == ' '
        && m[a + 3] == '<'
        invariant
            a <= m@.len(),
            p == marker_open(),
            trim_start_all(m@, p) == trim_start_all(m@.subrange(a as int, m@.len() as int), p),
        decreases m@.len() - a,
    {
        let ghost rest = m@.subrange(a as int, m@.len() as int);
        proof {
            lemma_marker_open(rest);
            assert(is_marker_open(rest));
            assert(starts_with(rest, p));
            assert(trim_start_all(rest, p) == trim_start_all(rest.skip(4), p));
        }
        assert(rest.skip(4) =~= m@.subrange(a + 4, m@.len() as int));
        a = a + 4;
    }
    let ghost start = m@.subrange(a as int, m@.len() as int);
    proof {
        lemma_marker_open(start);
    }
    a
}

/// Where the repetitions of `>\n` at the end of `m[a..]` begin.
fn marker_end(m: &Vec<char>, a: usize) -> (b: usize)
    requires
        a <= m@.len(),
    ensures
        a <= b <= m@.len(),
        trim_end_all(m@.subrange(a as int, m@.len() as int), marker_close()) == m@.subrange(
            a as int,
            b as int,
        ),
{
    let ghost q = marker_close();
    let ghost start = m@.subrange(a as int, m@.len() as int);
    let mut b: usize = m.len();
    while b - a >= 2 && m[b - 2] == '>' && m[b - 1] == '\n'
        invariant
            a <= b <= m@.len(),
            start == m@.subrange(a as int, m@.len() as int),
            q == marker_close(),
            trim_end_all(start, q) == trim_end_all(m@.subrange(a as int, b as int), q),
        decreases b,
    {
        let ghost cur = m@.subrange(a as int, b as int);
        proof {
            lemma_marker_close(cur);
            assert(is_marker_close(cur));
            assert(ends_with(cur, q));
            assert(trim_end_all(cur, q) == trim_end_all(cur.take(cur.len() - 2), q));
        }
        assert(cur.take(cur.len() - 2) =~= m@.subrange(a as int, b - 2));
        b = b - 2;
    }
    let ghost fin = m@.subrange(a as int, b as int);
    proof {
        lemma_marker_close(fin);
    }
    b
}

/// The characters `m[a..b]` as a string.
fn string_of_range(m: &Vec<char>, a: usize, b: usize) -> (res: String)
    requires
        a <= b <= m@.len(),
    ensures
        res@ == m@.subrange(a as int, b as int),
{
    let mut out = String::new();
    let mut i: usize = a;
    while i < b
        invariant
            a <= i <= b <= m@.len(),
            out@ == m@.subrange(a as int, i as int),
        decreases b - i,
    {
        push_char(&mut out, m[i]);
        assert(m@.subrange(a as int, i + 1) =~= m@.subrange(a as int, i as int).push(m@[i as int]));
        i = i + 1;
    }
    out
}

/// The file named by the `// <file>` line `m`.
fn file_of_marker(m: &Vec<char>) -> (res: String)
    ensures
        res@ == marker_name(m@),
{
    let a = marker_start(m);
    let b = marker_end(m, a);
    string_of_range(m, a, b)
}


/// The lexer's state: the current file and the line table.
pub struct LexerState {
    file: String,
    lines: LineTable,
}

impl LexerState {
    /// The state as a mathematical value.
    pub closed spec fn model(&self) -> LexState {
        LexState { file: self.file@, lines: self.lines.model@ }
    }

    /// Whether the line table is consistent.
    pub closed spec fn wf(&self) -> bool {
        self.lines.wf()
    }

    /// The state at the start of a text: in the file with no name, at its
    /// line 1.
    pub fn new() -> (res: LexerState)
        ensures
            res.model() == start_state(),
            res.wf(),
            forall|more: nat| more < usize::MAX ==> #[trigger] res.lines_fit(more),
    {
        let file = String::new();
        let mut lines = LineTable::new();
        lines.add_file(&file);
        let res = LexerState { file, lines };
        assert(res.model().lines =~= start_state().lines);
        res
    }

    /// Every line number, moved on by `more` lines, still fits in a `usize`.
    pub closed spec fn lines_fit(&self, more: nat) -> bool {
        forall|k: Seq<char>|
            #[trigger] self.lines.model@.contains_key(k) ==> self.lines.model@[k] + more
                <= usize::MAX
    }
}

/// The tokens of `v`, as values.
pub open spec fn token_values(v: Seq<Token>) -> Seq<SpecToken> {
    v.map_values(|t: Token| t@)
}

/// A list of one token.
fn one_token(t: Token) -> (v: Vec<Token>)
    ensures
        token_values(v@) == seq![t@],
{
    let v = vec![t];
    assert(token_values(v@) =~= seq![t@]);
    v
}

/// The token that the run of identifier characters `m` stands for, where
/// `primitive`, `keyword` and `boolean` say which patterns it matches.
fn word_given(m: String, primitive: bool, keyword: bool, boolean: bool) -> (res: Token)
    ensures
        res@ == word_token_given(m@, primitive, keyword, boolean),
{
    if primitive {
        Token::PrimitiveType(m)
    } else if keyword {
        Token::Keyword(m)
    } else if boolean {
        Token::BoolLiteral(crate::text::same_text(m.as_str(), "true"))
    } else {
        Token::Identifier(m)
    }
}

/// The span of the first match of `p` in `text`, as `regex_find` names it.
fn first_match(p: &Pattern, text: &str) -> (res: Option<(usize, usize)>)
    ensures
        res == regex_find(p.source(), text@),
        res matches Some((s, e)) ==> s <= e <= text@.len(),
{
    p.find(text)
}

/// Where the lexer's patterns match at the start of `rest`.
fn find_matches(p: &Patterns, rest: &str) -> (res: ScanMatches)
    requires
        p.wf(),
    ensures
        res == regex_matches(rest@),
        matches_fit(res, rest@.len()),
{
    let identifier = first_match(&p.identifier, rest);
    let (primitive_type, keyword, boolean) = match identifier {
        Some((s, e)) => {
            let word = crate::text::substring(rest, s, e - s);
            assert(word@ =~= rest@.subrange(s as int, e as int));
            (
                first_match(&p.primitive_type, word.as_str()).is_some(),
                first_match(&p.keyword, word.as_str()).is_some(),
                first_match(&p.boolean, word.as_str()).is_some(),
            )
        },
        None => (false, false, false),
    };
    ScanMatches {
        marker: first_match(&p.imported_code, rest),
        bin: first_match(&p.bin, rest),
        hex: first_match(&p.hex, rest),
        float: first_match(&p.float, rest),
        integer: first_match(&p.integer, rest),
        character: first_match(&p.character, rest),
        string: first_match(&p.string, rest),
        large_operator: first_match(&p.large_operator, rest),
        operator: first_match(&p.operator, rest),
        identifier,
        whitespace: first_match(&p.whitespace, rest),
        primitive_type,
        keyword,
        boolean,
    }
}

/// The text of a quoted literal `m` without its quotes, with its escape
/// sequences replaced; `None` if `m` is not quoted with `quote`.
fn unquote(m: &Vec<char>, quote: char) -> (res: Option<String>)
    ensures
        res is Some <==> (m@.len() >= 2 && m@[0] == quote && m@.last() == quote),
        res matches Some(t) ==> t@ == unescape(m@.subrange(1, m@.len() - 1)),
{
    if m.len() >= 2 && m[0] == quote && m[m.len() - 1] == quote {
        let inner = string_of_range(m, 1, m.len() - 1);
        Some(process_escape_sequence(inner.as_str()))
    } else {
        None
    }
}

/// One step of the lexer at the start of `rest`, where its patterns match as
/// `found` says (see `find_matches`): the number of characters it consumes
/// and the tokens it emits; the state moves on to the next file or line.
#[verifier::rlimit(100)]
#[verifier::spinoff_prover]
pub fn scan_step(found: &ScanMatches, rest: &str, st: &mut LexerState) -> (res: Result<
    (usize, Vec<Token>),
    LexError,
>)
    requires
        matches_fit(*found, rest@.len()),
        0 < rest@.len() < usize::MAX,
        old(st).wf(),
        old(st).lines_fit(rest@.len()),
    ensures
        final(st).wf(),
        match scan_given(rest@, *found, old(st).model()) {
            Scan::Fail(e) => res == Err::<(usize, Vec<Token>), LexError>(e),
            Scan::Step(ts, n, st2) => {
                &&& res matches Ok((m, v))
                &&& m == n
                &&& token_values(v@) == ts
                &&& final(st).model() == st2
                &&& 0 < n <= rest@.len() ==> final(st).lines_fit((rest@.len() - n) as nat)
            },
        },
        res matches Ok((m, _)) ==> m <= rest@.len(),
{
    let c = match peek_char(rest, 0) {
        Some(c) => c,
        None => return Err(LexError::Internal),
    };
    let second = match peek_char(rest, 1) {
        Some(d) => d,
        None => ' ',
    };
    if c == '/' && second == '/' && found.marker.is_some() {
        let (s, e) = found.marker.unwrap();
        let m = chars_of(crate::text::substring(rest, s, e - s).as_str());
        let f = file_of_marker(&m);
        st.lines.add_file(&f);
        st.file = f;
        return Ok((e, Vec::new()));
    }
    if c == '\n' {
        st.lines.advance(&st.file, 1);
        return Ok((1, Vec::new()));
    }
    if c == '(' {
        return Ok((1, one_token(Token::LParen)));
    }
    if c == ')' {
        return Ok((1, one_token(Token::RParen)));
    }
    if c == ',' {
        return Ok((1, one_token(Token::Comma)));
    }
    if c == ';' {
        return Ok((1, one_token(Token::Semicolon)));
    }
    if c == '{' {
        return Ok((1, one_token(Token::LBrace)));
    }
    if c == '}' {
        return Ok((1, one_token(Token::RBrace)));
    }
    if c == '[' {
        return Ok((1, one_token(Token::LBracket)));
    }
    if c == ']' {
        return Ok((1, one_token(Token::RBracket)));
    }
    if c == '0' && found.bin.is_some() {
        let (s, e) = found.bin.unwrap();
        let m = chars_of(crate::text::substring(rest, s, e - s).as_str());
        if m.len() >= 2 && m[0] == '0' && (m[1] == 'b' || m[1] == 'B') {
            return match parse_number(&m, 2, 2) {
                Some(v) => Ok((e, one_token(Token::BinLiteral(v)))),
                None => Err(LexError::InvalidLiteral),
            };
        }
        return Err(LexError::InvalidLiteral);
    }
    if c == '0' && found.hex.is_some() {
        let (s, e) = found.hex.unwrap();
        let m = chars_of(crate::text::substring(rest, s, e - s).as_str());
        if m.len() >= 2 && m[0] == '0' && (m[1] == 'x' || m[1] == 'X') {
            return match parse_number(&m, 2, 16) {
                Some(v) => Ok((e, one_token(Token::HexLiteral(v)))),
                None => Err(LexError::InvalidLiteral),
            };
        }
        return Err(LexError::InvalidLiteral);
    }
    if found.float.is_some() {
        let (s, e) = found.float.unwrap();
        let text = crate::text::substring(rest, s, e - s);
        let m = chars_of(text.as_str());
        if !is_all_ascii(&m) {
            return Err(LexError::InvalidLiteral);
        }
        if is_negative_float(&m) {
            let mut v = Vec::new();
            v.push(Token::Operator(Operator::Add));
            v.push(Token::FloatLiteral(text));
            assert(token_values(v@) =~= seq![
                SpecToken::Operator(Operator::Add),
                SpecToken::FloatLiteral(m@),
            ]);
            return Ok((e, v));
        }
        return Ok((e, one_token(Token::FloatLiteral(text))));
    }
    if found.integer.is_some() {
        let (s, e) = found.integer.unwrap();
        let m = chars_of(crate::text::substring(rest, s, e - s).as_str());
        assert(m@.skip(0) =~= m@);
        return match parse_number(&m, 0, 10) {
            Some(v) => Ok((e, one_token(Token::IntLiteral(v)))),
            None => Err(LexError::InvalidLiteral),
        };
    }
    if c == '\'' && found.character.is_some() {
        let (s, e) = found.character.unwrap();
        let m = chars_of(crate::text::substring(rest, s, e - s).as_str());
        return match unquote(&m, '\'') {
            Some(t) => {
                let n = count_occurrences(&m, '\n');
                st.lines.advance(&st.file, n);
                Ok((e, one_token(Token::CharLiteral(t))))
            },
            None => Err(LexError::Internal),
        };
    }
    if c == '"' && found.string.is_some() {
        let (s, e) = found.string.unwrap();
        let m = chars_of(crate::text::substring(rest, s, e - s).as_str());
        return match unquote(&m, '"') {
            Some(t) => {
                let n = count_occurrences(&m, '\n');
                st.lines.advance(&st.file, n);
                Ok((e, one_token(Token::StringLiteral(t))))
            },
            None => Err(LexError::Internal),
        };
    }
    if found.large_operator.is_some() {
        let ghost rs = rest@;
        if rest.is_empty() || crate::text::skip_chars(rest, 1).is_empty() {
            return Err(LexError::Internal);
        }
        assert(rest@.len() >= 2);
        let op = if c == '=' && second == '=' {
            Operator::Equal
        } else if c == '!' && second == '=' {
            Operator::NotEqual
        } else if c == '<' && second == '=' {
            Operator::LessOrEqualThan
        } else if c == '&' && second == '&' {
            Operator::LogicalAnd
        } else if c == '|' && second == '|' {
            Operator::LogicalOr
        } else if c == '+' && second == '+' {
            Operator::Increment
        } else if c == '-' && second == '-' {
            Operator::Decrement
        } else if c == '<' && second == '<' {
            Operator::LeftShift
        } else if c == '+' && second == '=' {
            Operator::AddAssign
        } else if c == '-' && second == '=' {
            Operator::SubtractAssign
        } else if c == '*' && second == '=' {
            Operator::MultiplyAssign
        } else if c == '/' && second == '=' {
            Operator::DivideAssign
        } else if c == '%' && second == '=' {
            Operator::ModulusAssign
        } else if c == '&' && second == '=' {
            Operator::BitwiseAndAssign
        } else if c == '^' && second == '=' {
            Operator::BitwiseXorAssign
        } else if c == '|' && second == '=' {
            Operator::BitwiseOrAssign
        } else if c == '^' && second == '^' {
            Operator::LogicalXor
        } else if c == ':' && second == ':' {
            Operator::DoubleColon
        } else {
            return Err(LexError::Internal);
        };
        return Ok((2, one_token(Token::Operator(op))));
    }
    if found.operator.is_some() {
        let op = if c == '+' {
            Operator::Add
        } else if c == '-' {
            Operator::Subtract
        } else if c == '*' {
            Operator::Multiply
        } else if c == '/' {
            Operator::Divide
        } else if c == '%' {
            Operator::Modulus
        } else if c == '&' {
            Operator::BitwiseAnd
        } else if c == '|' {
            Operator::BitwiseOr
        } else if c == '<' {
            Operator::LessThan
        } else if c == '>' {
            Operator::GreaterThan
        } else if c == '=' {
            Operator::Assign
        } else if c == '!' {
            Operator::LogicalNot
        } else if c == '~' {
            Operator::BitwiseNot
        } else if c == '^' {
            Operator::BitwiseXor
        } else if c == ',' {
            Operator::Comma
        } else if c == '.' {
            Operator::MemberAccess
        } else {
            return Err(LexError::Internal);
        };
        return Ok((1, one_token(Token::Operator(op))));
    }
    if c == ':' && second == '<' {
        return Ok((2, one_token(Token::BeginGeneric)));
    }
    if c == ':' {
        return Ok((1, one_token(Token::Colon)));
    }
    if found.identifier.is_some() {
        let (s, e) = found.identifier.unwrap();
        let m = crate::text::substring(rest, s, e - s);
        return Ok((e, one_token(word_given(m, found.primitive_type, found.keyword, found.boolean))));
    }
    if found.whitespace.is_some() {
        let (s, e) = found.whitespace.unwrap();
        return Ok((e, Vec::new()));
    }
    Err(LexError::UnexpectedCharacter(c))
}


/// Appends the tokens `ts`, each found at `line` of `file`.
fn push_located(
    tokens: &mut Vec<TokenWithDebugInfo<Token>>,
    ts: &Vec<Token>,
    line: usize,
    file: &String,
)
    ensures
        tokens_view(final(tokens)@) == tokens_view(old(tokens)@) + located(
            token_values(ts@),
            line as nat,
            file@,
        ),
{
    let ghost start = tokens_view(tokens@);
    let mut i: usize = 0;
    while i < ts.len()
        invariant
            i <= ts@.len(),
            tokens_view(tokens@) == start + located(token_values(ts@).take(i as int), line as nat, file@),
        decreases ts@.len() - i,
    {
        let ghost before = tokens@;
        tokens.push(TokenWithDebugInfo::<Token>::new(ts[i].duplicate(), line, file.clone()));
        assert(token_values(ts@).take(i + 1) =~= token_values(ts@).take(i as int).push(ts@[i as int]@));
        assert(tokens_view(tokens@) =~= tokens_view(before).push((ts@[i as int]@, line as nat, file@)));
        assert(located(token_values(ts@).take(i + 1), line as nat, file@) =~= located(
            token_values(ts@).take(i as int),
            line as nat,
            file@,
        ).push((ts@[i as int]@, line as nat, file@)));
        i = i + 1;
    }
    assert(token_values(ts@).take(i as int) =~= token_values(ts@));
}

/// Lexes the text of a file and returns its tokens, ending with `EOF`.
///
/// The text is expected to come from the preprocessor, whose `// <file>`
/// lines tell the lexer which file, and so which line, each token comes from;
/// text before the first such line belongs to the file with no name, from
/// its line 1.
/// Each token is the first that the lexer's rules find at its place, in the
/// order that `scan` gives them; whitespace is skipped.
pub fn lex(file: &str) -> (res: Result<Vec<TokenWithDebugInfo<Token>>, LexError>)
    requires
        file@.len() < usize::MAX,
    ensures
        lex_result_view(res) == spec_lex(file@),
{
    let p = match Patterns::compile() {
        Some(p) => p,
        None => return Err(LexError::InvalidPattern),
    };
    let mut st = LexerState::new();
    let mut tokens: Vec<TokenWithDebugInfo<Token>> = Vec::new();
    let mut rest: &str = file;
    let ghost init = st.model();
    assert(st.lines_fit(rest@.len()));
    assert(spec_lex(file@) == lex_from(file@, init));
    assert(tokens_view(tokens@) =~= Seq::<TokenView>::empty());
    while !rest.is_empty()
        invariant
            p.wf(),
            st.wf(),
            spec_lex(file@) == lex_from(file@, init),
            rest@.len() <= file@.len() < usize::MAX,
            st.lines_fit(rest@.len()),
            lex_from(file@, init) == prepend(tokens_view(tokens@), lex_from(rest@, st.model())),
        decreases rest@.len(),
    {
        let ghost st1 = st.model();
        let ghost before = tokens_view(tokens@);
        let (n, ts) = match scan_step(&find_matches(&p, rest), rest, &mut st) {
            Ok(x) => x,
            Err(e) => {
                assert(lex_from(rest@, st1) == Err::<Seq<TokenView>, LexError>(e));
                assert(lex_from(file@, init) == Err::<Seq<TokenView>, LexError>(e));
                return Err(e);
            },
        };
        if n == 0 {
            assert(lex_from(rest@, st1) == Err::<Seq<TokenView>, LexError>(LexError::Internal));
            return Err(LexError::Internal);
        }
        assert(token_values(ts@).len() == ts@.len());
        if ts.len() > 0 {
            match st.lines.line(&st.file) {
                Some(l) => {
                    push_located(&mut tokens, &ts, l, &st.file);
                },
                None => {
                    assert(lex_from(rest@, st1) == Err::<Seq<TokenView>, LexError>(
                        LexError::NoSourceFile,
                    ));
                    return Err(LexError::NoSourceFile);
                },
            }
        }
        let next = skip_chars(rest, n);
        proof {
            let tail = lex_from(next@, st.model());
            if ts@.len() > 0 {
                let l = current_line(st.model())->0;
                let loc = located(token_values(ts@), l, st.model().file);
                match tail {
                    Ok(t) => {
                        assert(before + (loc + t) =~= (before + loc) + t);
                    },
                    Err(_) => {},
                }
            } else {
                assert(token_values(ts@) =~= Seq::<SpecToken>::empty());
            }
        }
        rest = next;
    }
    match st.lines.line(&st.file) {
        Some(l) => {
            let ghost before = tokens_view(tokens@);
            tokens.push(TokenWithDebugInfo::<Token>::new(Token::EOF, l, st.file.clone()));
            assert(tokens_view(tokens@) =~= before + seq![(SpecToken::EOF, l as nat, st.file@)]);
        },
        None => return Err(LexError::NoSourceFile),
    }
    Ok(tokens)
}

} // verus!
