//! The token taxonomy: every lexical category of Blaze, the recognition
//! pattern each category owns, and the order in which the lexer tries the
//! categories. The order is the disambiguation mechanism: a category whose
//! pattern is a textual prefix or superset of a later category's pattern is
//! tried first, and the first category whose pattern matches a non-empty
//! prefix at the cursor wins.

use vstd::prelude::*;

verus! {

/// One lexical category of the closed taxonomy. Each category owns exactly
/// one recognition pattern; see [`TokenType::regex_str`] for its textual form
/// and [`spec_match_len`] for its meaning.
#[derive(Debug, Clone, Copy, PartialEq, Eq, Structural)]
pub enum TokenType {
    // Directives
    ImportKeyword,
    Query,
    // Conditions
    If,
    Else,
    // Binary Operators
    Addition,
    Subtraction,
    Multiplication,
    Division,
    EqualSign,
    NotEqualSign,
    Greater,
    Less,
    GreaterOrEqual,
    LessOrEqual,
    // Assignment
    Assign,
    VariableAssign,
    FunctionAssign,
    // Brackets
    LPar,
    RPar,
    LBracket,
    RBracket,
    // Types
    CharArray,
    Alphanumeric,
    Number,
    Space,
    Dot,
    Comma,
    Colon,
    True,
    False,
    Null,
    ExpressionEnd,
    // Whitespace
    NewLine,
    Indent,
    Carriage,
}

/// The textual form of each category's recognition pattern.
pub open spec fn spec_regex_str(t: TokenType) -> Seq<char> {
    match t {
        TokenType::VariableAssign => r"(?:let|var)[^\w\d]"@,
        TokenType::ImportKeyword => r"import[^\w\d]"@,
        TokenType::FunctionAssign => r"function[^\w\d]"@,
        TokenType::Query => r"(?:new|get|set|del)[^\w\d]"@,
        TokenType::True => r"true[^\w\d]"@,
        TokenType::False => r"false[^\w\d]"@,
        TokenType::Null => r"null[^\w\d]"@,
        TokenType::If => r"if[^\w\d]"@,
        TokenType::Else => r"else[^\w\d]"@,
        TokenType::Addition => r"\+"@,
        TokenType::Subtraction => r"-"@,
        TokenType::Multiplication => r"\*"@,
        TokenType::Division => r"\/"@,
        TokenType::Assign => r"="@,
        TokenType::EqualSign => r"=="@,
        TokenType::NotEqualSign => r"!="@,
        TokenType::Greater => r">"@,
        TokenType::Less => r"<"@,
        TokenType::GreaterOrEqual => r">="@,
        TokenType::LessOrEqual => r"<="@,
        TokenType::LPar => r"\("@,
        TokenType::RPar => r"\)"@,
        TokenType::LBracket => r"\{"@,
        TokenType::RBracket => r"\}"@,
        TokenType::CharArray => "\".*?[^\\\\]\"|\"\""@,
        TokenType::Alphanumeric => r"[a-zA-Z_]\w*"@,
        TokenType::Number => r"\d+(\.\d+)?"@,
        TokenType::Space => " "@,
        TokenType::Dot => r"\."@,
        TokenType::Comma => r","@,
        TokenType::Colon => r":"@,
        TokenType::ExpressionEnd => r";"@,
        TokenType::NewLine => r"\n"@,
        TokenType::Indent => r"\t"@,
        TokenType::Carriage => r"\r"@,
    }
}

/// `c` is a word character: `[A-Za-z0-9_]`, written `\w` in the patterns.
pub open spec fn is_word_char(c: char) -> bool {
    (97 <= c as u32 && c as u32 <= 122)  // a-z
    || (65 <= c as u32 && c as u32 <= 90)  // A-Z
    || (48 <= c as u32 && c as u32 <= 57)  // 0-9
    || c == '_'
}

/// `c` can open an identifier: `[A-Za-z_]`.
pub open spec fn is_ident_start(c: char) -> bool {
    (97 <= c as u32 && c as u32 <= 122) || (65 <= c as u32 && c as u32 <= 90) || c == '_'
}

/// `c` is a decimal digit.
pub open spec fn is_digit(c: char) -> bool {
    48 <= c as u32 && c as u32 <= 57
}

pub open spec fn lit_let() -> Seq<char> {
    seq!['l', 'e', 't']
}

pub open spec fn lit_var() -> Seq<char> {
    seq!['v', 'a', 'r']
}

pub open spec fn lit_import() -> Seq<char> {
    seq!['i', 'm', 'p', 'o', 'r', 't']
}

pub open spec fn lit_function() -> Seq<char> {
    seq!['f', 'u', 'n', 'c', 't', 'i', 'o', 'n']
}

pub open spec fn lit_new() -> Seq<char> {
    seq!['n', 'e', 'w']
}

pub open spec fn lit_get() -> Seq<char> {
    seq!['g', 'e', 't']
}

pub open spec fn lit_set() -> Seq<char> {
    seq!['s', 'e', 't']
}

pub open spec fn lit_del() -> Seq<char> {
    seq!['d', 'e', 'l']
}

pub open spec fn lit_true() -> Seq<char> {
    seq!['t', 'r', 'u', 'e']
}

pub open spec fn lit_false() -> Seq<char> {
    seq!['f', 'a', 'l', 's', 'e']
}

pub open spec fn lit_null() -> Seq<char> {
    seq!['n', 'u', 'l', 'l']
}

pub open spec fn lit_if() -> Seq<char> {
    seq!['i', 'f']
}

pub open spec fn lit_else() -> Seq<char> {
    seq!['e', 'l', 's', 'e']
}

/// The literal `lit` occurs in `s` at position `i`.
pub open spec fn lit_matches_at(s: Seq<char>, i: int, lit: Seq<char>) -> bool {
    0 <= i && i + lit.len() <= s.len() && (forall|k: int|
        0 <= k < lit.len() ==> s[i + k] == lit[k])
}

/// A keyword pattern `lit[^\w\d]`: the literal must be followed by a
/// non-word character. A following space is consumed into the match; any
/// other boundary character is left for the next token.
pub open spec fn kw_match_len(s: Seq<char>, i: int, lit: Seq<char>) -> Option<int> {
    if lit_matches_at(s, i, lit) && i + lit.len() < s.len() && !is_word_char(
        s[i + lit.len()],
    ) {
        if s[i + lit.len()] == ' ' {
            Some(lit.len() + 1int)
        } else {
            Some(lit.len() as int)
        }
    } else {
        None
    }
}

/// Ordered alternation of two keyword literals, as in `(?:let|var)[^\w\d]`.
pub open spec fn kw_alt2(s: Seq<char>, i: int, a: Seq<char>, b: Seq<char>) -> Option<int> {
    if kw_match_len(s, i, a) is Some {
        kw_match_len(s, i, a)
    } else {
        kw_match_len(s, i, b)
    }
}

/// Ordered alternation of four keyword literals, as in `(?:new|get|set|del)[^\w\d]`.
pub open spec fn kw_alt4(
    s: Seq<char>,
    i: int,
    a: Seq<char>,
    b: Seq<char>,
    c: Seq<char>,
    d: Seq<char>,
) -> Option<int> {
    if kw_alt2(s, i, a, b) is Some {
        kw_alt2(s, i, a, b)
    } else {
        kw_alt2(s, i, c, d)
    }
}

/// A single-character pattern.
pub open spec fn one_char_match(s: Seq<char>, i: int, c: char) -> Option<int> {
    if 0 <= i < s.len() && s[i] == c {
        Some(1int)
    } else {
        None
    }
}

/// A two-character pattern such as `==`.
pub open spec fn two_char_match(s: Seq<char>, i: int, c0: char, c1: char) -> Option<int> {
    if 0 <= i && i + 1 < s.len() && s[i] == c0 && s[i + 1] == c1 {
        Some(2int)
    } else {
        None
    }
}

/// Length of the run of word characters starting at `j` (`\w*`, greedy).
pub open spec fn word_run(s: Seq<char>, j: int) -> int
    decreases s.len() - j,
{
    if 0 <= j < s.len() && is_word_char(s[j]) {
        1 + word_run(s, j + 1)
    } else {
        0
    }
}

/// Length of the run of digits starting at `j` (`\d*`, greedy).
pub open spec fn digit_run(s: Seq<char>, j: int) -> int
    decreases s.len() - j,
{
    if 0 <= j < s.len() && is_digit(s[j]) {
        1 + digit_run(s, j + 1)
    } else {
        0
    }
}

/// The identifier pattern `[a-zA-Z_]\w*`.
pub open spec fn alnum_match(s: Seq<char>, i: int) -> Option<int> {
    if 0 <= i < s.len() && is_ident_start(s[i]) {
        Some(1 + word_run(s, i + 1))
    } else {
        None
    }
}

/// The number pattern `\d+(\.\d+)?`: an integer part, and a fractional part
/// only when a dot is followed by at least one digit.
pub open spec fn number_match(s: Seq<char>, i: int) -> Option<int> {
    let d = digit_run(s, i);
    if d == 0 {
        None
    } else if i + d < s.len() && s[i + d] == '.' && digit_run(s, i + d + 1) > 0 {
        Some(d + 1 + digit_run(s, i + d + 1))
    } else {
        Some(d)
    }
}

/// Scan for the end of a quoted text started just before `j`, following the
/// lazy body of `".*?[^\\]"`: position `j` is the candidate for the final
/// non-backslash character. Returns the position one past the closing quote.
/// The lazy `.*?` cannot cross a newline.
pub open spec fn ca_scan(s: Seq<char>, j: int) -> Option<int>
    decreases s.len() - j,
{
    if j >= s.len() {
        None
    } else if s[j] != '\\' && j + 1 < s.len() && s[j + 1] == '"' {
        Some(j + 2)
    } else if s[j] != '\n' {
        ca_scan(s, j + 1)
    } else {
        None
    }
}

/// The quoted-text pattern `".*?[^\\]"|""`: the first alternative is
/// preferred; the second accepts only the empty text `""`.
pub open spec fn char_array_match(s: Seq<char>, i: int) -> Option<int> {
    if 0 <= i < s.len() && s[i] == '"' {
        match ca_scan(s, i + 1) {
            Some(end) => Some(end - i),
            None => if i + 1 < s.len() && s[i + 1] == '"' {
                Some(2int)
            } else {
                None
            },
        }
    } else {
        None
    }
}

/// What it means for category `t` to match at position `i` of `s`: the
/// number of characters the match consumes, or `None`. This is the meaning of
/// the pattern [`spec_regex_str`] ascribes to `t`.
pub open spec fn spec_match_len(t: TokenType, s: Seq<char>, i: int) -> Option<int> {
    match t {
        TokenType::ImportKeyword => kw_match_len(s, i, lit_import()),
        TokenType::Query => kw_alt4(s, i, lit_new(), lit_get(), lit_set(), lit_del()),
        TokenType::If => kw_match_len(s, i, lit_if()),
        TokenType::Else => kw_match_len(s, i, lit_else()),
        TokenType::Addition => one_char_match(s, i, '+'),
        TokenType::Subtraction => one_char_match(s, i, '-'),
        TokenType::Multiplication => one_char_match(s, i, '*'),
        TokenType::Division => one_char_match(s, i, '/'),
        TokenType::EqualSign => two_char_match(s, i, '=', '='),
        TokenType::NotEqualSign => two_char_match(s, i, '!', '='),
        TokenType::Greater => one_char_match(s, i, '>'),
        TokenType::Less => one_char_match(s, i, '<'),
        TokenType::GreaterOrEqual => two_char_match(s, i, '>', '='),
        TokenType::LessOrEqual => two_char_match(s, i, '<', '='),
        TokenType::Assign => one_char_match(s, i, '='),
        TokenType::VariableAssign => kw_alt2(s, i, lit_let(), lit_var()),
        TokenType::FunctionAssign => kw_match_len(s, i, lit_function()),
        TokenType::LPar => one_char_match(s, i, '('),
        TokenType::RPar => one_char_match(s, i, ')'),
        TokenType::LBracket => one_char_match(s, i, '{'),
        TokenType::RBracket => one_char_match(s, i, '}'),
        TokenType::CharArray => char_array_match(s, i),
        TokenType::Alphanumeric => alnum_match(s, i),
        TokenType::Number => number_match(s, i),
        TokenType::Space => one_char_match(s, i, ' '),
        TokenType::Dot => one_char_match(s, i, '.'),
        TokenType::Comma => one_char_match(s, i, ','),
        TokenType::Colon => one_char_match(s, i, ':'),
        TokenType::True => kw_match_len(s, i, lit_true()),
        TokenType::False => kw_match_len(s, i, lit_false()),
        TokenType::Null => kw_match_len(s, i, lit_null()),
        TokenType::ExpressionEnd => one_char_match(s, i, ';'),
        TokenType::NewLine => one_char_match(s, i, '\n'),
        TokenType::Indent => one_char_match(s, i, '\t'),
        TokenType::Carriage => one_char_match(s, i, '\r'),
    }
}

/// The order in which the lexer tries the categories. Keyword-like
/// categories stand ahead of the generic identifier, and each two-character
/// operator ahead of the one-character operator that is its prefix: this
/// order, not a separate precedence field, disambiguates.
pub open spec fn spec_match_order() -> Seq<TokenType> {
    seq![
        TokenType::VariableAssign,
        TokenType::ImportKeyword,
        TokenType::FunctionAssign,
        TokenType::Query,
        TokenType::True,
        TokenType::False,
        TokenType::Null,
        TokenType::If,
        TokenType::Else,
        TokenType::EqualSign,
        TokenType::NotEqualSign,
        TokenType::GreaterOrEqual,
        TokenType::LessOrEqual,
        TokenType::Greater,
        TokenType::Less,
        TokenType::Assign,
        TokenType::Addition,
        TokenType::Subtraction,
        TokenType::Multiplication,
        TokenType::Division,
        TokenType::LPar,
        TokenType::RPar,
        TokenType::LBracket,
        TokenType::RBracket,
        TokenType::CharArray,
        TokenType::Alphanumeric,
        TokenType::Number,
        TokenType::Space,
        TokenType::Dot,
        TokenType::Comma,
        TokenType::Colon,
        TokenType::ExpressionEnd,
        TokenType::NewLine,
        TokenType::Indent,
        TokenType::Carriage,
    ]
}

/// The whitespace categories, the set downstream stages use to filter
/// whitespace tokens: the lexer itself emits them like any others.
pub open spec fn spec_whitespace_tokens() -> Seq<TokenType> {
    seq![TokenType::NewLine, TokenType::Space, TokenType::Indent, TokenType::Carriage]
}

/// The binary-operator categories.
pub open spec fn spec_binary_operator_tokens() -> Seq<TokenType> {
    seq![
        TokenType::Addition,
        TokenType::Subtraction,
        TokenType::Multiplication,
        TokenType::Division,
        TokenType::EqualSign,
        TokenType::NotEqualSign,
        TokenType::Less,
        TokenType::Greater,
        TokenType::LessOrEqual,
        TokenType::GreaterOrEqual,
    ]
}

/// The formula categories: those that can stand alone as a literal value
/// inside an expression.
pub open spec fn spec_formula_tokens() -> Seq<TokenType> {
    seq![
        TokenType::CharArray,
        TokenType::Number,
        TokenType::Alphanumeric,
        TokenType::True,
        TokenType::False,
        TokenType::Null,
    ]
}

/// The categories in the order the lexer tries them; see [`spec_match_order`].
pub fn match_order() -> (r: Vec<TokenType>)
    ensures
        r@ == spec_match_order(),
{
    let mut v: Vec<TokenType> = Vec::new();
    v.push(TokenType::VariableAssign);
    v.push(TokenType::ImportKeyword);
    v.push(TokenType::FunctionAssign);
    v.push(TokenType::Query);
    v.push(TokenType::True);
    v.push(TokenType::False);
    v.push(TokenType::Null);
    v.push(TokenType::If);
    v.push(TokenType::Else);
    v.push(TokenType::EqualSign);
    v.push(TokenType::NotEqualSign);
    v.push(TokenType::GreaterOrEqual);
    v.push(TokenType::LessOrEqual);
    v.push(TokenType::Greater);
    v.push(TokenType::Less);
    v.push(TokenType::Assign);
    v.push(TokenType::Addition);
    v.push(TokenType::Subtraction);
    v.push(TokenType::Multiplication);
    v.push(TokenType::Division);
    v.push(TokenType::LPar);
    v.push(TokenType::RPar);
    v.push(TokenType::LBracket);
    v.push(TokenType::RBracket);
    v.push(TokenType::CharArray);
    v.push(TokenType::Alphanumeric);
    v.push(TokenType::Number);
    v.push(TokenType::Space);
    v.push(TokenType::Dot);
    v.push(TokenType::Comma);
    v.push(TokenType::Colon);
    v.push(TokenType::ExpressionEnd);
    v.push(TokenType::NewLine);
    v.push(TokenType::Indent);
    v.push(TokenType::Carriage);
    proof {
        assert(v@ =~= spec_match_order());
    }
    v
}

/// The whitespace categories; see [`spec_whitespace_tokens`].
pub fn whitespace_tokens() -> (r: Vec<TokenType>)
    ensures
        r@ == spec_whitespace_tokens(),
{
    let mut v: Vec<TokenType> = Vec::new();
    v.push(TokenType::NewLine);
    v.push(TokenType::Space);
    v.push(TokenType::Indent);
    v.push(TokenType::Carriage);
    proof {
        assert(v@ =~= spec_whitespace_tokens());
    }
    v
}

/// The binary-operator categories; see [`spec_binary_operator_tokens`].
pub fn binary_operator_tokens() -> (r: Vec<TokenType>)
    ensures
        r@ == spec_binary_operator_tokens(),
{
    let mut v: Vec<TokenType> = Vec::new();
    v.push(TokenType::Addition);
    v.push(TokenType::Subtraction);
    v.push(TokenType::Multiplication);
    v.push(TokenType::Division);
    v.push(TokenType::EqualSign);
    v.push(TokenType::NotEqualSign);
    v.push(TokenType::Less);
    v.push(TokenType::Greater);
    v.push(TokenType::LessOrEqual);
    v.push(TokenType::GreaterOrEqual);
    proof {
        assert(v@ =~= spec_binary_operator_tokens());
    }
    v
}

/// The formula categories; see [`spec_formula_tokens`].
pub fn formula_tokens() -> (r: Vec<TokenType>)
    ensures
        r@ == spec_formula_tokens(),
{
    let mut v: Vec<TokenType> = Vec::new();
    v.push(TokenType::CharArray);
    v.push(TokenType::Number);
    v.push(TokenType::Alphanumeric);
    v.push(TokenType::True);
    v.push(TokenType::False);
    v.push(TokenType::Null);
    proof {
        assert(v@ =~= spec_formula_tokens());
    }
    v
}

/// A classified lexeme as the ghost model sees it: category, character
/// offset of the match in the buffer, line number, and the matched text.
pub ghost struct LexedToken {
    pub token_type: TokenType,
    pub position: int,
    pub line: int,
    pub value: Seq<char>,
}

/// An immutable classified lexeme with its source location: produced only by
/// the lexer, never mutated after creation.
#[derive(Clone)]
pub struct Token {
    pub token_type: TokenType,
    pub position: u64,
    pub line: u64,
    pub value: String,
}

impl View for Token {
    type V = LexedToken;

    open spec fn view(&self) -> LexedToken {
        LexedToken {
            token_type: self.token_type,
            position: self.position as int,
            line: self.line as int,
            value: self.value@,
        }
    }
}

/// The exec result `r` reports exactly the spec match `m`.
pub open spec fn opt_len_eq(r: Option<usize>, m: Option<int>) -> bool {
    match r {
        Some(n) => m == Some(n as int),
        None => m is None,
    }
}

pub proof fn lemma_word_run_bounds(s: Seq<char>, j: int)
    requires
        0 <= j <= s.len(),
    ensures
        0 <= word_run(s, j),
        j + word_run(s, j) <= s.len(),
    decreases s.len() - j,
{
    if j < s.len() && is_word_char(s[j]) {
        lemma_word_run_bounds(s, j + 1);
    }
}

pub proof fn lemma_digit_run_bounds(s: Seq<char>, j: int)
    requires
        0 <= j <= s.len(),
    ensures
        0 <= digit_run(s, j),
        j + digit_run(s, j) <= s.len(),
    decreases s.len() - j,
{
    if j < s.len() && is_digit(s[j]) {
        lemma_digit_run_bounds(s, j + 1);
    }
}

pub proof fn lemma_ca_scan_bounds(s: Seq<char>, j: int)
    requires
        0 <= j,
    ensures
        ca_scan(s, j) matches Some(end) ==> j + 2 <= end <= s.len(),
    decreases s.len() - j,
{
    if j < s.len() && !(s[j] != '\\' && j + 1 < s.len() && s[j + 1] == '"') && s[j] != '\n' {
        lemma_ca_scan_bounds(s, j + 1);
    }
}

/// Every successful match consumes at least one character and stays inside
/// the buffer: the scan strictly advances, which is why lexing terminates.
pub proof fn lemma_match_len_bounds(t: TokenType, s: Seq<char>, i: int)
    requires
        0 <= i <= s.len(),
    ensures
        spec_match_len(t, s, i) matches Some(l) ==> 1 <= l && i + l <= s.len(),
{
    match t {
        TokenType::CharArray => {
            lemma_ca_scan_bounds(s, i + 1);
        },
        TokenType::Alphanumeric => {
            if 0 <= i < s.len() && is_ident_start(s[i]) {
                lemma_word_run_bounds(s, i + 1);
            }
        },
        TokenType::Number => {
            lemma_digit_run_bounds(s, i);
            let d = digit_run(s, i);
            if d > 0 && i + d < s.len() && s[i + d] == '.' && digit_run(s, i + d + 1) > 0 {
                lemma_digit_run_bounds(s, i + d + 1);
            }
        },
        _ => {},
    }
}

fn word_char(c: char) -> (b: bool)
    ensures
        b == is_word_char(c),
{
    let n = c as u32;
    (97 <= n && n <= 122) || (65 <= n && n <= 90) || (48 <= n && n <= 57) || c == '_'
}

fn ident_start_char(c: char) -> (b: bool)
    ensures
        b == is_ident_start(c),
{
    let n = c as u32;
    (97 <= n && n <= 122) || (65 <= n && n <= 90) || c == '_'
}

fn digit_char(c: char) -> (b: bool)
    ensures
        b == is_digit(c),
{
    let n = c as u32;
    48 <= n && n <= 57
}

/// Matches the keyword pattern `kw[^\w\d]` at position `i`.
fn kw_match_at(src: &Vec<char>, i: usize, kw: &Vec<char>) -> (r: Option<usize>)
    requires
        i <= src@.len(),
    ensures
        opt_len_eq(r, kw_match_len(src@, i as int, kw@)),
{
    let klen = kw.len();
    if src.len() - i <= klen {
        return None;
    }
    let mut k: usize = 0;
    while k < klen
        invariant
            k <= klen,
            klen == kw@.len(),
            i + klen < src@.len() <= usize::MAX,
            forall|m: int| 0 <= m < k ==> src@[i + m] == kw@[m],
        decreases klen - k,
    {
        if src[i + k] != kw[k] {
            proof {
                assert(!lit_matches_at(src@, i as int, kw@));
            }
            return None;
        }
        k += 1;
    }
    let c = src[i + klen];
    if word_char(c) {
        return None;
    }
    if c == ' ' {
        Some(klen + 1)
    } else {
        Some(klen)
    }
}

fn one_char_at(src: &Vec<char>, i: usize, c: char) -> (r: Option<usize>)
    requires
        i <= src@.len(),
    ensures
        opt_len_eq(r, one_char_match(src@, i as int, c)),
{
    if i < src.len() && src[i] == c {
        Some(1)
    } else {
        None
    }
}

fn two_char_at(src: &Vec<char>, i: usize, c0: char, c1: char) -> (r: Option<usize>)
    requires
        i <= src@.len(),
    ensures
        opt_len_eq(r, two_char_match(src@, i as int, c0, c1)),
{
    if i < src.len() && i + 1 < src.len() && src[i] == c0 && src[i + 1] == c1 {
        Some(2)
    } else {
        None
    }
}

/// One past the end of the run of word characters starting at `start`.
fn word_run_end(src: &Vec<char>, start: usize) -> (j: usize)
    requires
        start <= src@.len(),
    ensures
        start <= j <= src@.len(),
        j as int == start as int + word_run(src@, start as int),
{
    let mut j = start;
    while j < src.len() && word_char(src[j])
        invariant
            start <= j <= src@.len(),
            word_run(src@, start as int) == j - start + word_run(src@, j as int),
        decreases src@.len() - j,
    {
        j += 1;
    }
    j
}

/// One past the end of the run of digits starting at `start`.
fn digit_run_end(src: &Vec<char>, start: usize) -> (j: usize)
    requires
        start <= src@.len(),
    ensures
        start <= j <= src@.len(),
        j as int == start as int + digit_run(src@, start as int),
{
    let mut j = start;
    while j < src.len() && digit_char(src[j])
        invariant
            start <= j <= src@.len(),
            digit_run(src@, start as int) == j - start + digit_run(src@, j as int),
        decreases src@.len() - j,
    {
        j += 1;
    }
    j
}

fn alnum_match_at(src: &Vec<char>, i: usize) -> (r: Option<usize>)
    requires
        i <= src@.len(),
    ensures
        opt_len_eq(r, alnum_match(src@, i as int)),
{
    if i < src.len() && ident_start_char(src[i]) {
        let e = word_run_end(src, i + 1);
        Some(e - i)
    } else {
        None
    }
}

fn number_match_at(src: &Vec<char>, i: usize) -> (r: Option<usize>)
    requires
        i <= src@.len(),
    ensures
        opt_len_eq(r, number_match(src@, i as int)),
{
    let e1 = digit_run_end(src, i);
    if e1 == i {
        return None;
    }
    if e1 < src.len() && src[e1] == '.' {
        let e2 = digit_run_end(src, e1 + 1);
        if e2 > e1 + 1 {
            return Some(e2 - i);
        }
    }
    Some(e1 - i)
}

fn char_array_match_at(src: &Vec<char>, i: usize) -> (r: Option<usize>)
    requires
        i <= src@.len(),
    ensures
        opt_len_eq(r, char_array_match(src@, i as int)),
{
    if i >= src.len() || src[i] != '"' {
        return None;
    }
    let mut j = i + 1;
    while j < src.len()
        invariant
            i < src@.len(),
            src@[i as int] == '"',
            i + 1 <= j,
            ca_scan(src@, i as int + 1) == ca_scan(src@, j as int),
        decreases src@.len() - j,
    {
        let cj = src[j];
        if cj != '\\' && j + 1 < src.len() && src[j + 1] == '"' {
            return Some(j + 2 - i);
        }
        if cj == '\n' {
            // the lazy `.*?` cannot cross a newline: the first alternative is dead
            j = src.len();
        } else {
            j += 1;
        }
    }
    if i + 1 < src.len() && src[i + 1] == '"' {
        Some(2)
    } else {
        None
    }
}

fn lit_let_vec() -> (v: Vec<char>)
    ensures
        v@ == lit_let(),
{
    let mut v: Vec<char> = Vec::new();
    v.push('l');
    v.push('e');
    v.push('t');
    proof {
        assert(v@ =~= lit_let());
    }
    v
}

fn lit_var_vec() -> (v: Vec<char>)
    ensures
        v@ == lit_var(),
{
    let mut v: Vec<char> = Vec::new();
    v.push('v');
    v.push('a');
    v.push('r');
    proof {
        assert(v@ =~= lit_var());
    }
    v
}

fn lit_import_vec() -> (v: Vec<char>)
    ensures
        v@ == lit_import(),
{
    let mut v: Vec<char> = Vec::new();
    v.push('i');
    v.push('m');
    v.push('p');
    v.push('o');
    v.push('r');
    v.push('t');
    proof {
        assert(v@ =~= lit_import());
    }
    v
}

fn lit_function_vec() -> (v: Vec<char>)
    ensures
        v@ == lit_function(),
{
    let mut v: Vec<char> = Vec::new();
    v.push('f');
    v.push('u');
    v.push('n');
    v.push('c');
    v.push('t');
    v.push('i');
    v.push('o');
    v.push('n');
    proof {
        assert(v@ =~= lit_function());
    }
    v
}

fn lit_new_vec() -> (v: Vec<char>)
    ensures
        v@ == lit_new(),
{
    let mut v: Vec<char> = Vec::new();
    v.push('n');
    v.push('e');
    v.push('w');
    proof {
        assert(v@ =~= lit_new());
    }
    v
}

fn lit_get_vec() -> (v: Vec<char>)
    ensures
        v@ == lit_get(),
{
    let mut v: Vec<char> = Vec::new();
    v.push('g');
    v.push('e');
    v.push('t');
    proof {
        assert(v@ =~= lit_get());
    }
    v
}

fn lit_set_vec() -> (v: Vec<char>)
    ensures
        v@ == lit_set(),
{
    let mut v: Vec<char> = Vec::new();
    v.push('s');
    v.push('e');
    v.push('t');
    proof {
        assert(v@ =~= lit_set());
    }
    v
}

fn lit_del_vec() -> (v: Vec<char>)
    ensures
        v@ == lit_del(),
{
    let mut v: Vec<char> = Vec::new();
    v.push('d');
    v.push('e');
    v.push('l');
    proof {
        assert(v@ =~= lit_del());
    }
    v
}

fn lit_true_vec() -> (v: Vec<char>)
    ensures
        v@ == lit_true(),
{
    let mut v: Vec<char> = Vec::new();
    v.push('t');
    v.push('r');
    v.push('u');
    v.push('e');
    proof {
        assert(v@ =~= lit_true());
    }
    v
}

fn lit_false_vec() -> (v: Vec<char>)
    ensures
        v@ == lit_false(),
{
    let mut v: Vec<char> = Vec::new();
    v.push('f');
    v.push('a');
    v.push('l');
    v.push('s');
    v.push('e');
    proof {
        assert(v@ =~= lit_false());
    }
    v
}

fn lit_null_vec() -> (v: Vec<char>)
    ensures
        v@ == lit_null(),
{
    let mut v: Vec<char> = Vec::new();
    v.push('n');
    v.push('u');
    v.push('l');
    v.push('l');
    proof {
        assert(v@ =~= lit_null());
    }
    v
}

fn lit_if_vec() -> (v: Vec<char>)
    ensures
        v@ == lit_if(),
{
    let mut v: Vec<char> = Vec::new();
    v.push('i');
    v.push('f');
    proof {
        assert(v@ =~= lit_if());
    }
    v
}

fn lit_else_vec() -> (v: Vec<char>)
    ensures
        v@ == lit_else(),
{
    let mut v: Vec<char> = Vec::new();
    v.push('e');
    v.push('l');
    v.push('s');
    v.push('e');
    proof {
        assert(v@ =~= lit_else());
    }
    v
}

impl TokenType {
    /// Whether this category's pattern matches at position `i` of `src`, and
    /// over how many characters: the executable form of [`spec_match_len`].
    pub fn match_at(&self, src: &Vec<char>, i: usize) -> (r: Option<usize>)
        requires
            i <= src@.len(),
        ensures
            opt_len_eq(r, spec_match_len(*self, src@, i as int)),
    {
        match self {
            TokenType::ImportKeyword => kw_match_at(src, i, &lit_import_vec()),
            TokenType::Query => {
                match kw_match_at(src, i, &lit_new_vec()) {
                    Some(n) => Some(n),
                    None => match kw_match_at(src, i, &lit_get_vec()) {
                        Some(n) => Some(n),
                        None => match kw_match_at(src, i, &lit_set_vec()) {
                            Some(n) => Some(n),
                            None => kw_match_at(src, i, &lit_del_vec()),
                        },
                    },
                }
            },
            TokenType::If => kw_match_at(src, i, &lit_if_vec()),
            TokenType::Else => kw_match_at(src, i, &lit_else_vec()),
            TokenType::Addition => one_char_at(src, i, '+'),
            TokenType::Subtraction => one_char_at(src, i, '-'),
            TokenType::Multiplication => one_char_at(src, i, '*'),
            TokenType::Division => one_char_at(src, i, '/'),
            TokenType::EqualSign => two_char_at(src, i, '=', '='),
            TokenType::NotEqualSign => two_char_at(src, i, '!', '='),
            TokenType::Greater => one_char_at(src, i, '>'),
            TokenType::Less => one_char_at(src, i, '<'),
            TokenType::GreaterOrEqual => two_char_at(src, i, '>', '='),
            TokenType::LessOrEqual => two_char_at(src, i, '<', '='),
            TokenType::Assign => one_char_at(src, i, '='),
            TokenType::VariableAssign => {
                match kw_match_at(src, i, &lit_let_vec()) {
                    Some(n) => Some(n),
                    None => kw_match_at(src, i, &lit_var_vec()),
                }
            },
            TokenType::FunctionAssign => kw_match_at(src, i, &lit_function_vec()),
            TokenType::LPar => one_char_at(src, i, '('),
            TokenType::RPar => one_char_at(src, i, ')'),
            TokenType::LBracket => one_char_at(src, i, '{'),
            TokenType::RBracket => one_char_at(src, i, '}'),
            TokenType::CharArray => char_array_match_at(src, i),
            TokenType::Alphanumeric => alnum_match_at(src, i),
            TokenType::Number => number_match_at(src, i),
            TokenType::Space => one_char_at(src, i, ' '),
            TokenType::Dot => one_char_at(src, i, '.'),
            TokenType::Comma => one_char_at(src, i, ','),
            TokenType::Colon => one_char_at(src, i, ':'),
            TokenType::True => kw_match_at(src, i, &lit_true_vec()),
            TokenType::False => kw_match_at(src, i, &lit_false_vec()),
            TokenType::Null => kw_match_at(src, i, &lit_null_vec()),
            TokenType::ExpressionEnd => one_char_at(src, i, ';'),
            TokenType::NewLine => one_char_at(src, i, '\n'),
            TokenType::Indent => one_char_at(src, i, '\t'),
            TokenType::Carriage => one_char_at(src, i, '\r'),
        }
    }

    /// The recognition pattern of this category as a regular expression,
    /// a total function over the closed category set.
    pub fn regex_str(&self) -> (r: &'static str)
        ensures
            r@ == spec_regex_str(*self),
    {
        match self {
            TokenType::VariableAssign => r"(?:let|var)[^\w\d]",
            TokenType::ImportKeyword => r"import[^\w\d]",
            TokenType::FunctionAssign => r"function[^\w\d]",
            TokenType::Query => r"(?:new|get|set|del)[^\w\d]",
            TokenType::True => r"true[^\w\d]",
            TokenType::False => r"false[^\w\d]",
            TokenType::Null => r"null[^\w\d]",
            TokenType::If => r"if[^\w\d]",
            TokenType::Else => r"else[^\w\d]",
            TokenType::Addition => r"\+",
            TokenType::Subtraction => r"-",
            TokenType::Multiplication => r"\*",
            TokenType::Division => r"\/",
            TokenType::Assign => r"=",
            TokenType::EqualSign => r"==",
            TokenType::NotEqualSign => r"!=",
            TokenType::Greater => r">",
            TokenType::Less => r"<",
            TokenType::GreaterOrEqual => r">=",
            TokenType::LessOrEqual => r"<=",
            TokenType::LPar => r"\(",
            TokenType::RPar => r"\)",
            TokenType::LBracket => r"\{",
            TokenType::RBracket => r"\}",
            TokenType::CharArray => "\".*?[^\\\\]\"|\"\"",
            TokenType::Alphanumeric => r"[a-zA-Z_]\w*",
            TokenType::Number => r"\d+(\.\d+)?",
            TokenType::Space => " ",
            TokenType::Dot => r"\.",
            TokenType::Comma => r",",
            TokenType::Colon => r":",
            TokenType::ExpressionEnd => r";",
            TokenType::NewLine => r"\n",
            TokenType::Indent => r"\t",
            TokenType::Carriage => r"\r",
        }
    }
}

} // verus!
