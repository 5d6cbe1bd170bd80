//! The lexer: scans a source buffer and produces the ordered token
//! sequence, or fails at the first character no category recognizes.
//!
//! The scan keeps a cursor, a line counter and a column. At each cursor
//! position every category is tried in taxonomy order and the first match
//! wins; the matched text becomes a token, and the cursor advances by the
//! matched length. Whitespace categories are emitted like any others.

use vstd::prelude::*;
use vstd::string::StrSliceExecFns;
use crate::tokens::{
    LexedToken, Token, TokenType, lemma_match_len_bounds, spec_match_len,
};

verus! {

/// Where and why a scan failed: the offending character, its position,
/// line and column.
pub ghost struct LexFailure {
    pub position: int,
    pub line: int,
    pub column: int,
    pub character: char,
}

/// Tries one category ahead of whatever the rest of the taxonomy order
/// would decide: the building block of [`spec_first_match`].
pub open spec fn try_category(
    t: TokenType,
    s: Seq<char>,
    i: int,
    rest: Option<(TokenType, int)>,
) -> Option<(TokenType, int)> {
    match spec_match_len(t, s, i) {
        Some(l) => Some((t, l)),
        None => rest,
    }
}

/// The winning category at position `i`: the categories are tried in
/// taxonomy order ([`spec_match_order`]) and the first whose pattern
/// matches a non-empty prefix wins — first-match-wins, not
/// longest-match-wins.
pub open spec fn spec_first_match(s: Seq<char>, i: int) -> Option<(TokenType, int)> {
    try_category(TokenType::VariableAssign, s, i,
    try_category(TokenType::ImportKeyword, s, i,
    try_category(TokenType::FunctionAssign, s, i,
    try_category(TokenType::Query, s, i,
    try_category(TokenType::True, s, i,
    try_category(TokenType::False, s, i,
    try_category(TokenType::Null, s, i,
    try_category(TokenType::If, s, i,
    try_category(TokenType::Else, s, i,
    try_category(TokenType::EqualSign, s, i,
    try_category(TokenType::NotEqualSign, s, i,
    try_category(TokenType::GreaterOrEqual, s, i,
    try_category(TokenType::LessOrEqual, s, i,
    try_category(TokenType::Greater, s, i,
    try_category(TokenType::Less, s, i,
    try_category(TokenType::Assign, s, i,
    try_category(TokenType::Addition, s, i,
    try_category(TokenType::Subtraction, s, i,
    try_category(TokenType::Multiplication, s, i,
    try_category(TokenType::Division, s, i,
    try_category(TokenType::LPar, s, i,
    try_category(TokenType::RPar, s, i,
    try_category(TokenType::LBracket, s, i,
    try_category(TokenType::RBracket, s, i,
    try_category(TokenType::CharArray, s, i,
    try_category(TokenType::Alphanumeric, s, i,
    try_category(TokenType::Number, s, i,
    try_category(TokenType::Space, s, i,
    try_category(TokenType::Dot, s, i,
    try_category(TokenType::Comma, s, i,
    try_category(TokenType::Colon, s, i,
    try_category(TokenType::ExpressionEnd, s, i,
    try_category(TokenType::NewLine, s, i,
    try_category(TokenType::Indent, s, i,
    try_category(TokenType::Carriage, s, i,
    None)))))))))))))))))))))))))))))))))))
}

/// No declared category matches at position `i` of `s`.
pub open spec fn no_category_matches(s: Seq<char>, i: int) -> bool {
    forall|t: TokenType| #[trigger] spec_match_len(t, s, i) is None
}

/// The winning category really is one whose pattern matches, and a losing
/// scan position is one where every category fails.
pub proof fn lemma_first_match_cases(s: Seq<char>, i: int)
    ensures
        spec_first_match(s, i) matches Some(m) ==> spec_match_len(m.0, s, i) == Some(m.1),
        spec_first_match(s, i) is None ==> no_category_matches(s, i),
{
    if spec_first_match(s, i) is None {
        assert forall|t: TokenType| #[trigger] spec_match_len(t, s, i) is None by {
            match t {
                TokenType::ImportKeyword => {},
                TokenType::Query => {},
                TokenType::If => {},
                TokenType::Else => {},
                TokenType::Addition => {},
                TokenType::Subtraction => {},
                TokenType::Multiplication => {},
                TokenType::Division => {},
                TokenType::EqualSign => {},
                TokenType::NotEqualSign => {},
                TokenType::Greater => {},
                TokenType::Less => {},
                TokenType::GreaterOrEqual => {},
                TokenType::LessOrEqual => {},
                TokenType::Assign => {},
                TokenType::VariableAssign => {},
                TokenType::FunctionAssign => {},
                TokenType::LPar => {},
                TokenType::RPar => {},
                TokenType::LBracket => {},
                TokenType::RBracket => {},
                TokenType::CharArray => {},
                TokenType::Alphanumeric => {},
                TokenType::Number => {},
                TokenType::Space => {},
                TokenType::Dot => {},
                TokenType::Comma => {},
                TokenType::Colon => {},
                TokenType::True => {},
                TokenType::False => {},
                TokenType::Null => {},
                TokenType::ExpressionEnd => {},
                TokenType::NewLine => {},
                TokenType::Indent => {},
                TokenType::Carriage => {},
            }
        }
    }
}

/// A winning match consumes at least one character and stays inside the
/// buffer: the cursor strictly advances, so the scan terminates.
pub proof fn lemma_first_match_bounds(s: Seq<char>, i: int)
    requires
        0 <= i <= s.len(),
    ensures
        spec_first_match(s, i) matches Some(m) ==> 1 <= m.1 && i + m.1 <= s.len(),
{
    lemma_first_match_cases(s, i);
    match spec_first_match(s, i) {
        Some(m) => {
            lemma_match_len_bounds(m.0, s, i);
        },
        None => {},
    }
}

/// The scan from position `i` with the given line counter and column: the
/// remaining token sequence, or the first failure. This is the meaning of
/// [`Lexer::analyze`].
pub open spec fn lex_from(s: Seq<char>, i: int, line: int, col: int) -> Result<
    Seq<LexedToken>,
    LexFailure,
>
    decreases s.len() - i,
        when 0 <= i <= s.len()
{
    if i >= s.len() {
        Ok(Seq::empty())
    } else {
        match spec_first_match(s, i) {
            None => Err(LexFailure { position: i, line, column: col, character: s[i] }),
            Some(m) => {
                proof {
                    lemma_first_match_bounds(s, i);
                }
                let head = LexedToken {
                    token_type: m.0,
                    position: i,
                    line,
                    value: s.subrange(i, i + m.1),
                };
                let next_line = if m.0 == TokenType::NewLine {
                    line + 1
                } else {
                    line
                };
                let next_col = if m.0 == TokenType::NewLine {
                    1
                } else {
                    col + m.1
                };
                match lex_from(s, i + m.1, next_line, next_col) {
                    Ok(rest) => Ok(seq![head] + rest),
                    Err(f) => Err(f),
                }
            },
        }
    }
}

/// The whole-buffer scan: cursor at the start, line 1, column 1.
pub open spec fn spec_lex(s: Seq<char>) -> Result<Seq<LexedToken>, LexFailure> {
    lex_from(s, 0, 1, 1)
}

/// A lexing error: terminal for the scan that raised it, never retried and
/// never swallowed.
#[derive(Debug)]
pub enum LexError {
    /// The cursor sat at a character sequence matching no declared category.
    UnrecognizedToken {
        position: u64,
        line: u64,
        column: u64,
        character: char,
        buffer_label: String,
    },
}

/// Relies on String::push: appends the given character to the end of the
/// string.
#[verifier::external_body]
fn push_char(s: &mut String, c: char)
    ensures
        final(s)@ == old(s)@.push(c),
{
    s.push(c);
}

/// Copies the characters of `s` into a vector.
fn str_to_chars(s: &str) -> (v: Vec<char>)
    ensures
        v@ == s@,
{
    let n = s.unicode_len();
    let mut v: Vec<char> = Vec::new();
    let mut i: usize = 0;
    while i < n
        invariant
            n == s@.len(),
            i <= n,
            v@ == s@.subrange(0, i as int),
        decreases n - i,
    {
        let c = s.get_char(i);
        v.push(c);
        proof {
            assert(s@.subrange(0, i + 1) =~= s@.subrange(0, i as int).push(s@[i as int]));
        }
        i += 1;
    }
    proof {
        assert(s@.subrange(0, n as int) =~= s@);
    }
    v
}

/// The characters `src[start..end]` as a fresh string.
fn string_from_range(src: &Vec<char>, start: usize, end: usize) -> (r: String)
    requires
        start <= end <= src@.len(),
    ensures
        r@ == src@.subrange(start as int, end as int),
{
    let mut r = String::new();
    let mut j = start;
    while j < end
        invariant
            start <= j <= end <= src@.len(),
            r@ == src@.subrange(start as int, j as int),
        decreases end - j,
    {
        push_char(&mut r, src[j]);
        proof {
            assert(src@.subrange(start as int, j + 1) =~= src@.subrange(
                start as int,
                j as int,
            ).push(src@[j as int]));
        }
        j += 1;
    }
    r
}

/// The first category whose pattern matches at position `i`, in taxonomy
/// order, with the match length.
fn first_match(src: &Vec<char>, i: usize) -> (r: Option<(TokenType, usize)>)
    requires
        i <= src@.len(),
    ensures
        match r {
            Some(m) => spec_first_match(src@, i as int) == Some((m.0, m.1 as int)),
            None => spec_first_match(src@, i as int) is None,
        },
{
    if let Some(l) = TokenType::VariableAssign.match_at(src, i) {
        return Some((TokenType::VariableAssign, l));
    }
    if let Some(l) = TokenType::ImportKeyword.match_at(src, i) {
        return Some((TokenType::ImportKeyword, l));
    }
    if let Some(l) = TokenType::FunctionAssign.match_at(src, i) {
        return Some((TokenType::FunctionAssign, l));
    }
    if let Some(l) = TokenType::Query.match_at(src, i) {
        return Some((TokenType::Query, l));
    }
    if let Some(l) = TokenType::True.match_at(src, i) {
        return Some((TokenType::True, l));
    }
    if let Some(l) = TokenType::False.match_at(src, i) {
        return Some((TokenType::False, l));
    }
    if let Some(l) = TokenType::Null.match_at(src, i) {
        return Some((TokenType::Null, l));
    }
    if let Some(l) = TokenType::If.match_at(src, i) {
        return Some((TokenType::If, l));
    }
    if let Some(l) = TokenType::Else.match_at(src, i) {
        return Some((TokenType::Else, l));
    }
    if let Some(l) = TokenType::EqualSign.match_at(src, i) {
        return Some((TokenType::EqualSign, l));
    }
    if let Some(l) = TokenType::NotEqualSign.match_at(src, i) {
        return Some((TokenType::NotEqualSign, l));
    }
    if let Some(l) = TokenType::GreaterOrEqual.match_at(src, i) {
        return Some((TokenType::GreaterOrEqual, l));
    }
    if let Some(l) = TokenType::LessOrEqual.match_at(src, i) {
        return Some((TokenType::LessOrEqual, l));
    }
    if let Some(l) = TokenType::Greater.match_at(src, i) {
        return Some((TokenType::Greater, l));
    }
    if let Some(l) = TokenType::Less.match_at(src, i) {
        return Some((TokenType::Less, l));
    }
    if let Some(l) = TokenType::Assign.match_at(src, i) {
        return Some((TokenType::Assign, l));
    }
    if let Some(l) = TokenType::Addition.match_at(src, i) {
        return Some((TokenType::Addition, l));
    }
    if let Some(l) = TokenType::Subtraction.match_at(src, i) {
        return Some((TokenType::Subtraction, l));
    }
    if let Some(l) = TokenType::Multiplication.match_at(src, i) {
        return Some((TokenType::Multiplication, l));
    }
    if let Some(l) = TokenType::Division.match_at(src, i) {
        return Some((TokenType::Division, l));
    }
    if let Some(l) = TokenType::LPar.match_at(src, i) {
        return Some((TokenType::LPar, l));
    }
    if let Some(l) = TokenType::RPar.match_at(src, i) {
        return Some((TokenType::RPar, l));
    }
    if let Some(l) = TokenType::LBracket.match_at(src, i) {
        return Some((TokenType::LBracket, l));
    }
    if let Some(l) = TokenType::RBracket.match_at(src, i) {
        return Some((TokenType::RBracket, l));
    }
    if let Some(l) = TokenType::CharArray.match_at(src, i) {
        return Some((TokenType::CharArray, l));
    }
    if let Some(l) = TokenType::Alphanumeric.match_at(src, i) {
        return Some((TokenType::Alphanumeric, l));
    }
    if let Some(l) = TokenType::Number.match_at(src, i) {
        return Some((TokenType::Number, l));
    }
    if let Some(l) = TokenType::Space.match_at(src, i) {
        return Some((TokenType::Space, l));
    }
    if let Some(l) = TokenType::Dot.match_at(src, i) {
        return Some((TokenType::Dot, l));
    }
    if let Some(l) = TokenType::Comma.match_at(src, i) {
        return Some((TokenType::Comma, l));
    }
    if let Some(l) = TokenType::Colon.match_at(src, i) {
        return Some((TokenType::Colon, l));
    }
    if let Some(l) = TokenType::ExpressionEnd.match_at(src, i) {
        return Some((TokenType::ExpressionEnd, l));
    }
    if let Some(l) = TokenType::NewLine.match_at(src, i) {
        return Some((TokenType::NewLine, l));
    }
    if let Some(l) = TokenType::Indent.match_at(src, i) {
        return Some((TokenType::Indent, l));
    }
    if let Some(l) = TokenType::Carriage.match_at(src, i) {
        return Some((TokenType::Carriage, l));
    }
    None
}

/// Lexer for one source buffer: owns the text and a human-readable label
/// used only in diagnostics.
pub struct Lexer {
    pub source: String,
    pub label: String,
}

impl Lexer {
    /// Stores the buffer and its label; the scan itself happens in
    /// [`Lexer::analyze`].
    pub fn new(source: String, label: String) -> (l: Lexer)
        ensures
            l.source@ == source@,
            l.label@ == label@,
    {
        Lexer { source, label }
    }

    /// Scans the whole buffer into the ordered token sequence [`spec_lex`]
    /// describes, or fails with [`LexError::UnrecognizedToken`] at the first
    /// character no category matches. The buffer must hold fewer than
    /// `u64::MAX` characters so that positions and line numbers fit their
    /// fields; a caller can check `unicode_len` where the bound is not known.
    pub fn analyze(&self) -> (r: Result<Vec<Token>, LexError>)
        requires
            self.source@.len() < u64::MAX,
        ensures
            r is Ok <==> spec_lex(self.source@) is Ok,
            r matches Ok(toks) ==> toks@.map_values(|t: Token| t@) == spec_lex(
                self.source@,
            )->Ok_0,
            r matches Err(e) ==> (spec_lex(self.source@) matches Err(f) && (e matches
            LexError::UnrecognizedToken { position, line, column, character, buffer_label }
                && position as int == f.position && line as int == f.line && column as int
                == f.column && character == f.character && buffer_label@ == self.label@)),
    {
        let src = str_to_chars(self.source.as_str());
        let n = src.len();
        let ghost s = self.source@;
        let mut toks: Vec<Token> = Vec::new();
        let mut i: usize = 0;
        let mut line: u64 = 1;
        let mut col: u64 = 1;
        while i < n
            invariant
                src@ == s,
                s == self.source@,
                n == src@.len(),
                s.len() < u64::MAX,
                i <= n,
                1 <= line as int <= i as int + 1,
                1 <= col as int <= i as int + 1,
                match lex_from(s, i as int, line as int, col as int) {
                    Ok(rest) => spec_lex(s) is Ok && spec_lex(s)->Ok_0 == toks@.map_values(
                        |t: Token| t@,
                    ) + rest,
                    Err(f) => spec_lex(s) == Err::<Seq<LexedToken>, LexFailure>(f),
                },
            decreases n - i,
        {
            match first_match(&src, i) {
                None => {
                    return Err(
                        LexError::UnrecognizedToken {
                            position: i as u64,
                            line,
                            column: col,
                            character: src[i],
                            buffer_label: self.label.clone(),
                        },
                    );
                },
                Some((t, l)) => {
                    proof {
                        lemma_first_match_bounds(s, i as int);
                    }
                    let value = string_from_range(&src, i, i + l);
                    let ghost head = LexedToken {
                        token_type: t,
                        position: i as int,
                        line: line as int,
                        value: s.subrange(i as int, i + l),
                    };
                    let ghost prev = toks@.map_values(|t: Token| t@);
                    let tok = Token { token_type: t, position: i as u64, line, value };
                    proof {
                        assert(tok@ == head);
                    }
                    toks.push(tok);
                    proof {
                        assert(toks@.map_values(|t: Token| t@) =~= prev.push(head));
                        let next_line: int = if t == TokenType::NewLine {
                            line as int + 1
                        } else {
                            line as int
                        };
                        let next_col: int = if t == TokenType::NewLine {
                            1
                        } else {
                            col as int + l as int
                        };
                        match lex_from(s, i + l, next_line, next_col) {
                            Ok(rest) => {
                                assert(prev.push(head) + rest =~= prev + (seq![head] + rest));
                            },
                            Err(f) => {},
                        }
                    }
                    if t == TokenType::NewLine {
                        line = line + 1;
                        col = 1;
                    } else {
                        col = col + l as u64;
                    }
                    i = i + l;
                },
            }
        }
        proof {
            assert(lex_from(s, i as int, line as int, col as int) == Ok::<
                Seq<LexedToken>,
                LexFailure,
            >(Seq::empty()));
            assert(toks@.map_values(|t: Token| t@) + Seq::<LexedToken>::empty()
                =~= toks@.map_values(|t: Token| t@));
        }
        Ok(toks)
    }
}

} // verus!
