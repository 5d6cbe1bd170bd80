//! General laws of the lexer, proved for every buffer.

use vstd::prelude::*;
use crate::tokens::{
    LexedToken, TokenType, digit_run, is_digit, is_ident_start, is_word_char, kw_match_len,
    lit_del, lit_else, lit_false, lit_function, lit_get, lit_if, lit_import, lit_let, lit_new,
    lit_null, lit_set, lit_true, lit_var, spec_match_len, spec_match_order, word_run,
};
use crate::lexer::{
    LexFailure, lemma_first_match_bounds, lemma_first_match_cases, lex_from,
    no_category_matches, spec_first_match, spec_lex, try_category,
};

verus! {

/// The values of a token sequence, concatenated in emission order.
pub open spec fn concat_values(toks: Seq<LexedToken>) -> Seq<char>
    decreases toks.len(),
{
    if toks.len() == 0 {
        Seq::empty()
    } else {
        toks[0].value + concat_values(toks.subrange(1, toks.len() as int))
    }
}

proof fn lemma_lex_from_round_trip(s: Seq<char>, i: int, line: int, col: int)
    requires
        0 <= i <= s.len(),
    ensures
        lex_from(s, i, line, col) matches Ok(toks) ==> concat_values(toks) == s.subrange(
            i,
            s.len() as int,
        ),
    decreases s.len() - i,
{
    if i >= s.len() {
        assert(s.subrange(i, s.len() as int) =~= Seq::<char>::empty());
    } else {
        match spec_first_match(s, i) {
            None => {},
            Some(m) => {
                lemma_first_match_bounds(s, i);
                let next_line = if m.0 == TokenType::NewLine {
                    line + 1
                } else {
                    line
                };
                let next_col = if m.0 == TokenType::NewLine {
                    1int
                } else {
                    col + m.1
                };
                lemma_lex_from_round_trip(s, i + m.1, next_line, next_col);
                match lex_from(s, i + m.1, next_line, next_col) {
                    Ok(rest) => {
                        let head = LexedToken {
                            token_type: m.0,
                            position: i,
                            line,
                            value: s.subrange(i, i + m.1),
                        };
                        let toks = seq![head] + rest;
                        assert(toks.subrange(1, toks.len() as int) =~= rest);
                        assert(concat_values(toks) == head.value + concat_values(rest));
                        assert(s.subrange(i, i + m.1) + s.subrange(i + m.1, s.len() as int)
                            =~= s.subrange(i, s.len() as int));
                    },
                    Err(_) => {},
                }
            },
        }
    }
}

/// Round-trip law: whenever the scan succeeds, the values of the returned
/// tokens, concatenated in emission order, reproduce the buffer exactly.
pub proof fn lemma_round_trip(s: Seq<char>)
    ensures
        spec_lex(s) matches Ok(toks) ==> concat_values(toks) == s,
{
    lemma_lex_from_round_trip(s, 0, 1, 1);
    assert(s.subrange(0, s.len() as int) =~= s);
}

/// How many tokens of the sequence are newline tokens.
pub open spec fn newline_count(toks: Seq<LexedToken>) -> int
    decreases toks.len(),
{
    if toks.len() == 0 {
        0
    } else {
        (if toks[0].token_type == TokenType::NewLine {
            1int
        } else {
            0int
        }) + newline_count(toks.subrange(1, toks.len() as int))
    }
}

proof fn lemma_newline_count_concat(a: Seq<LexedToken>, b: Seq<LexedToken>)
    ensures
        newline_count(a + b) == newline_count(a) + newline_count(b),
    decreases a.len(),
{
    if a.len() == 0 {
        assert(a + b =~= b);
    } else {
        assert((a + b).subrange(1, (a + b).len() as int) =~= a.subrange(1, a.len() as int) + b);
        assert((a + b)[0] == a[0]);
        lemma_newline_count_concat(a.subrange(1, a.len() as int), b);
    }
}

proof fn lemma_newline_count_nonneg(a: Seq<LexedToken>)
    ensures
        newline_count(a) >= 0,
    decreases a.len(),
{
    if a.len() > 0 {
        lemma_newline_count_nonneg(a.subrange(1, a.len() as int));
    }
}

proof fn lemma_lex_from_lines(s: Seq<char>, i: int, line: int, col: int)
    requires
        0 <= i <= s.len(),
    ensures
        lex_from(s, i, line, col) matches Ok(toks) ==> forall|k: int|
            0 <= k < toks.len() ==> #[trigger] toks[k].line == line + newline_count(
                toks.subrange(0, k),
            ),
    decreases s.len() - i,
{
    if i < s.len() {
        match spec_first_match(s, i) {
            None => {},
            Some(m) => {
                lemma_first_match_bounds(s, i);
                let next_line = if m.0 == TokenType::NewLine {
                    line + 1
                } else {
                    line
                };
                let next_col = if m.0 == TokenType::NewLine {
                    1int
                } else {
                    col + m.1
                };
                lemma_lex_from_lines(s, i + m.1, next_line, next_col);
                match lex_from(s, i + m.1, next_line, next_col) {
                    Ok(rest) => {
                        let head = LexedToken {
                            token_type: m.0,
                            position: i,
                            line,
                            value: s.subrange(i, i + m.1),
                        };
                        let toks = seq![head] + rest;
                        assert forall|k: int| 0 <= k < toks.len() implies #[trigger] toks[k].line
                            == line + newline_count(toks.subrange(0, k)) by {
                            if k == 0 {
                                assert(toks.subrange(0, 0) =~= Seq::<LexedToken>::empty());
                            } else {
                                assert(toks[k] == rest[k - 1]);
                                assert(rest[k - 1].line == next_line + newline_count(
                                    rest.subrange(0, k - 1),
                                ));
                                assert(toks.subrange(0, k) =~= seq![head] + rest.subrange(
                                    0,
                                    k - 1,
                                ));
                                lemma_newline_count_concat(seq![head], rest.subrange(0, k - 1));
                                assert(seq![head].subrange(1, 1) =~= Seq::<LexedToken>::empty());
                                assert(newline_count(Seq::<LexedToken>::empty()) == 0);
                                assert(newline_count(seq![head]) == (if head.token_type
                                    == TokenType::NewLine {
                                    1int
                                } else {
                                    0int
                                }));
                            }
                        }
                    },
                    Err(_) => {},
                }
            },
        }
    }
}

/// How many newline characters `s` holds from position `i` on.
pub open spec fn newline_chars_from(s: Seq<char>, i: int) -> int
    decreases s.len() - i,
{
    if i < 0 || i >= s.len() {
        0
    } else {
        (if s[i] == '\n' {
            1int
        } else {
            0int
        }) + newline_chars_from(s, i + 1)
    }
}

/// How many newline characters the buffer holds.
pub open spec fn newline_chars(s: Seq<char>) -> int {
    newline_chars_from(s, 0)
}

proof fn lemma_newline_chars_mono(s: Seq<char>, i: int, j: int)
    requires
        0 <= i <= j,
    ensures
        newline_chars_from(s, i) >= newline_chars_from(s, j) >= 0,
    decreases s.len() - i,
{
    if i < s.len() {
        if i < j {
            lemma_newline_chars_mono(s, i + 1, j);
        } else {
            lemma_newline_chars_mono(s, i + 1, j + 1);
        }
    }
}

/// A scan emits at most one newline token per newline character.
proof fn lemma_lex_from_newline_bound(s: Seq<char>, i: int, line: int, col: int)
    requires
        0 <= i <= s.len(),
    ensures
        lex_from(s, i, line, col) matches Ok(toks) ==> newline_count(toks) <= newline_chars_from(
            s,
            i,
        ),
    decreases s.len() - i,
{
    if i >= s.len() {
        assert(newline_count(Seq::<LexedToken>::empty()) == 0);
        lemma_newline_chars_mono(s, i, i);
    } else {
        match spec_first_match(s, i) {
            None => {},
            Some(m) => {
                lemma_first_match_bounds(s, i);
                lemma_first_match_cases(s, i);
                let next_line = if m.0 == TokenType::NewLine {
                    line + 1
                } else {
                    line
                };
                let next_col = if m.0 == TokenType::NewLine {
                    1int
                } else {
                    col + m.1
                };
                lemma_lex_from_newline_bound(s, i + m.1, next_line, next_col);
                match lex_from(s, i + m.1, next_line, next_col) {
                    Ok(rest) => {
                        let head = LexedToken {
                            token_type: m.0,
                            position: i,
                            line,
                            value: s.subrange(i, i + m.1),
                        };
                        lemma_newline_count_concat(seq![head], rest);
                        assert(seq![head].subrange(1, 1) =~= Seq::<LexedToken>::empty());
                        assert(newline_count(Seq::<LexedToken>::empty()) == 0);
                        if m.0 == TokenType::NewLine {
                            assert(s[i] == '\n');
                            assert(m.1 == 1);
                            lemma_newline_chars_mono(s, i + 1, i + 1);
                        } else {
                            lemma_newline_chars_mono(s, i, i + m.1);
                        }
                    },
                    Err(_) => {},
                }
            },
        }
    }
}

/// Line-accounting law: each token's line number is one more than the
/// number of newline tokens emitted before it. Hence line numbers start at
/// 1, are monotonically non-decreasing in emission order, and never exceed
/// one more than the buffer's newline-character count.
pub proof fn lemma_line_accounting(s: Seq<char>)
    ensures
        spec_lex(s) matches Ok(toks) ==> forall|k: int|
            0 <= k < toks.len() ==> #[trigger] toks[k].line == 1 + newline_count(
                toks.subrange(0, k),
            ),
        spec_lex(s) matches Ok(toks) ==> forall|j: int, k: int|
            0 <= j <= k < toks.len() ==> #[trigger] toks[j].line <= #[trigger] toks[k].line,
        spec_lex(s) matches Ok(toks) ==> forall|k: int|
            0 <= k < toks.len() ==> 1 <= #[trigger] toks[k].line <= 1 + newline_count(toks),
        spec_lex(s) matches Ok(toks) ==> newline_count(toks) <= newline_chars(s),
{
    lemma_lex_from_lines(s, 0, 1, 1);
    lemma_lex_from_newline_bound(s, 0, 1, 1);
    match spec_lex(s) {
        Ok(toks) => {
            assert forall|j: int, k: int| 0 <= j <= k < toks.len() implies #[trigger] toks[j].line
                <= #[trigger] toks[k].line by {
                assert(toks.subrange(0, k) =~= toks.subrange(0, j) + toks.subrange(j, k));
                lemma_newline_count_concat(toks.subrange(0, j), toks.subrange(j, k));
                lemma_newline_count_nonneg(toks.subrange(j, k));
            }
            assert forall|k: int| 0 <= k < toks.len() implies 1 <= #[trigger] toks[k].line <= 1
                + newline_count(toks) by {
                lemma_newline_count_nonneg(toks.subrange(0, k));
                assert(toks =~= toks.subrange(0, k) + toks.subrange(k, toks.len() as int));
                lemma_newline_count_concat(toks.subrange(0, k), toks.subrange(k, toks.len() as int));
                lemma_newline_count_nonneg(toks.subrange(k, toks.len() as int));
            }
        },
        Err(_) => {},
    }
}

proof fn lemma_lex_from_err(s: Seq<char>, i: int, line: int, col: int)
    requires
        0 <= i <= s.len(),
    ensures
        lex_from(s, i, line, col) matches Err(f) ==> i <= f.position < s.len()
            && no_category_matches(s, f.position) && f.character == s[f.position],
    decreases s.len() - i,
{
    if i < s.len() {
        match spec_first_match(s, i) {
            None => {
                lemma_first_match_cases(s, i);
            },
            Some(m) => {
                lemma_first_match_bounds(s, i);
                let next_line = if m.0 == TokenType::NewLine {
                    line + 1
                } else {
                    line
                };
                let next_col = if m.0 == TokenType::NewLine {
                    1int
                } else {
                    col + m.1
                };
                lemma_lex_from_err(s, i + m.1, next_line, next_col);
            },
        }
    }
}

/// Unrecognized-character law: a failed scan fails exactly at a character
/// where no declared category matches — the failure's position points at
/// that character, and the failure carries the character itself.
pub proof fn lemma_unrecognized_exact(s: Seq<char>)
    ensures
        spec_lex(s) matches Err(f) ==> 0 <= f.position < s.len() && no_category_matches(
            s,
            f.position,
        ) && f.character == s[f.position],
{
    lemma_lex_from_err(s, 0, 1, 1);
}

/// The alphabet of every pattern but the quoted-text one: the characters
/// that can stand inside a match of some other category.
pub open spec fn pattern_char(c: char) -> bool {
    ||| is_word_char(c)
    ||| c == ' '
    ||| c == '+'
    ||| c == '-'
    ||| c == '*'
    ||| c == '/'
    ||| c == '='
    ||| c == '!'
    ||| c == '>'
    ||| c == '<'
    ||| c == '('
    ||| c == ')'
    ||| c == '{'
    ||| c == '}'
    ||| c == '.'
    ||| c == ','
    ||| c == ':'
    ||| c == ';'
    ||| c == '\n'
    ||| c == '\t'
    ||| c == '\r'
}

proof fn lemma_word_run_chars(s: Seq<char>, j: int)
    requires
        0 <= j <= s.len(),
    ensures
        forall|k: int| j <= k < j + word_run(s, j) ==> is_word_char(#[trigger] s[k]),
    decreases s.len() - j,
{
    crate::tokens::lemma_word_run_bounds(s, j);
    if j < s.len() && is_word_char(s[j]) {
        lemma_word_run_chars(s, j + 1);
    }
}

proof fn lemma_digit_run_chars(s: Seq<char>, j: int)
    requires
        0 <= j <= s.len(),
    ensures
        forall|k: int| j <= k < j + digit_run(s, j) ==> is_digit(#[trigger] s[k]),
    decreases s.len() - j,
{
    crate::tokens::lemma_digit_run_bounds(s, j);
    if j < s.len() && is_digit(s[j]) {
        lemma_digit_run_chars(s, j + 1);
    }
}

/// Every keyword literal is made of word characters and opens like an
/// identifier.
proof fn lemma_keyword_literal_chars(w: Seq<char>)
    requires
        is_keyword_literal(w),
    ensures
        w.len() >= 2,
        is_ident_start(w[0]),
        forall|k: int| 0 <= k < w.len() ==> is_word_char(#[trigger] w[k]),
{
    assert forall|k: int| 0 <= k < w.len() implies is_word_char(#[trigger] w[k]) by {}
}

proof fn lemma_kw_value_chars(s: Seq<char>, i: int, lit: Seq<char>)
    requires
        0 <= i,
        forall|k: int| 0 <= k < lit.len() ==> is_word_char(#[trigger] lit[k]),
    ensures
        kw_match_len(s, i, lit) matches Some(l) ==> forall|k: int|
            i <= k < i + l ==> pattern_char(#[trigger] s[k]),
{
    match kw_match_len(s, i, lit) {
        Some(l) => {
            assert forall|k: int| i <= k < i + l implies pattern_char(#[trigger] s[k]) by {
                if k < i + lit.len() {
                    assert(s[k] == lit[k - i]);
                    assert(is_word_char(lit[k - i]));
                } else {
                    assert(s[k] == ' ');
                }
            }
        },
        None => {},
    }
}

/// Outside the quoted-text category, a match holds only characters of the
/// patterns' alphabet.
proof fn lemma_match_value_chars(t: TokenType, s: Seq<char>, i: int)
    requires
        0 <= i <= s.len(),
        t != TokenType::CharArray,
    ensures
        spec_match_len(t, s, i) matches Some(l) ==> forall|k: int|
            i <= k < i + l ==> pattern_char(#[trigger] s[k]),
{
    match t {
        TokenType::ImportKeyword => {
            lemma_keyword_literal_chars(lit_import());
            lemma_kw_value_chars(s, i, lit_import());
        },
        TokenType::Query => {
            lemma_keyword_literal_chars(lit_new());
            lemma_kw_value_chars(s, i, lit_new());
            lemma_keyword_literal_chars(lit_get());
            lemma_kw_value_chars(s, i, lit_get());
            lemma_keyword_literal_chars(lit_set());
            lemma_kw_value_chars(s, i, lit_set());
            lemma_keyword_literal_chars(lit_del());
            lemma_kw_value_chars(s, i, lit_del());
        },
        TokenType::If => {
            lemma_keyword_literal_chars(lit_if());
            lemma_kw_value_chars(s, i, lit_if());
        },
        TokenType::Else => {
            lemma_keyword_literal_chars(lit_else());
            lemma_kw_value_chars(s, i, lit_else());
        },
        TokenType::VariableAssign => {
            lemma_keyword_literal_chars(lit_let());
            lemma_kw_value_chars(s, i, lit_let());
            lemma_keyword_literal_chars(lit_var());
            lemma_kw_value_chars(s, i, lit_var());
        },
        TokenType::FunctionAssign => {
            lemma_keyword_literal_chars(lit_function());
            lemma_kw_value_chars(s, i, lit_function());
        },
        TokenType::True => {
            lemma_keyword_literal_chars(lit_true());
            lemma_kw_value_chars(s, i, lit_true());
        },
        TokenType::False => {
            lemma_keyword_literal_chars(lit_false());
            lemma_kw_value_chars(s, i, lit_false());
        },
        TokenType::Null => {
            lemma_keyword_literal_chars(lit_null());
            lemma_kw_value_chars(s, i, lit_null());
        },
        TokenType::Alphanumeric => {
            if 0 <= i < s.len() && is_ident_start(s[i]) {
                crate::tokens::lemma_word_run_bounds(s, i + 1);
                lemma_word_run_chars(s, i + 1);
            }
        },
        TokenType::Number => {
            crate::tokens::lemma_digit_run_bounds(s, i);
            lemma_digit_run_chars(s, i);
            let d = digit_run(s, i);
            if d > 0 && i + d < s.len() && s[i + d] == '.' && digit_run(s, i + d + 1) > 0 {
                crate::tokens::lemma_digit_run_bounds(s, i + d + 1);
                lemma_digit_run_chars(s, i + d + 1);
            }
        },
        TokenType::Addition => {},
        TokenType::Subtraction => {},
        TokenType::Multiplication => {},
        TokenType::Division => {},
        TokenType::EqualSign => {},
        TokenType::NotEqualSign => {},
        TokenType::Greater => {},
        TokenType::Less => {},
        TokenType::GreaterOrEqual => {},
        TokenType::LessOrEqual => {},
        TokenType::Assign => {},
        TokenType::LPar => {},
        TokenType::RPar => {},
        TokenType::LBracket => {},
        TokenType::RBracket => {},
        TokenType::CharArray => {},
        TokenType::Space => {},
        TokenType::Dot => {},
        TokenType::Comma => {},
        TokenType::Colon => {},
        TokenType::ExpressionEnd => {},
        TokenType::NewLine => {},
        TokenType::Indent => {},
        TokenType::Carriage => {},
    }
}

/// A successfully lexed buffer without quoted text holds only characters of
/// the patterns' alphabet.
proof fn lemma_lex_from_alphabet(s: Seq<char>, i: int, line: int, col: int)
    requires
        0 <= i <= s.len(),
        forall|k: int| 0 <= k < s.len() ==> #[trigger] s[k] != '"',
    ensures
        lex_from(s, i, line, col) matches Ok(toks) ==> forall|k: int|
            i <= k < s.len() ==> pattern_char(#[trigger] s[k]),
    decreases s.len() - i,
{
    if i < s.len() {
        match spec_first_match(s, i) {
            None => {},
            Some(m) => {
                lemma_first_match_bounds(s, i);
                lemma_first_match_cases(s, i);
                assert(m.0 != TokenType::CharArray);
                lemma_match_value_chars(m.0, s, i);
                let next_line = if m.0 == TokenType::NewLine {
                    line + 1
                } else {
                    line
                };
                let next_col = if m.0 == TokenType::NewLine {
                    1int
                } else {
                    col + m.1
                };
                lemma_lex_from_alphabet(s, i + m.1, next_line, next_col);
            },
        }
    }
}

/// Foreign-character law: a buffer that holds a character outside every
/// pattern's alphabet, and no double quote whose quoted text could hide it,
/// never lexes — and by [`lemma_unrecognized_exact`] the failure then sits
/// exactly at a character no category matches.
pub proof fn lemma_foreign_char_fails(s: Seq<char>, k0: int)
    requires
        0 <= k0 < s.len(),
        !pattern_char(s[k0]),
        forall|k: int| 0 <= k < s.len() ==> #[trigger] s[k] != '"',
    ensures
        spec_lex(s) is Err,
{
    lemma_lex_from_alphabet(s, 0, 1, 1);
}

/// The literal text of one keyword-like category: the categories whose
/// patterns demand a trailing non-word character.
pub open spec fn is_keyword_literal(w: Seq<char>) -> bool {
    ||| w == lit_let()
    ||| w == lit_var()
    ||| w == lit_import()
    ||| w == lit_function()
    ||| w == lit_new()
    ||| w == lit_get()
    ||| w == lit_set()
    ||| w == lit_del()
    ||| w == lit_true()
    ||| w == lit_false()
    ||| w == lit_null()
    ||| w == lit_if()
    ||| w == lit_else()
}

/// Every buffer position from `j` on holds a word character.
proof fn lemma_word_run_full(s: Seq<char>, j: int)
    requires
        0 <= j <= s.len(),
        forall|k: int| j <= k < s.len() ==> is_word_char(#[trigger] s[k]),
    ensures
        word_run(s, j) == s.len() - j,
    decreases s.len() - j,
{
    if j < s.len() {
        lemma_word_run_full(s, j + 1);
    }
}

/// A non-empty buffer of word characters that opens like an identifier is
/// exactly one identifier token: every keyword pattern fails for want of a
/// trailing non-word character, and the identifier pattern is greedy.
proof fn lemma_word_buffer_single_token(s: Seq<char>)
    requires
        s.len() >= 1,
        forall|k: int| 0 <= k < s.len() ==> is_word_char(#[trigger] s[k]),
        is_ident_start(s[0]),
    ensures
        spec_lex(s) == Ok::<Seq<LexedToken>, LexFailure>(
            seq![
                LexedToken {
                    token_type: TokenType::Alphanumeric,
                    position: 0,
                    line: 1,
                    value: s,
                },
            ],
        ),
{
    lemma_word_run_full(s, 1);
    assert(spec_match_len(TokenType::Alphanumeric, s, 0) == Some(s.len() as int));
    let head = LexedToken { token_type: TokenType::Alphanumeric, position: 0, line: 1, value: s };
    assert(spec_first_match(s, 0) == Some((TokenType::Alphanumeric, s.len() as int)));
    assert(s.subrange(0, s.len() as int) =~= s);
    assert(lex_from(s, s.len() as int, 1, 1 + s.len() as int) == Ok::<Seq<LexedToken>, LexFailure>(
        Seq::empty(),
    ));
    assert(seq![head] + Seq::<LexedToken>::empty() =~= seq![head]);
}

/// Keyword-precedence law: a keyword-like category's literal text followed
/// by one more word character tokenizes as one identifier token — never as
/// the keyword category, whose pattern demands a non-word character after
/// the literal.
pub proof fn lemma_keyword_precedence(w: Seq<char>, c: char)
    requires
        is_keyword_literal(w),
        is_word_char(c),
    ensures
        spec_lex(w.push(c)) == Ok::<Seq<LexedToken>, LexFailure>(
            seq![
                LexedToken {
                    token_type: TokenType::Alphanumeric,
                    position: 0,
                    line: 1,
                    value: w.push(c),
                },
            ],
        ),
{
    lemma_keyword_literal_chars(w);
    let s = w.push(c);
    assert forall|k: int| 0 <= k < s.len() implies is_word_char(#[trigger] s[k]) by {
        if k < w.len() {
            assert(s[k] == w[k]);
        } else {
            assert(s[k] == c);
        }
    }
    assert(s[0] == w[0]);
    lemma_word_buffer_single_token(s);
}

/// The scan over a remaining order list: try its head, then the rest.
pub open spec fn first_match_in(order: Seq<TokenType>, s: Seq<char>, i: int) -> Option<
    (TokenType, int),
>
    decreases order.len(),
{
    if order.len() == 0 {
        None
    } else {
        try_category(order[0], s, i, first_match_in(order.subrange(1, order.len() as int), s, i))
    }
}

/// The taxonomy order drives the scan: [`spec_first_match`] is exactly the
/// first-match fold over the declared order [`spec_match_order`].
pub proof fn lemma_first_match_follows_order(s: Seq<char>, i: int)
    ensures
        spec_first_match(s, i) == first_match_in(spec_match_order(), s, i),
{
    reveal_with_fuel(first_match_in, 36);
    let o = spec_match_order();
    assert(o.len() == 35);
    assert(o.subrange(0, 35)[0] == TokenType::VariableAssign);
    assert(o.subrange(0, 35).subrange(1, 35) =~= o.subrange(1, 35));
    assert(o.subrange(1, 35)[0] == TokenType::ImportKeyword);
    assert(o.subrange(1, 35).subrange(1, 34) =~= o.subrange(2, 35));
    assert(o.subrange(2, 35)[0] == TokenType::FunctionAssign);
    assert(o.subrange(2, 35).subrange(1, 33) =~= o.subrange(3, 35));
    assert(o.subrange(3, 35)[0] == TokenType::Query);
    assert(o.subrange(3, 35).subrange(1, 32) =~= o.subrange(4, 35));
    assert(o.subrange(4, 35)[0] == TokenType::True);
    assert(o.subrange(4, 35).subrange(1, 31) =~= o.subrange(5, 35));
    assert(o.subrange(5, 35)[0] == TokenType::False);
    assert(o.subrange(5, 35).subrange(1, 30) =~= o.subrange(6, 35));
    assert(o.subrange(6, 35)[0] == TokenType::Null);
    assert(o.subrange(6, 35).subrange(1, 29) =~= o.subrange(7, 35));
    assert(o.subrange(7, 35)[0] == TokenType::If);
    assert(o.subrange(7, 35).subrange(1, 28) =~= o.subrange(8, 35));
    assert(o.subrange(8, 35)[0] == TokenType::Else);
    assert(o.subrange(8, 35).subrange(1, 27) =~= o.subrange(9, 35));
    assert(o.subrange(9, 35)[0] == TokenType::EqualSign);
    assert(o.subrange(9, 35).subrange(1, 26) =~= o.subrange(10, 35));
    assert(o.subrange(10, 35)[0] == TokenType::NotEqualSign);
    assert(o.subrange(10, 35).subrange(1, 25) =~= o.subrange(11, 35));
    assert(o.subrange(11, 35)[0] == TokenType::GreaterOrEqual);
    assert(o.subrange(11, 35).subrange(1, 24) =~= o.subrange(12, 35));
    assert(o.subrange(12, 35)[0] == TokenType::LessOrEqual);
    assert(o.subrange(12, 35).subrange(1, 23) =~= o.subrange(13, 35));
    assert(o.subrange(13, 35)[0] == TokenType::Greater);
    assert(o.subrange(13, 35).subrange(1, 22) =~= o.subrange(14, 35));
    assert(o.subrange(14, 35)[0] == TokenType::Less);
    assert(o.subrange(14, 35).subrange(1, 21) =~= o.subrange(15, 35));
    assert(o.subrange(15, 35)[0] == TokenType::Assign);
    assert(o.subrange(15, 35).subrange(1, 20) =~= o.subrange(16, 35));
    assert(o.subrange(16, 35)[0] == TokenType::Addition);
    assert(o.subrange(16, 35).subrange(1, 19) =~= o.subrange(17, 35));
    assert(o.subrange(17, 35)[0] == TokenType::Subtraction);
    assert(o.subrange(17, 35).subrange(1, 18) =~= o.subrange(18, 35));
    assert(o.subrange(18, 35)[0] == TokenType::Multiplication);
    assert(o.subrange(18, 35).subrange(1, 17) =~= o.subrange(19, 35));
    assert(o.subrange(19, 35)[0] == TokenType::Division);
    assert(o.subrange(19, 35).subrange(1, 16) =~= o.subrange(20, 35));
    assert(o.subrange(20, 35)[0] == TokenType::LPar);
    assert(o.subrange(20, 35).subrange(1, 15) =~= o.subrange(21, 35));
    assert(o.subrange(21, 35)[0] == TokenType::RPar);
    assert(o.subrange(21, 35).subrange(1, 14) =~= o.subrange(22, 35));
    assert(o.subrange(22, 35)[0] == TokenType::LBracket);
    assert(o.subrange(22, 35).subrange(1, 13) =~= o.subrange(23, 35));
    assert(o.subrange(23, 35)[0] == TokenType::RBracket);
    assert(o.subrange(23, 35).subrange(1, 12) =~= o.subrange(24, 35));
    assert(o.subrange(24, 35)[0] == TokenType::CharArray);
    assert(o.subrange(24, 35).subrange(1, 11) =~= o.subrange(25, 35));
    assert(o.subrange(25, 35)[0] == TokenType::Alphanumeric);
    assert(o.subrange(25, 35).subrange(1, 10) =~= o.subrange(26, 35));
    assert(o.subrange(26, 35)[0] == TokenType::Number);
    assert(o.subrange(26, 35).subrange(1, 9) =~= o.subrange(27, 35));
    assert(o.subrange(27, 35)[0] == TokenType::Space);
    assert(o.subrange(27, 35).subrange(1, 8) =~= o.subrange(28, 35));
    assert(o.subrange(28, 35)[0] == TokenType::Dot);
    assert(o.subrange(28, 35).subrange(1, 7) =~= o.subrange(29, 35));
    assert(o.subrange(29, 35)[0] == TokenType::Comma);
    assert(o.subrange(29, 35).subrange(1, 6) =~= o.subrange(30, 35));
    assert(o.subrange(30, 35)[0] == TokenType::Colon);
    assert(o.subrange(30, 35).subrange(1, 5) =~= o.subrange(31, 35));
    assert(o.subrange(31, 35)[0] == TokenType::ExpressionEnd);
    assert(o.subrange(31, 35).subrange(1, 4) =~= o.subrange(32, 35));
    assert(o.subrange(32, 35)[0] == TokenType::NewLine);
    assert(o.subrange(32, 35).subrange(1, 3) =~= o.subrange(33, 35));
    assert(o.subrange(33, 35)[0] == TokenType::Indent);
    assert(o.subrange(33, 35).subrange(1, 2) =~= o.subrange(34, 35));
    assert(o.subrange(34, 35)[0] == TokenType::Carriage);
    assert(o.subrange(34, 35).subrange(1, 1) =~= o.subrange(35, 35));
    assert(o.subrange(35, 35).len() == 0);
    assert(o.subrange(0, 35) =~= o);
}

} // verus!


