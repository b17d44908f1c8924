//! The lexer: source text to positioned tokens.

use super::{char_debug, escaped_char, position_text, Position, PositionedToken, Token, well_formed_tokens};
use crate::text::{
    ascii_alphabetic, ascii_alphanumeric, ascii_digit, chars_of, concat2, is_ascii_alphabetic,
    is_ascii_alphanumeric, is_ascii_digit, owned, push_char,
};
use vstd::prelude::*;

verus! {

/// The Unicode `White_Space` property, which `char::is_whitespace` tests.
pub open spec fn is_white_space(c: char) -> bool {
    ||| ('\u{9}' <= c && c <= '\u{d}')
    ||| c == ' '
    ||| c == '\u{85}'
    ||| c == '\u{a0}'
    ||| c == '\u{1680}'
    ||| ('\u{2000}' <= c && c <= '\u{200a}')
    ||| c == '\u{2028}'
    ||| c == '\u{2029}'
    ||| c == '\u{202f}'
    ||| c == '\u{205f}'
    ||| c == '\u{3000}'
}

/// Whether `c` is Unicode white space.
pub fn white_space(c: char) -> (r: bool)
    ensures
        r == is_white_space(c),
{
    ('\u{9}' <= c && c <= '\u{d}') || c == ' ' || c == '\u{85}' || c == '\u{a0}'
        || c == '\u{1680}' || ('\u{2000}' <= c && c <= '\u{200a}') || c == '\u{2028}'
        || c == '\u{2029}' || c == '\u{202f}' || c == '\u{205f}' || c == '\u{3000}'
}

/// The characters that form one-character symbol tokens:
/// `( ) { } . ; = , : + - * / % [ ] ! < > | & $`.
pub open spec fn is_symbol_char(c: char) -> bool {
    ||| c == '(' || c == ')' || c == '{' || c == '}' || c == '.' || c == ';' || c == '='
    ||| c == ',' || c == ':' || c == '+' || c == '-' || c == '*' || c == '/' || c == '%'
    ||| c == '[' || c == ']' || c == '!' || c == '<' || c == '>' || c == '|' || c == '&'
    ||| c == '$'
}

fn symbol_char(c: char) -> (r: bool)
    ensures
        r == is_symbol_char(c),
{
    c == '(' || c == ')' || c == '{' || c == '}' || c == '.' || c == ';' || c == '='
        || c == ',' || c == ':' || c == '+' || c == '-' || c == '*' || c == '/' || c == '%'
        || c == '[' || c == ']' || c == '!' || c == '<' || c == '>' || c == '|' || c == '&'
        || c == '$'
}

/// A token as the lexer's specification speaks of it: texts as character
/// sequences.
pub enum Lexeme {
    Word(Seq<char>),
    Number(Seq<char>),
    Text(Seq<char>),
    Symbol(char),
    End,
}

/// The lexeme of a token.
pub open spec fn lexeme_of(token: Token) -> Lexeme {
    match token {
        Token::Word(w) => Lexeme::Word(w@),
        Token::Number(n) => Lexeme::Number(n@),
        Token::String(s) => Lexeme::Text(s@),
        Token::Symbol(c) => Lexeme::Symbol(c),
        Token::End => Lexeme::End,
    }
}

/// The lexemes of positioned tokens, with their positions.
pub open spec fn lexemes(tokens: Seq<PositionedToken>) -> Seq<(Lexeme, Position)> {
    tokens.map_values(|t: PositionedToken| (lexeme_of(t.0), t.1))
}

/// Where the run of word characters (ASCII letters, digits, `_`) from `i`
/// ends.
pub open spec fn word_end(chars: Seq<char>, i: int) -> int
    decreases chars.len() - i,
{
    if 0 <= i < chars.len() && (is_ascii_alphanumeric(chars[i]) || chars[i] == '_') {
        word_end(chars, i + 1)
    } else {
        i
    }
}

/// Where the run of ASCII digits from `i` ends.
pub open spec fn digits_end(chars: Seq<char>, i: int) -> int
    decreases chars.len() - i,
{
    if 0 <= i < chars.len() && is_ascii_digit(chars[i]) {
        digits_end(chars, i + 1)
    } else {
        i
    }
}

/// Where a line comment that continues at `i` ends: at the next line break
/// (which it leaves), or at the end.
pub open spec fn comment_end(chars: Seq<char>, i: int) -> int
    decreases chars.len() - i,
{
    if 0 <= i < chars.len() && chars[i] != '\n' {
        comment_end(chars, i + 1)
    } else {
        i
    }
}

/// Where a number whose first digit is at `i` ends: its digits, then a `.`
/// and digits if a digit follows the `.`, then `e` or `E`, a sign if any, and
/// digits. `None` when the exponent has no digit.
pub open spec fn number_end(chars: Seq<char>, i: int) -> Option<int> {
    let whole = digits_end(chars, i + 1);
    let fraction = if whole + 1 < chars.len() && chars[whole] == '.' && is_ascii_digit(
        chars[whole + 1],
    ) {
        digits_end(chars, whole + 1)
    } else {
        whole
    };
    if fraction < chars.len() && (chars[fraction] == 'e' || chars[fraction] == 'E') {
        let digits = if fraction + 1 < chars.len() && (chars[fraction + 1] == '+' || chars[fraction
            + 1] == '-') {
            fraction + 2
        } else {
            fraction + 1
        };
        if digits < chars.len() && is_ascii_digit(chars[digits]) {
            Some(digits_end(chars, digits))
        } else {
            None
        }
    } else {
        Some(fraction)
    }
}

/// The character that the escape `\c` stands for in a string.
pub open spec fn unescaped(c: char) -> Option<char> {
    if c == 'n' {
        Some('\n')
    } else if c == 'r' {
        Some('\r')
    } else if c == 't' {
        Some('\t')
    } else if c == '0' {
        Some('\0')
    } else if c == '\\' {
        Some('\\')
    } else if c == '"' {
        Some('"')
    } else {
        None
    }
}

/// The rest of a string literal from `i`, after reading `value`: its value
/// and the index after the closing `"`, or the error.
pub open spec fn string_end(chars: Seq<char>, i: int, value: Seq<char>) -> Result<
    (Seq<char>, int),
    Seq<char>,
>
    decreases chars.len() - i,
{
    if i < 0 || i >= chars.len() {
        Err("unterminated string"@)
    } else if chars[i] == '"' {
        Ok((value, i + 1))
    } else if chars[i] == '\n' || chars[i] == '\r' {
        Err("raw newline in string; use \\n"@)
    } else if chars[i] == '\\' {
        if i + 1 >= chars.len() {
            Err("unterminated escape"@)
        } else {
            match unescaped(chars[i + 1]) {
                Some(u) => string_end(chars, i + 2, value.push(u)),
                None => Err("unsupported string escape"@),
            }
        }
    } else {
        string_end(chars, i + 1, value.push(chars[i]))
    }
}

/// The rest of a block comment from `i`, at `line` and `column`: the index,
/// line and column after its `*/`; `None` when it is not closed.
pub open spec fn block_end(chars: Seq<char>, i: int, line: nat, column: nat) -> Option<
    (int, nat, nat),
>
    decreases chars.len() - i,
{
    if i < 0 || i >= chars.len() {
        None
    } else {
        let line_after: nat = if chars[i] == '\n' { line + 1 } else { line };
        let column_after: nat = if chars[i] == '\n' { 1 } else { column + 1 };
        if chars[i] == '*' && i + 1 < chars.len() && chars[i + 1] == '/' {
            Some((i + 2, line_after, column_after + 1))
        } else {
            block_end(chars, i + 1, line_after, column_after)
        }
    }
}

/// The token that starts at `i` (which is no white space and starts no
/// comment) and the index after it, or the error.
pub open spec fn token_at(chars: Seq<char>, i: int) -> Result<(Lexeme, int), Seq<char>> {
    let c = chars[i];
    if is_ascii_alphabetic(c) || c == '_' {
        let end = word_end(chars, i + 1);
        Ok((Lexeme::Word(chars.subrange(i, end)), end))
    } else if is_ascii_digit(c) {
        match number_end(chars, i) {
            Some(end) => Ok((Lexeme::Number(chars.subrange(i, end)), end)),
            None => Err("expected exponent digits"@),
        }
    } else if c == '"' {
        match string_end(chars, i + 1, seq![]) {
            Ok((value, end)) => Ok((Lexeme::Text(value), end)),
            Err(message) => Err(message),
        }
    } else if is_symbol_char(c) {
        Ok((Lexeme::Symbol(c), i + 1))
    } else {
        Err("unexpected character "@ + seq!['\''] + escaped_char(c, '\'') + seq!['\''])
    }
}

/// A character with the Unicode `White_Space` property, listed one by one:
/// tab, line feed, vertical tab, form feed, carriage return, space, next
/// line, no-break space, Ogham space mark, the spaces U+2000 to U+200A, line
/// and paragraph separators, narrow no-break space, medium mathematical space
/// and ideographic space.
pub open spec fn listed_white_space(c: char) -> bool {
    c == '\t' || c == '\n' || c == '\u{b}' || c == '\u{c}' || c == '\r' || c == ' ' || c == '\u{85}'
        || c == '\u{a0}' || c == '\u{1680}' || c == '\u{2000}' || c == '\u{2001}' || c == '\u{2002}'
        || c == '\u{2003}' || c == '\u{2004}' || c == '\u{2005}' || c == '\u{2006}' || c == '\u{2007}'
        || c == '\u{2008}' || c == '\u{2009}' || c == '\u{200a}' || c == '\u{2028}' || c == '\u{2029}'
        || c == '\u{202f}' || c == '\u{205f}' || c == '\u{3000}'
}

/// White space other than a newline is skipped wherever a token may start:
/// what the lexer gives from it is what it gives from the next character,
/// one column further on the same line; so a tab or any other such
/// character separates tokens exactly as a space does.
pub proof fn lemma_white_space_is_skipped(chars: Seq<char>, i: int, line: nat, column: nat)
    requires
        0 <= i < chars.len(),
        listed_white_space(chars[i]),
        chars[i] != '\n',
    ensures
        lex_from(chars, i, line, column) == lex_from(chars, i + 1, line, column + 1),
{
}

/// A newline is skipped and starts the next line at column 1.
pub proof fn lemma_newline_starts_a_line(chars: Seq<char>, i: int, line: nat, column: nat)
    requires
        0 <= i < chars.len(),
        chars[i] == '\n',
    ensures
        lex_from(chars, i, line, column) == lex_from(chars, i + 1, line + 1, 1),
{
}

/// A character that may continue a name: an ASCII letter or digit, or `_`.
pub open spec fn name_char(c: char) -> bool {
    ('a' <= c && c <= 'z') || ('A' <= c && c <= 'Z') || ('0' <= c && c <= '9') || c == '_'
}

/// The run of name characters from `i` ends at `j` when every character
/// before `j` continues the name and the one at `j` (if any) does not.
proof fn lemma_word_run(chars: Seq<char>, i: int, j: int)
    requires
        0 <= i <= j <= chars.len(),
        forall|k: int| i <= k < j ==> name_char(#[trigger] chars[k]),
        j == chars.len() || !name_char(chars[j]),
    ensures
        word_end(chars, i) == j,
    decreases j - i,
{
    if i < j {
        lemma_word_run(chars, i + 1, j);
    }
}

/// A line comment continued at `i` ends at `j` when no character before `j`
/// is a newline and the one at `j` (if any) is.
proof fn lemma_comment_run(chars: Seq<char>, i: int, j: int)
    requires
        0 <= i <= j <= chars.len(),
        forall|k: int| i <= k < j ==> #[trigger] chars[k] != '\n',
        j == chars.len() || chars[j] == '\n',
    ensures
        comment_end(chars, i) == j,
    decreases j - i,
{
    if i < j {
        lemma_comment_run(chars, i + 1, j);
    }
}

/// A name is read whole: from a letter or `_` at `i`, the longest run of
/// letters, digits and `_` (ending at `j`) is one word, and lexing goes on
/// after it.
pub proof fn lemma_names_are_read_whole(chars: Seq<char>, i: int, j: int, line: nat, column: nat)
    requires
        0 <= i < j <= chars.len(),
        ('a' <= chars[i] && chars[i] <= 'z') || ('A' <= chars[i] && chars[i] <= 'Z') || chars[i] == '_',
        forall|k: int| i < k < j ==> name_char(#[trigger] chars[k]),
        j == chars.len() || !name_char(chars[j]),
    ensures
        lex_from(chars, i, line, column) == prepended(
            seq![(Lexeme::Word(chars.subrange(i, j)), Position { line: line as usize, column: column as usize })],
            lex_from(chars, j, line, (column + (j - i)) as nat),
        ),
{
    lemma_word_run(chars, i + 1, j);
    assert(!is_white_space(chars[i]));
}

/// A line comment is skipped up to its newline: from `//` at `i`, lexing
/// goes on at the first newline after it (or the end), as many columns
/// further as were skipped.
pub proof fn lemma_line_comments_are_skipped(chars: Seq<char>, i: int, j: int, line: nat, column: nat)
    requires
        0 <= i,
        i + 1 < j <= chars.len(),
        chars[i] == '/',
        chars[i + 1] == '/',
        forall|k: int| i < k < j ==> #[trigger] chars[k] != '\n',
        j == chars.len() || chars[j] == '\n',
    ensures
        lex_from(chars, i, line, column) == lex_from(chars, j, line, (column + (j - i)) as nat),
{
    lemma_comment_run(chars, i + 1, j);
}

/// Each symbol character is a token of its own: at `i`, any of
/// `( ) { } . ; = , : + - * / % [ ] ! < > | & $` (a `/` not starting a
/// comment) is the symbol, and lexing goes on with the next character.
pub proof fn lemma_symbols_are_single_tokens(chars: Seq<char>, i: int, line: nat, column: nat)
    requires
        0 <= i < chars.len(),
        ({
            let c = chars[i];
            c == '(' || c == ')' || c == '{' || c == '}' || c == '.' || c == ';' || c == '=' || c == ','
                || c == ':' || c == '+' || c == '-' || c == '*' || c == '/' || c == '%' || c == '['
                || c == ']' || c == '!' || c == '<' || c == '>' || c == '|' || c == '&' || c == '$'
        }),
        chars[i] == '/' ==> !(i + 1 < chars.len() && (chars[i + 1] == '/' || chars[i + 1] == '*')),
    ensures
        lex_from(chars, i, line, column) == prepended(
            seq![(Lexeme::Symbol(chars[i]), Position { line: line as usize, column: column as usize })],
            lex_from(chars, i + 1, line, column + 1),
        ),
{
}

/// Each run ends at or after it starts, and not past the end.
pub proof fn lemma_runs_end(chars: Seq<char>, i: int)
    requires
        0 <= i <= chars.len(),
    ensures
        i <= word_end(chars, i) <= chars.len(),
        i <= digits_end(chars, i) <= chars.len(),
        i <= comment_end(chars, i) <= chars.len(),
    decreases chars.len() - i,
{
    if i < chars.len() {
        lemma_runs_end(chars, i + 1);
    }
}

/// A string literal that is read ends after it starts.
pub proof fn lemma_string_end(chars: Seq<char>, i: int, value: Seq<char>)
    requires
        0 <= i,
    ensures
        string_end(chars, i, value) matches Ok((v, end)) ==> i < end <= chars.len(),
    decreases chars.len() - i,
{
    if 0 <= i < chars.len() {
        lemma_string_end(chars, i + 1, value.push(chars[i]));
        if i + 1 < chars.len() {
            if let Some(u) = unescaped(chars[i + 1]) {
                lemma_string_end(chars, i + 2, value.push(u));
            }
        }
    }
}

/// A block comment that is closed ends after it starts.
pub proof fn lemma_block_end(chars: Seq<char>, i: int, line: nat, column: nat)
    requires
        0 <= i,
    ensures
        block_end(chars, i, line, column) matches Some((end, l, c)) ==> i < end <= chars.len(),
    decreases chars.len() - i,
{
    if 0 <= i < chars.len() {
        let line_after: nat = if chars[i] == '\n' { line + 1 } else { line };
        let column_after: nat = if chars[i] == '\n' { 1 } else { column + 1 };
        lemma_block_end(chars, i + 1, line_after, column_after);
    }
}

/// A token that is read ends after it starts.
pub proof fn lemma_token_end(chars: Seq<char>, i: int)
    requires
        0 <= i < chars.len(),
    ensures
        token_at(chars, i) matches Ok((lexeme, end)) ==> i < end <= chars.len(),
{
    lemma_runs_end(chars, i + 1);
    let whole = digits_end(chars, i + 1);
    lemma_runs_end(chars, whole);
    if whole + 1 < chars.len() {
        lemma_runs_end(chars, whole + 1);
    }
    let fraction = if whole + 1 < chars.len() && chars[whole] == '.' && is_ascii_digit(
        chars[whole + 1],
    ) {
        digits_end(chars, whole + 1)
    } else {
        whole
    };
    if fraction + 1 <= chars.len() {
        lemma_runs_end(chars, fraction + 1);
    }
    if fraction + 2 <= chars.len() {
        lemma_runs_end(chars, fraction + 2);
    }
    lemma_string_end(chars, i + 1, seq![]);
}

/// What the lexer gives from `i` on, at `line` and `column`: the lexemes
/// with their positions, ending with `End`, or the first error, prefixed
/// with the position where its token or comment starts.
pub open spec fn lex_from(chars: Seq<char>, i: int, line: nat, column: nat) -> Result<
    Seq<(Lexeme, Position)>,
    Seq<char>,
>
    decreases chars.len() - i,
{
    let position = Position { line: line as usize, column: column as usize };
    if i < 0 || i >= chars.len() {
        Ok(seq![(Lexeme::End, position)])
    } else if chars[i] == '\n' {
        lex_from(chars, i + 1, line + 1, 1)
    } else if is_white_space(chars[i]) {
        lex_from(chars, i + 1, line, column + 1)
    } else if chars[i] == '/' && i + 1 < chars.len() && chars[i + 1] == '/' {
        let end = comment_end(chars, i + 1);
        proof {
            lemma_runs_end(chars, i + 1);
        }
        lex_from(chars, end, line, (column + (end - i)) as nat)
    } else if chars[i] == '/' && i + 1 < chars.len() && chars[i + 1] == '*' {
        match block_end(chars, i + 2, line, column + 2) {
            None => Err(position_text(position, "unterminated block comment; expected '*/'"@)),
            Some((end, l, c)) => {
                proof {
                    lemma_block_end(chars, i + 2, line, column + 2);
                }
                lex_from(chars, end, l, c)
            },
        }
    } else {
        match token_at(chars, i) {
            Err(message) => Err(position_text(position, message)),
            Ok((lexeme, end)) => {
                proof {
                    lemma_token_end(chars, i);
                }
                prepended(
                    seq![(lexeme, position)],
                    lex_from(chars, end, line, (column + (end - i)) as nat),
                )
            },
        }
    }
}

/// `rest` with `first` before its lexemes.
pub open spec fn prepended(
    first: Seq<(Lexeme, Position)>,
    rest: Result<Seq<(Lexeme, Position)>, Seq<char>>,
) -> Result<Seq<(Lexeme, Position)>, Seq<char>> {
    match rest {
        Ok(lexemes) => Ok(first + lexemes),
        Err(message) => Err(message),
    }
}

/// What the lexer gives for a source: its lexemes from line 1, column 1 on
/// (see `lex_from`); a source too long to count its characters in a `usize`
/// is refused.
pub open spec fn lexed(source: Seq<char>) -> Result<Seq<(Lexeme, Position)>, Seq<char>> {
    if source.len() >= usize::MAX - 2 {
        Err("source is too large"@)
    } else {
        lex_from(source, 0, 1, 1)
    }
}

fn push_token(tokens: &mut Vec<PositionedToken>, token: Token, position: Position)
    requires
        !(token is End),
        forall|k: int| 0 <= k < old(tokens)@.len() ==> !(#[trigger] old(tokens)@[k].0 is End),
    ensures
        forall|k: int| 0 <= k < final(tokens)@.len() ==> !(#[trigger] final(tokens)@[k].0 is End),
        final(tokens)@ == old(tokens)@.push((token, position)),
{
    tokens.push((token, position));
}

/// The end of the word run from `i` (see `word_end`).
fn scan_word(chars: &Vec<char>, i: usize) -> (r: usize)
    requires
        i <= chars@.len(),
    ensures
        r == word_end(chars@, i as int),
{
    let mut k = i;
    while k < chars.len() && (ascii_alphanumeric(chars[k]) || chars[k] == '_')
        invariant
            i <= k <= chars@.len(),
            word_end(chars@, i as int) == word_end(chars@, k as int),
        decreases chars.len() - k,
    {
        k = k + 1;
    }
    k
}

/// The end of the digit run from `i` (see `digits_end`).
fn scan_digits(chars: &Vec<char>, i: usize) -> (r: usize)
    requires
        i <= chars@.len(),
    ensures
        r == digits_end(chars@, i as int),
{
    let mut k = i;
    while k < chars.len() && ascii_digit(chars[k])
        invariant
            i <= k <= chars@.len(),
            digits_end(chars@, i as int) == digits_end(chars@, k as int),
        decreases chars.len() - k,
    {
        k = k + 1;
    }
    k
}

/// The end of a line comment from `i` (see `comment_end`).
fn scan_comment(chars: &Vec<char>, i: usize) -> (r: usize)
    requires
        i <= chars@.len(),
    ensures
        r == comment_end(chars@, i as int),
{
    let mut k = i;
    while k < chars.len() && chars[k] != '\n'
        invariant
            i <= k <= chars@.len(),
            comment_end(chars@, i as int) == comment_end(chars@, k as int),
        decreases chars.len() - k,
    {
        k = k + 1;
    }
    k
}

/// The end of a number whose first digit is at `i` (see `number_end`).
fn scan_number(chars: &Vec<char>, i: usize) -> (r: Option<usize>)
    requires
        i < chars@.len(),
        chars@.len() < usize::MAX - 2,
    ensures
        r matches Some(end) ==> number_end(chars@, i as int) == Some(end as int),
        r is None ==> number_end(chars@, i as int) is None,
{
    proof {
        lemma_runs_end(chars@, i + 1);
    }
    let whole = scan_digits(chars, i + 1);
    let fraction = if whole + 1 < chars.len() && chars[whole] == '.' && ascii_digit(chars[whole + 1]) {
        proof {
            lemma_runs_end(chars@, whole + 1);
        }
        scan_digits(chars, whole + 1)
    } else {
        whole
    };
    if fraction < chars.len() && (chars[fraction] == 'e' || chars[fraction] == 'E') {
        let digits = if fraction + 1 < chars.len() && (chars[fraction + 1] == '+' || chars[fraction
            + 1] == '-') {
            fraction + 2
        } else {
            fraction + 1
        };
        if digits < chars.len() && ascii_digit(chars[digits]) {
            Some(scan_digits(chars, digits))
        } else {
            None
        }
    } else {
        Some(fraction)
    }
}

/// The characters `from..to` as a string.
fn text_between(chars: &Vec<char>, from: usize, to: usize) -> (r: String)
    requires
        from <= to <= chars@.len(),
    ensures
        r@ == chars@.subrange(from as int, to as int),
{
    let mut r = String::new();
    let mut k = from;
    while k < to
        invariant
            from <= k <= to <= chars@.len(),
            r@ == chars@.subrange(from as int, k as int),
        decreases to - k,
    {
        push_char(&mut r, chars[k]);
        assert(chars@.subrange(from as int, k + 1) =~= chars@.subrange(from as int, k as int).push(
            chars@[k as int],
        ));
        k = k + 1;
    }
    r
}

/// The rest of a string literal from `i` (see `string_end`).
fn scan_string(chars: &Vec<char>, i: usize) -> (r: Result<(String, usize), String>)
    requires
        i <= chars@.len(),
    ensures
        match r {
            Ok((value, end)) => string_end(chars@, i as int, seq![]) == Ok::<(Seq<char>, int), Seq<char>>(
                (value@, end as int),
            ),
            Err(message) => string_end(chars@, i as int, seq![]) == Err::<(Seq<char>, int), Seq<char>>(
                message@,
            ),
        },
{
    let mut value = String::new();
    let mut k = i;
    loop
        invariant
            i <= k <= chars@.len(),
            string_end(chars@, i as int, seq![]) == string_end(chars@, k as int, value@),
        decreases chars.len() - k,
    {
        if k >= chars.len() {
            return Err(owned("unterminated string"));
        }
        let d = chars[k];
        if d == '"' {
            return Ok((value, k + 1));
        } else if d == '\n' || d == '\r' {
            return Err(owned("raw newline in string; use \\n"));
        } else if d == '\\' {
            if k + 1 >= chars.len() {
                return Err(owned("unterminated escape"));
            }
            let escaped = chars[k + 1];
            let unescaped = if escaped == 'n' {
                '\n'
            } else if escaped == 'r' {
                '\r'
            } else if escaped == 't' {
                '\t'
            } else if escaped == '0' {
                '\0'
            } else if escaped == '\\' {
                '\\'
            } else if escaped == '"' {
                '"'
            } else {
                return Err(owned("unsupported string escape"));
            };
            push_char(&mut value, unescaped);
            k = k + 2;
        } else {
            push_char(&mut value, d);
            k = k + 1;
        }
    }
}

/// The rest of a block comment from `i` (see `block_end`).
fn scan_block(chars: &Vec<char>, i: usize, line: usize, column: usize) -> (r: Option<
    (usize, usize, usize),
>)
    requires
        chars@.len() < usize::MAX - 2,
        i <= chars@.len(),
        1 <= line <= i + 1,
        1 <= column <= i + 1,
    ensures
        r matches Some((end, l, c)) ==> block_end(chars@, i as int, line as nat, column as nat)
            == Some((end as int, l as nat, c as nat)) && i < end <= chars@.len() && 1 <= l <= end
            + 1 && 1 <= c <= end + 1,
        r is None ==> block_end(chars@, i as int, line as nat, column as nat) is None,
{
    let mut k = i;
    let mut l = line;
    let mut c = column;
    loop
        invariant
            i <= k <= chars@.len(),
            chars@.len() < usize::MAX - 2,
            1 <= l <= k + 1,
            1 <= c <= k + 1,
            block_end(chars@, i as int, line as nat, column as nat) == block_end(
                chars@,
                k as int,
                l as nat,
                c as nat,
            ),
        decreases chars.len() - k,
    {
        if k >= chars.len() {
            return None;
        }
        let d = chars[k];
        if d == '\n' {
            l = l + 1;
            c = 1;
        } else {
            c = c + 1;
        }
        if d == '*' && k + 1 < chars.len() && chars[k + 1] == '/' {
            return Some((k + 2, l, c + 1));
        }
        k = k + 1;
    }
}

/// The token that starts at `i` and the index after it (see `token_at`).
fn scan_token(chars: &Vec<char>, i: usize) -> (r: Result<(Token, usize), String>)
    requires
        i < chars@.len(),
        chars@.len() < usize::MAX - 2,
    ensures
        match r {
            Ok((token, end)) => token_at(chars@, i as int) == Ok::<(Lexeme, int), Seq<char>>(
                (lexeme_of(token), end as int),
            ) && !(token is End),
            Err(message) => token_at(chars@, i as int) == Err::<(Lexeme, int), Seq<char>>(message@),
        },
{
    let c = chars[i];
    proof {
        lemma_runs_end(chars@, i + 1);
        lemma_token_end(chars@, i as int);
    }
    if ascii_alphabetic(c) || c == '_' {
        let end = scan_word(chars, i + 1);
        Ok((Token::Word(text_between(chars, i, end)), end))
    } else if ascii_digit(c) {
        match scan_number(chars, i) {
            Some(end) => Ok((Token::Number(text_between(chars, i, end)), end)),
            None => Err(owned("expected exponent digits")),
        }
    } else if c == '"' {
        match scan_string(chars, i + 1) {
            Ok((value, end)) => Ok((Token::String(value), end)),
            Err(message) => Err(message),
        }
    } else if symbol_char(c) {
        Ok((Token::Symbol(c), i + 1))
    } else {
        let shown = char_debug(c);
        let message = concat2("unexpected character ", shown.as_str());
        assert(message@ =~= "unexpected character "@ + seq!['\''] + escaped_char(c, '\'') + seq![
            '\'',
        ]);
        Err(message)
    }
}

/// Splits source text into tokens. Line and block comments and white space
/// separate tokens; words are ASCII identifiers; numbers may have a fraction
/// and an exponent; strings support the escapes `\n \r \t \0 \\ \"`. The
/// result ends with one `End` token and holds no other.
pub fn lex(source: &str) -> (r: Result<Vec<PositionedToken>, String>)
    ensures
        match r {
            Ok(tokens) => lexed(source@) == Ok::<Seq<(Lexeme, Position)>, Seq<char>>(
                lexemes(tokens@),
            ) && super::single_end(tokens@),
            Err(message) => lexed(source@) == Err::<Seq<(Lexeme, Position)>, Seq<char>>(message@),
        },
{
    let chars = chars_of(source);
    let n = chars.len();
    if n >= usize::MAX - 2 {
        return Err(owned("source is too large"));
    }
    let mut line: usize = 1;
    let mut column: usize = 1;
    let mut tokens: Vec<PositionedToken> = Vec::new();
    let mut i: usize = 0;
    assert(lexemes(tokens@) =~= seq![]);
    assert(prepended(seq![], lex_from(chars@, 0, 1, 1)) == lex_from(chars@, 0, 1, 1)) by {
        if let Ok(rest) = lex_from(chars@, 0, 1, 1) {
            assert(Seq::<(Lexeme, Position)>::empty() + rest =~= rest);
        }
    }
    while i < n
        invariant
            n == chars@.len(),
            chars@ == source@,
            n < usize::MAX - 2,
            i <= n,
            1 <= line <= i + 1,
            1 <= column <= i + 1,
            forall|k: int| 0 <= k < tokens@.len() ==> !(#[trigger] tokens@[k].0 is End),
            lexed(source@) == prepended(
                lexemes(tokens@),
                lex_from(chars@, i as int, line as nat, column as nat),
            ),
        decreases n - i,
    {
        let c = chars[i];
        let position = Position { line, column };
        if c == '\n' {
            line = line + 1;
            column = 1;
            i = i + 1;
            continue;
        }
        if white_space(c) {
            column = column + 1;
            i = i + 1;
            continue;
        }
        if c == '/' && i + 1 < n && chars[i + 1] == '/' {
            proof {
                lemma_runs_end(chars@, i + 1);
            }
            let end = scan_comment(&chars, i + 1);
            column = column + (end - i);
            i = end;
            continue;
        }
        if c == '/' && i + 1 < n && chars[i + 1] == '*' {
            match scan_block(&chars, i + 2, line, column + 2) {
                None => {
                    return Err(position.error("unterminated block comment; expected '*/'"));
                },
                Some((end, l, col)) => {
                    i = end;
                    line = l;
                    column = col;
                    continue;
                },
            }
        }
        match scan_token(&chars, i) {
            Err(message) => {
                return Err(position.error(message.as_str()));
            },
            Ok((token, end)) => {
                proof {
                    lemma_token_end(chars@, i as int);
                }
                let ghost before = lexemes(tokens@);
                let ghost rest = lex_from(chars@, end as int, line as nat, (column + (end - i)) as nat);
                push_token(&mut tokens, token, position);
                assert(lexemes(tokens@) =~= before + seq![(lexeme_of(tokens@.last().0), position)]);
                assert(prepended(before, prepended(seq![(lexeme_of(tokens@.last().0), position)], rest))
                    == prepended(lexemes(tokens@), rest)) by {
                    if let Ok(r) = rest {
                        assert(before + (seq![(lexeme_of(tokens@.last().0), position)] + r) =~= lexemes(
                            tokens@,
                        ) + r);
                    }
                }
                column = column + (end - i);
                i = end;
            },
        }
    }
    let ghost before = lexemes(tokens@);
    let end_position = Position { line, column };
    tokens.push((Token::End, end_position));
    assert(lexemes(tokens@) =~= before + seq![(Lexeme::End, end_position)]);
    Ok(tokens)
}

} // verus!
