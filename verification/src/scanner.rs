//! The Go scanner: turns source characters into tokens with their positions,
//! inserting the semicolons that the language leaves implicit at line ends,
//! and records where the source lines start.
use vstd::prelude::*;
use crate::position::{File, Pos};
use crate::token::{Token, TokenData, RawTokenData, token_data_ok};
use crate::strs::{string_from_chars, is_alphabetic, is_numeric};
use crate::ast::POS_LIMIT;

verus! {

/// A token and the position of its first character.
#[derive(Debug, Clone)]
pub struct TokenInfo {
    pub pos: Pos,
    pub tok: Token,
}

/// A scanned token stream: it is not empty, ends with the single EOF token,
/// every payload is well formed, and every position lies in `[base, limit]`.
pub open spec fn token_stream_ok(toks: Seq<TokenInfo>, base: int, limit: int) -> bool {
    &&& toks.len() >= 1
    &&& toks.last().tok is EOF
    &&& forall|i: int| 0 <= i < toks.len() - 1 ==> !(#[trigger] toks[i].tok is EOF)
    &&& forall|i: int| 0 <= i < toks.len() ==> token_data_ok(#[trigger] toks[i].tok)
    &&& forall|i: int| 0 <= i < toks.len() ==> base <= #[trigger] toks[i].pos <= limit
}

pub open spec fn is_ident_char(c: char) -> bool {
    ('a' <= c && c <= 'z') || ('A' <= c && c <= 'Z') || c == '_' || ('0' <= c && c <= '9')
}

pub open spec fn is_digit(c: char) -> bool {
    '0' <= c && c <= '9'
}

/// Whether a semicolon is inserted at the end of a line after this token.
pub open spec fn ends_statement(t: Token) -> bool {
    t is IDENT || t is INT || t is FLOAT || t is IMAG || t is CHAR || t is STRING
        || t is BREAK || t is CONTINUE || t is FALLTHROUGH || t is RETURN
        || t is INC || t is DEC || t is RPAREN || t is RBRACK || t is RBRACE
}

fn needs_semi(t: &Token) -> (r: bool)
    ensures r == ends_statement(*t),
{
    matches!(t, Token::IDENT(_) | Token::INT(_) | Token::FLOAT(_) | Token::IMAG(_) | Token::CHAR(_)
        | Token::STRING(_) | Token::BREAK | Token::CONTINUE | Token::FALLTHROUGH | Token::RETURN
        | Token::INC | Token::DEC | Token::RPAREN | Token::RBRACK | Token::RBRACE)
}

fn at(src: &[char], i: usize) -> (r: char)
    ensures
        i < src@.len() ==> r == src@[i as int],
        i >= src@.len() ==> r == '\0',
{
    if i < src.len() { src[i] } else { '\0' }
}

fn letter_start(c: char) -> (r: bool)
    ensures (c as u32) < 128 ==> (r <==> (('a' <= c && c <= 'z') || ('A' <= c && c <= 'Z') || c == '_')),
{
    c == '_' || is_alphabetic(c)
}

fn letter_part(c: char) -> (r: bool)
    ensures (c as u32) < 128 ==> (r <==> is_ident_char(c)),
{
    c == '_' || is_alphabetic(c) || is_numeric(c)
}

/// The character at `i`, or the NUL character past the end.
pub open spec fn char_at(src: Seq<char>, i: int) -> char {
    if 0 <= i < src.len() { src[i] } else { '\0' }
}

/// The operator or delimiter spelled by `c`, `c1`, `c2` (longest match
/// first) and how many of these characters it takes; length 0 when `c`
/// starts none.
pub open spec fn operator_of(c: char, c1: char, c2: char) -> (Token, nat) {
    if c == '+' {
        if c1 == '+' { (Token::INC, 2) } else if c1 == '=' { (Token::ADD_ASSIGN, 2) } else { (Token::ADD, 1) }
    } else if c == '-' {
        if c1 == '-' { (Token::DEC, 2) } else if c1 == '=' { (Token::SUB_ASSIGN, 2) } else { (Token::SUB, 1) }
    } else if c == '*' {
        if c1 == '=' { (Token::MUL_ASSIGN, 2) } else { (Token::MUL, 1) }
    } else if c == '/' {
        if c1 == '=' { (Token::QUO_ASSIGN, 2) } else { (Token::QUO, 1) }
    } else if c == '%' {
        if c1 == '=' { (Token::REM_ASSIGN, 2) } else { (Token::REM, 1) }
    } else if c == '&' {
        if c1 == '&' { (Token::LAND, 2) }
        else if c1 == '^' { if c2 == '=' { (Token::AND_NOT_ASSIGN, 3) } else { (Token::AND_NOT, 2) } }
        else if c1 == '=' { (Token::AND_ASSIGN, 2) } else { (Token::AND, 1) }
    } else if c == '|' {
        if c1 == '|' { (Token::LOR, 2) } else if c1 == '=' { (Token::OR_ASSIGN, 2) } else { (Token::OR, 1) }
    } else if c == '^' {
        if c1 == '=' { (Token::XOR_ASSIGN, 2) } else { (Token::XOR, 1) }
    } else if c == '<' {
        if c1 == '<' { if c2 == '=' { (Token::SHL_ASSIGN, 3) } else { (Token::SHL, 2) } }
        else if c1 == '=' { (Token::LEQ, 2) } else if c1 == '-' { (Token::ARROW, 2) } else { (Token::LSS, 1) }
    } else if c == '>' {
        if c1 == '>' { if c2 == '=' { (Token::SHR_ASSIGN, 3) } else { (Token::SHR, 2) } }
        else if c1 == '=' { (Token::GEQ, 2) } else { (Token::GTR, 1) }
    } else if c == '=' {
        if c1 == '=' { (Token::EQL, 2) } else { (Token::ASSIGN, 1) }
    } else if c == '!' {
        if c1 == '=' { (Token::NEQ, 2) } else { (Token::NOT, 1) }
    } else if c == ':' {
        if c1 == '=' { (Token::DEFINE, 2) } else { (Token::COLON, 1) }
    } else if c == '.' {
        if c1 == '.' && c2 == '.' { (Token::ELLIPSIS, 3) } else { (Token::PERIOD, 1) }
    } else if c == '(' { (Token::LPAREN, 1) }
    else if c == ')' { (Token::RPAREN, 1) }
    else if c == '[' { (Token::LBRACK, 1) }
    else if c == ']' { (Token::RBRACK, 1) }
    else if c == '{' { (Token::LBRACE, 1) }
    else if c == '}' { (Token::RBRACE, 1) }
    else if c == ',' { (Token::COMMA, 1) }
    else if c == ';' { (Token::SEMICOLON(TokenData(RawTokenData::Bool(true))), 1) }
    else { (Token::NONE, 0) }
}

/// The operator (or delimiter) spelled at `src[i..]` and its length in
/// characters, longest match first; None if no operator starts there.
fn scan_operator(src: &[char], i: usize) -> (r: Option<(Token, usize)>)
    requires i < src@.len(), src@.len() <= POS_LIMIT,
    ensures r matches Some((t, k)) ==> 1 <= k <= 3 && i + k <= src@.len() && token_data_ok(t) && !(t is EOF),
        (r is Some) == (operator_of(src@[i as int], char_at(src@, i + 1), char_at(src@, i + 2)).1 > 0),
        r matches Some((t, k)) ==> (t, k as nat) == operator_of(src@[i as int], char_at(src@, i + 1), char_at(src@, i + 2)),
{
    let c = src[i];
    let c1 = at(src, i + 1);
    let c2 = at(src, i + 2);
    let (t, k): (Token, usize) = if c == '+' {
        if c1 == '+' { (Token::INC, 2) } else if c1 == '=' { (Token::ADD_ASSIGN, 2) } else { (Token::ADD, 1) }
    } else if c == '-' {
        if c1 == '-' { (Token::DEC, 2) } else if c1 == '=' { (Token::SUB_ASSIGN, 2) } else { (Token::SUB, 1) }
    } else if c == '*' {
        if c1 == '=' { (Token::MUL_ASSIGN, 2) } else { (Token::MUL, 1) }
    } else if c == '/' {
        if c1 == '=' { (Token::QUO_ASSIGN, 2) } else { (Token::QUO, 1) }
    } else if c == '%' {
        if c1 == '=' { (Token::REM_ASSIGN, 2) } else { (Token::REM, 1) }
    } else if c == '&' {
        if c1 == '&' { (Token::LAND, 2) }
        else if c1 == '^' { if c2 == '=' { (Token::AND_NOT_ASSIGN, 3) } else { (Token::AND_NOT, 2) } }
        else if c1 == '=' { (Token::AND_ASSIGN, 2) } else { (Token::AND, 1) }
    } else if c == '|' {
        if c1 == '|' { (Token::LOR, 2) } else if c1 == '=' { (Token::OR_ASSIGN, 2) } else { (Token::OR, 1) }
    } else if c == '^' {
        if c1 == '=' { (Token::XOR_ASSIGN, 2) } else { (Token::XOR, 1) }
    } else if c == '<' {
        if c1 == '<' { if c2 == '=' { (Token::SHL_ASSIGN, 3) } else { (Token::SHL, 2) } }
        else if c1 == '=' { (Token::LEQ, 2) } else if c1 == '-' { (Token::ARROW, 2) } else { (Token::LSS, 1) }
    } else if c == '>' {
        if c1 == '>' { if c2 == '=' { (Token::SHR_ASSIGN, 3) } else { (Token::SHR, 2) } }
        else if c1 == '=' { (Token::GEQ, 2) } else { (Token::GTR, 1) }
    } else if c == '=' {
        if c1 == '=' { (Token::EQL, 2) } else { (Token::ASSIGN, 1) }
    } else if c == '!' {
        if c1 == '=' { (Token::NEQ, 2) } else { (Token::NOT, 1) }
    } else if c == ':' {
        if c1 == '=' { (Token::DEFINE, 2) } else { (Token::COLON, 1) }
    } else if c == '.' {
        if c1 == '.' && c2 == '.' { (Token::ELLIPSIS, 3) } else { (Token::PERIOD, 1) }
    } else if c == '(' { (Token::LPAREN, 1) }
    else if c == ')' { (Token::RPAREN, 1) }
    else if c == '[' { (Token::LBRACK, 1) }
    else if c == ']' { (Token::RBRACK, 1) }
    else if c == '{' { (Token::LBRACE, 1) }
    else if c == '}' { (Token::RBRACE, 1) }
    else if c == ',' { (Token::COMMA, 1) }
    else if c == ';' { (Token::SEMICOLON(TokenData::from_bool(true)), 1) }
    else { (Token::NONE, 0) };
    if k == 0 { None } else { Some((t, k)) }
}

/// The end (exclusive) of the number literal starting at `i`: digits, letters
/// (base prefixes, exponents, the imaginary suffix), underscores, points and
/// exponent signs.
fn number_end(src: &[char], i: usize) -> (r: usize)
    requires i < src@.len(), src@.len() <= POS_LIMIT,
    ensures i < r <= src@.len(),
{
    let mut j = i + 1;
    while j < src.len()
        invariant i < j <= src@.len(),
        decreases src@.len() - j,
    {
        let c = src[j];
        let prev = src[j - 1];
        let sign_ok = (c == '+' || c == '-') && (prev == 'e' || prev == 'E' || prev == 'p' || prev == 'P');
        if is_digit_char(c) || c == '.' || c == '_' || (c >= 'a' && c <= 'z') || (c >= 'A' && c <= 'Z') || sign_ok {
            j += 1;
        } else {
            break;
        }
    }
    j
}

fn is_digit_char(c: char) -> (r: bool)
    ensures r == is_digit(c),
{
    c >= '0' && c <= '9'
}

/// Classifies a number literal: imaginary if it ends in `i`, a float if it
/// has a point or a decimal exponent (hexadecimal ones use `p`), else an integer.
fn number_token(text: &[char], lit: String) -> (r: Token)
    ensures
        r is INT || r is FLOAT || r is IMAG,
        token_data_ok(r),
{
    let n = text.len();
    if n > 0 && text[n - 1] == 'i' {
        return Token::IMAG(TokenData::from_string(lit));
    }
    let hex = n >= 2 && text[0] == '0' && (text[1] == 'x' || text[1] == 'X');
    let mut k: usize = 0;
    while k < n
        invariant k <= n, n == text@.len(),
        decreases n - k,
    {
        let c = text[k];
        if c == '.' || (!hex && (c == 'e' || c == 'E')) || (hex && (c == 'p' || c == 'P')) {
            return Token::FLOAT(TokenData::from_string(lit));
        }
        k += 1;
    }
    Token::INT(TokenData::from_string(lit))
}

/// Reading a quoted literal from `j` on: the end (exclusive) just after
/// the closing `quote`, skipping the character after each backslash; None
/// at a newline or at the end of the text.
pub open spec fn quote_close(src: Seq<char>, j: int, quote: char) -> Option<int>
    decreases src.len() + 2 - j,
{
    if j < 0 || j >= src.len() {
        None
    } else if src[j] == '\n' {
        None
    } else if src[j] == quote {
        Some(j + 1)
    } else if src[j] == '\\' {
        quote_close(src, j + 2, quote)
    } else {
        quote_close(src, j + 1, quote)
    }
}

/// The end (exclusive) of the quoted literal that starts at `i` with
/// `quote`, or None if it is not closed on the same line. Backslash escapes
/// the next character.
fn quoted_end(src: &[char], i: usize, quote: char) -> (r: Option<usize>)
    requires i < src@.len(), src@.len() <= POS_LIMIT,
    ensures
        r matches Some(e) ==> i < e <= src@.len(),
        r == match quote_close(src@, i + 1, quote) { Some(e) => Some(e as usize), None => None },
{
    let mut j = i + 1;
    while j < src.len()
        invariant i < j <= src@.len() + 1, src@.len() <= POS_LIMIT,
            quote_close(src@, i + 1, quote) == quote_close(src@, j as int, quote),
        decreases src@.len() + 1 - j,
    {
        let c = src[j];
        if c == '\n' {
            return None;
        }
        if c == quote {
            return Some(j + 1);
        }
        if c == '\\' {
            j += 2;
        } else {
            j += 1;
        }
    }
    None
}

/// Scans `src`, whose first character is at position `base`, into tokens.
/// Each newline also records a line start in `file`.
pub fn scan(src: &[char], base: usize, file: &mut File) -> (r: Vec<TokenInfo>)
    requires
        old(file).wf(),
        base + src@.len() <= POS_LIMIT,
    ensures
        final(file).wf(),
        final(file).spec_name() == old(file).spec_name(),
        final(file).spec_base() == old(file).spec_base(),
        final(file).spec_size() == old(file).spec_size(),
        token_stream_ok(r@, base as int, base + src@.len()),
{
    let n = src.len();
    let mut toks: Vec<TokenInfo> = Vec::new();
    let mut i: usize = 0;
    let mut insert_semi = false;
    while i < n
        invariant
            n == src@.len(),
            i <= n,
            base + n <= POS_LIMIT,
            file.wf(),
            file.spec_name() == old(file).spec_name(),
            file.spec_base() == old(file).spec_base(),
            file.spec_size() == old(file).spec_size(),
            forall|k: int| 0 <= k < toks@.len() ==> !(#[trigger] toks@[k].tok is EOF),
            forall|k: int| 0 <= k < toks@.len() ==> token_data_ok(#[trigger] toks@[k].tok),
            forall|k: int| 0 <= k < toks@.len() ==> base <= #[trigger] toks@[k].pos <= base + n,
        decreases n - i,
    {
        let ghost i0 = i;
        let c = src[i];
        let c1 = at(src, i + 1);
        if c == '\n' {
            if insert_semi {
                toks.push(TokenInfo { pos: base + i, tok: Token::SEMICOLON(TokenData::from_bool(false)) });
                insert_semi = false;
            }
            file.add_line(i + 1);
            i += 1;
        } else if c == ' ' || c == '\t' || c == '\r' {
            i += 1;
        } else if c == '/' && c1 == '/' {
            i += 2;
            while i < n && src[i] != '\n'
                invariant i <= n, n == src@.len(), i0 < i,
                decreases n - i,
            {
                i += 1;
            }
        } else if c == '/' && c1 == '*' {
            let start = i;
            let mut j = i + 2;
            let mut has_newline = false;
            while j < n && !(src[j] == '*' && at(src, j + 1) == '/')
                invariant
                    i + 2 <= j <= n + 1,
                    n == src@.len(),
                    file.wf(),
                    file.spec_name() == old(file).spec_name(),
                    file.spec_base() == old(file).spec_base(),
                    file.spec_size() == old(file).spec_size(),
                decreases n + 1 - j,
            {
                if src[j] == '\n' {
                    has_newline = true;
                    file.add_line(j + 1);
                }
                j += 1;
            }
            if has_newline && insert_semi {
                toks.push(TokenInfo { pos: base + start, tok: Token::SEMICOLON(TokenData::from_bool(false)) });
                insert_semi = false;
            }
            i = if j + 2 <= n { j + 2 } else { n };
        } else if letter_start(c) {
            let mut j = i + 1;
            while j < n && letter_part(src[j])
                invariant i < j <= n, n == src@.len(),
                decreases n - j,
            {
                j += 1;
            }
            let text = string_from_chars(&src[i..j]);
            let tok = Token::ident_token(text);
            insert_semi = needs_semi(&tok);
            toks.push(TokenInfo { pos: base + i, tok });
            i = j;
        } else if is_digit_char(c) || (c == '.' && is_digit_char(c1)) {
            let j = number_end(src, i);
            let lit = string_from_chars(&src[i..j]);
            let tok = number_token(&src[i..j], lit);
            toks.push(TokenInfo { pos: base + i, tok });
            insert_semi = true;
            i = j;
        } else if c == '"' || c == '\'' {
            match quoted_end(src, i, c) {
                Some(j) => {
                    let lit = string_from_chars(&src[i..j]);
                    let tok = if c == '"' {
                        Token::STRING(TokenData::from_string(lit))
                    } else {
                        Token::CHAR(TokenData::from_string(lit))
                    };
                    toks.push(TokenInfo { pos: base + i, tok });
                    insert_semi = true;
                    i = j;
                },
                None => {
                    let lit = string_from_chars(&src[i..i + 1]);
                    toks.push(TokenInfo { pos: base + i, tok: Token::ILLEGAL(TokenData::from_string(lit)) });
                    insert_semi = false;
                    i += 1;
                },
            }
        } else if c == '`' {
            let mut j = i + 1;
            while j < n && src[j] != '`'
                invariant
                    i < j <= n,
                    n == src@.len(),
                    file.wf(),
                    file.spec_name() == old(file).spec_name(),
                    file.spec_base() == old(file).spec_base(),
                    file.spec_size() == old(file).spec_size(),
                decreases n - j,
            {
                if src[j] == '\n' {
                    file.add_line(j + 1);
                }
                j += 1;
            }
            if j < n {
                let lit = string_from_chars(&src[i..j + 1]);
                toks.push(TokenInfo { pos: base + i, tok: Token::STRING(TokenData::from_string(lit)) });
                insert_semi = true;
                i = j + 1;
            } else {
                let lit = string_from_chars(&src[i..i + 1]);
                toks.push(TokenInfo { pos: base + i, tok: Token::ILLEGAL(TokenData::from_string(lit)) });
                insert_semi = false;
                i = n;
            }
        } else {
            match scan_operator(src, i) {
                Some((tok, k)) => {
                    insert_semi = needs_semi(&tok);
                    toks.push(TokenInfo { pos: base + i, tok });
                    i += k;
                },
                None => {
                    let lit = string_from_chars(&src[i..i + 1]);
                    toks.push(TokenInfo { pos: base + i, tok: Token::ILLEGAL(TokenData::from_string(lit)) });
                    insert_semi = false;
                    i += 1;
                },
            }
        }
        assert(i0 < i);
    }
    if insert_semi {
        toks.push(TokenInfo { pos: base + n, tok: Token::SEMICOLON(TokenData::from_bool(false)) });
    }
    toks.push(TokenInfo { pos: base + n, tok: Token::EOF });
    toks
}

} // verus!
