//! Go lexical tokens: their classes, spellings, precedences and keyword lookup.
#![allow(non_camel_case_types)]
use vstd::prelude::*;
use crate::strs::str_matches;

verus! {

/// Precedence of non-operators.
pub const LOWEST_PREC: usize = 0;

/// The payload a token carries: a flag (for semicolons) or literal text.
#[derive(Clone, Debug, PartialEq, Eq, Hash)]
pub enum RawTokenData {
    Bool(bool),
    Str(String),
    StrStr(String, String),
    StrChar(String, char),
}

#[derive(Clone, Debug, PartialEq, Eq, Hash)]
pub struct TokenData(pub RawTokenData);

#[derive(Clone, Debug, PartialEq, Eq, Hash)]
pub enum Token {
    NONE,
    ILLEGAL(TokenData),
    EOF,
    COMMENT(TokenData),
    IDENT(TokenData),
    INT(TokenData),
    FLOAT(TokenData),
    IMAG(TokenData),
    CHAR(TokenData),
    STRING(TokenData),
    ADD,
    SUB,
    MUL,
    QUO,
    REM,
    AND,
    OR,
    XOR,
    SHL,
    SHR,
    AND_NOT,
    ADD_ASSIGN,
    SUB_ASSIGN,
    MUL_ASSIGN,
    QUO_ASSIGN,
    REM_ASSIGN,
    AND_ASSIGN,
    OR_ASSIGN,
    XOR_ASSIGN,
    SHL_ASSIGN,
    SHR_ASSIGN,
    AND_NOT_ASSIGN,
    LAND,
    LOR,
    ARROW,
    INC,
    DEC,
    EQL,
    LSS,
    GTR,
    ASSIGN,
    NOT,
    NEQ,
    LEQ,
    GEQ,
    DEFINE,
    ELLIPSIS,
    LPAREN,
    LBRACK,
    LBRACE,
    COMMA,
    PERIOD,
    RPAREN,
    RBRACK,
    RBRACE,
    SEMICOLON(TokenData),
    COLON,
    BREAK,
    CASE,
    CHAN,
    CONST,
    CONTINUE,
    DEFAULT,
    DEFER,
    ELSE,
    FALLTHROUGH,
    FOR,
    FUNC,
    GO,
    GOTO,
    IF,
    IMPORT,
    INTERFACE,
    MAP,
    PACKAGE,
    RANGE,
    RETURN,
    SELECT,
    STRUCT,
    SWITCH,
    TYPE,
    VAR,
}

/// The class of a token.
#[derive(Clone, Copy, Debug, PartialEq, Eq, Structural)]
pub enum TokenType {
    Literal,
    Operator,
    Keyword,
    Other,
}

pub open spec fn token_class(t: Token) -> TokenType {
    match t {
        Token::NONE => TokenType::Other,
        Token::ILLEGAL(..) => TokenType::Other,
        Token::EOF => TokenType::Other,
        Token::COMMENT(..) => TokenType::Other,
        Token::IDENT(..) => TokenType::Literal,
        Token::INT(..) => TokenType::Literal,
        Token::FLOAT(..) => TokenType::Literal,
        Token::IMAG(..) => TokenType::Literal,
        Token::CHAR(..) => TokenType::Literal,
        Token::STRING(..) => TokenType::Literal,
        Token::ADD => TokenType::Operator,
        Token::SUB => TokenType::Operator,
        Token::MUL => TokenType::Operator,
        Token::QUO => TokenType::Operator,
        Token::REM => TokenType::Operator,
        Token::AND => TokenType::Operator,
        Token::OR => TokenType::Operator,
        Token::XOR => TokenType::Operator,
        Token::SHL => TokenType::Operator,
        Token::SHR => TokenType::Operator,
        Token::AND_NOT => TokenType::Operator,
        Token::ADD_ASSIGN => TokenType::Operator,
        Token::SUB_ASSIGN => TokenType::Operator,
        Token::MUL_ASSIGN => TokenType::Operator,
        Token::QUO_ASSIGN => TokenType::Operator,
        Token::REM_ASSIGN => TokenType::Operator,
        Token::AND_ASSIGN => TokenType::Operator,
        Token::OR_ASSIGN => TokenType::Operator,
        Token::XOR_ASSIGN => TokenType::Operator,
        Token::SHL_ASSIGN => TokenType::Operator,
        Token::SHR_ASSIGN => TokenType::Operator,
        Token::AND_NOT_ASSIGN => TokenType::Operator,
        Token::LAND => TokenType::Operator,
        Token::LOR => TokenType::Operator,
        Token::ARROW => TokenType::Operator,
        Token::INC => TokenType::Operator,
        Token::DEC => TokenType::Operator,
        Token::EQL => TokenType::Operator,
        Token::LSS => TokenType::Operator,
        Token::GTR => TokenType::Operator,
        Token::ASSIGN => TokenType::Operator,
        Token::NOT => TokenType::Operator,
        Token::NEQ => TokenType::Operator,
        Token::LEQ => TokenType::Operator,
        Token::GEQ => TokenType::Operator,
        Token::DEFINE => TokenType::Operator,
        Token::ELLIPSIS => TokenType::Operator,
        Token::LPAREN => TokenType::Operator,
        Token::LBRACK => TokenType::Operator,
        Token::LBRACE => TokenType::Operator,
        Token::COMMA => TokenType::Operator,
        Token::PERIOD => TokenType::Operator,
        Token::RPAREN => TokenType::Operator,
        Token::RBRACK => TokenType::Operator,
        Token::RBRACE => TokenType::Operator,
        Token::SEMICOLON(..) => TokenType::Operator,
        Token::COLON => TokenType::Operator,
        Token::BREAK => TokenType::Keyword,
        Token::CASE => TokenType::Keyword,
        Token::CHAN => TokenType::Keyword,
        Token::CONST => TokenType::Keyword,
        Token::CONTINUE => TokenType::Keyword,
        Token::DEFAULT => TokenType::Keyword,
        Token::DEFER => TokenType::Keyword,
        Token::ELSE => TokenType::Keyword,
        Token::FALLTHROUGH => TokenType::Keyword,
        Token::FOR => TokenType::Keyword,
        Token::FUNC => TokenType::Keyword,
        Token::GO => TokenType::Keyword,
        Token::GOTO => TokenType::Keyword,
        Token::IF => TokenType::Keyword,
        Token::IMPORT => TokenType::Keyword,
        Token::INTERFACE => TokenType::Keyword,
        Token::MAP => TokenType::Keyword,
        Token::PACKAGE => TokenType::Keyword,
        Token::RANGE => TokenType::Keyword,
        Token::RETURN => TokenType::Keyword,
        Token::SELECT => TokenType::Keyword,
        Token::STRUCT => TokenType::Keyword,
        Token::SWITCH => TokenType::Keyword,
        Token::TYPE => TokenType::Keyword,
        Token::VAR => TokenType::Keyword,
    }
}

pub open spec fn token_text(t: Token) -> Seq<char> {
    match t {
        Token::NONE => "NONE"@,
        Token::ILLEGAL(..) => "ILLEGAL"@,
        Token::EOF => "EOF"@,
        Token::COMMENT(..) => "COMMENT"@,
        Token::IDENT(..) => "IDENT"@,
        Token::INT(..) => "INT"@,
        Token::FLOAT(..) => "FLOAT"@,
        Token::IMAG(..) => "IMAG"@,
        Token::CHAR(..) => "CHAR"@,
        Token::STRING(..) => "STRING"@,
        Token::ADD => "+"@,
        Token::SUB => "-"@,
        Token::MUL => "*"@,
        Token::QUO => "/"@,
        Token::REM => "%"@,
        Token::AND => "&"@,
        Token::OR => "|"@,
        Token::XOR => "^"@,
        Token::SHL => "<<"@,
        Token::SHR => ">>"@,
        Token::AND_NOT => "&^"@,
        Token::ADD_ASSIGN => "+="@,
        Token::SUB_ASSIGN => "-="@,
        Token::MUL_ASSIGN => "*="@,
        Token::QUO_ASSIGN => "/="@,
        Token::REM_ASSIGN => "%="@,
        Token::AND_ASSIGN => "&="@,
        Token::OR_ASSIGN => "|="@,
        Token::XOR_ASSIGN => "^="@,
        Token::SHL_ASSIGN => "<<="@,
        Token::SHR_ASSIGN => ">>="@,
        Token::AND_NOT_ASSIGN => "&^="@,
        Token::LAND => "&&"@,
        Token::LOR => "||"@,
        Token::ARROW => "<-"@,
        Token::INC => "++"@,
        Token::DEC => "--"@,
        Token::EQL => "=="@,
        Token::LSS => "<"@,
        Token::GTR => ">"@,
        Token::ASSIGN => "="@,
        Token::NOT => "!"@,
        Token::NEQ => "!="@,
        Token::LEQ => "<="@,
        Token::GEQ => ">="@,
        Token::DEFINE => ":="@,
        Token::ELLIPSIS => "..."@,
        Token::LPAREN => "("@,
        Token::LBRACK => "["@,
        Token::LBRACE => "{"@,
        Token::COMMA => ","@,
        Token::PERIOD => "."@,
        Token::RPAREN => ")"@,
        Token::RBRACK => "]"@,
        Token::RBRACE => "}"@,
        Token::SEMICOLON(..) => ";"@,
        Token::COLON => ":"@,
        Token::BREAK => "break"@,
        Token::CASE => "case"@,
        Token::CHAN => "chan"@,
        Token::CONST => "const"@,
        Token::CONTINUE => "continue"@,
        Token::DEFAULT => "default"@,
        Token::DEFER => "defer"@,
        Token::ELSE => "else"@,
        Token::FALLTHROUGH => "fallthrough"@,
        Token::FOR => "for"@,
        Token::FUNC => "func"@,
        Token::GO => "go"@,
        Token::GOTO => "goto"@,
        Token::IF => "if"@,
        Token::IMPORT => "import"@,
        Token::INTERFACE => "interface"@,
        Token::MAP => "map"@,
        Token::PACKAGE => "package"@,
        Token::RANGE => "range"@,
        Token::RETURN => "return"@,
        Token::SELECT => "select"@,
        Token::STRUCT => "struct"@,
        Token::SWITCH => "switch"@,
        Token::TYPE => "type"@,
        Token::VAR => "var"@,
    }
}

/// Binary operator precedence of a token, `LOWEST_PREC` for non-operators.
pub open spec fn token_precedence(t: Token) -> usize {
    match t {
        Token::LOR => 1,
        Token::LAND => 2,
        Token::EQL | Token::NEQ | Token::LSS | Token::LEQ | Token::GTR | Token::GEQ => 3,
        Token::ADD | Token::SUB | Token::OR | Token::XOR => 4,
        Token::MUL | Token::QUO | Token::REM | Token::SHL | Token::SHR | Token::AND
        | Token::AND_NOT => 5,
        _ => LOWEST_PREC,
    }
}

/// Go's operator levels, from the tightest: multiplicative operators bind
/// tighter than additive ones, additive tighter than comparisons,
/// comparisons tighter than `&&`, and `&&` tighter than `||`, which binds
/// tighter than any token that is no binary operator.
pub proof fn lemma_precedence_levels(m: Token, a: Token, c: Token)
    requires
        m is MUL || m is QUO || m is REM || m is SHL || m is SHR || m is AND || m is AND_NOT,
        a is ADD || a is SUB || a is OR || a is XOR,
        c is EQL || c is NEQ || c is LSS || c is LEQ || c is GTR || c is GEQ,
    ensures
        token_precedence(m) > token_precedence(a),
        token_precedence(a) > token_precedence(c),
        token_precedence(c) > token_precedence(Token::LAND),
        token_precedence(Token::LAND) > token_precedence(Token::LOR),
        token_precedence(Token::LOR) > LOWEST_PREC,
        token_precedence(Token::ASSIGN) == LOWEST_PREC,
        token_precedence(Token::NOT) == LOWEST_PREC,
{
}

/// The literal text carried by a basic literal token, empty for any other token.
pub open spec fn token_literal(t: Token) -> Seq<char> {
    match t {
        Token::INT(d) | Token::FLOAT(d) | Token::IMAG(d) | Token::CHAR(d) | Token::STRING(d) => d.str_of(),
        _ => Seq::empty(),
    }
}

/// A token whose payload, if any, is well formed: literal-like tokens carry
/// text and semicolons carry a flag.
pub open spec fn token_data_ok(t: Token) -> bool {
    match t {
        Token::ILLEGAL(d) | Token::COMMENT(d) | Token::IDENT(d) | Token::INT(d) | Token::FLOAT(d)
        | Token::IMAG(d) | Token::CHAR(d) | Token::STRING(d) => d.has_str(),
        Token::SEMICOLON(d) => d.0 is Bool,
        _ => true,
    }
}

pub open spec fn keyword_token(s: Seq<char>) -> Option<Token> {
    if s == "break"@ {
        Some(Token::BREAK)
    } else if s == "case"@ {
        Some(Token::CASE)
    } else if s == "chan"@ {
        Some(Token::CHAN)
    } else if s == "const"@ {
        Some(Token::CONST)
    } else if s == "continue"@ {
        Some(Token::CONTINUE)
    } else if s == "default"@ {
        Some(Token::DEFAULT)
    } else if s == "defer"@ {
        Some(Token::DEFER)
    } else if s == "else"@ {
        Some(Token::ELSE)
    } else if s == "fallthrough"@ {
        Some(Token::FALLTHROUGH)
    } else if s == "for"@ {
        Some(Token::FOR)
    } else if s == "func"@ {
        Some(Token::FUNC)
    } else if s == "go"@ {
        Some(Token::GO)
    } else if s == "goto"@ {
        Some(Token::GOTO)
    } else if s == "if"@ {
        Some(Token::IF)
    } else if s == "import"@ {
        Some(Token::IMPORT)
    } else if s == "interface"@ {
        Some(Token::INTERFACE)
    } else if s == "map"@ {
        Some(Token::MAP)
    } else if s == "package"@ {
        Some(Token::PACKAGE)
    } else if s == "range"@ {
        Some(Token::RANGE)
    } else if s == "return"@ {
        Some(Token::RETURN)
    } else if s == "select"@ {
        Some(Token::SELECT)
    } else if s == "struct"@ {
        Some(Token::STRUCT)
    } else if s == "switch"@ {
        Some(Token::SWITCH)
    } else if s == "type"@ {
        Some(Token::TYPE)
    } else if s == "var"@ {
        Some(Token::VAR)
    } else {
        None
    }
}

impl TokenData {
    pub open spec fn has_str(self) -> bool {
        !(self.0 is Bool)
    }

    pub open spec fn str_of(self) -> Seq<char> {
        match self.0 {
            RawTokenData::Str(s) => s@,
            RawTokenData::StrStr(s, _) => s@,
            RawTokenData::StrChar(s, _) => s@,
            RawTokenData::Bool(_) => Seq::empty(),
        }
    }

    pub fn from_bool(b: bool) -> (r: TokenData)
        ensures r == TokenData(RawTokenData::Bool(b)),
    {
        TokenData(RawTokenData::Bool(b))
    }

    pub fn from_string(s: String) -> (r: TokenData)
        ensures r == TokenData(RawTokenData::Str(s)),
    {
        TokenData(RawTokenData::Str(s))
    }

    pub fn from_str_str(s1: String, s2: String) -> (r: TokenData)
        ensures r == TokenData(RawTokenData::StrStr(s1, s2)),
    {
        TokenData(RawTokenData::StrStr(s1, s2))
    }

    pub fn from_str_char(s: String, c: char) -> (r: TokenData)
        ensures r == TokenData(RawTokenData::StrChar(s, c)),
    {
        TokenData(RawTokenData::StrChar(s, c))
    }

    /// The flag of a semicolon's payload.
    pub fn as_bool(&self) -> (r: &bool)
        requires self.0 is Bool,
        ensures self.0 == RawTokenData::Bool(*r),
    {
        match &self.0 {
            RawTokenData::Bool(b) => b,
            _ => { proof { assert(false); } unreached() },
        }
    }

    /// The (first) text of a payload that carries text.
    pub fn as_str(&self) -> (r: &String)
        requires self.has_str(),
        ensures r@ == self.str_of(),
    {
        match &self.0 {
            RawTokenData::Str(s) => s,
            RawTokenData::StrStr(s, _) => s,
            RawTokenData::StrChar(s, _) => s,
            RawTokenData::Bool(_) => { proof { assert(false); } unreached() },
        }
    }

    /// Replaces the (first) text of a payload that carries text.
    pub fn as_str_mut(&mut self, s: String)
        requires old(self).has_str(),
        ensures
            final(self).has_str(),
            final(self).str_of() == s@,
            old(self).0 is Str ==> final(self).0 == RawTokenData::Str(s),
            old(self).0 matches RawTokenData::StrStr(_, t) ==> final(self).0 == RawTokenData::StrStr(s, t),
            old(self).0 matches RawTokenData::StrChar(_, c) ==> final(self).0 == RawTokenData::StrChar(s, c),
    {
        let mut old_raw = RawTokenData::Bool(false);
        std::mem::swap(&mut old_raw, &mut self.0);
        let new_raw = match old_raw {
            RawTokenData::Str(_) => RawTokenData::Str(s),
            RawTokenData::StrStr(_, t) => RawTokenData::StrStr(s, t),
            RawTokenData::StrChar(_, c) => RawTokenData::StrChar(s, c),
            RawTokenData::Bool(b) => { proof { assert(false); } RawTokenData::Bool(b) },
        };
        self.0 = new_raw;
    }

    pub fn as_str_str(&self) -> (r: (&String, &String))
        requires self.0 is StrStr,
        ensures self.0 == RawTokenData::StrStr(*r.0, *r.1),
    {
        match &self.0 {
            RawTokenData::StrStr(s1, s2) => (s1, s2),
            _ => { proof { assert(false); } unreached() },
        }
    }

    pub fn as_str_char(&self) -> (r: (&String, &char))
        requires self.0 is StrChar,
        ensures self.0 == RawTokenData::StrChar(*r.0, *r.1),
    {
        match &self.0 {
            RawTokenData::StrChar(s, c) => (s, c),
            _ => { proof { assert(false); } unreached() },
        }
    }
}

impl Token {
    /// The class and the spelling of a token.
    pub fn token_property(&self) -> (r: (TokenType, &'static str))
        ensures
            r.0 == token_class(*self),
            r.1@ == token_text(*self),
    {
        match self {
            Token::NONE => (TokenType::Other, "NONE"),
            Token::ILLEGAL(..) => (TokenType::Other, "ILLEGAL"),
            Token::EOF => (TokenType::Other, "EOF"),
            Token::COMMENT(..) => (TokenType::Other, "COMMENT"),
            Token::IDENT(..) => (TokenType::Literal, "IDENT"),
            Token::INT(..) => (TokenType::Literal, "INT"),
            Token::FLOAT(..) => (TokenType::Literal, "FLOAT"),
            Token::IMAG(..) => (TokenType::Literal, "IMAG"),
            Token::CHAR(..) => (TokenType::Literal, "CHAR"),
            Token::STRING(..) => (TokenType::Literal, "STRING"),
            Token::ADD => (TokenType::Operator, "+"),
            Token::SUB => (TokenType::Operator, "-"),
            Token::MUL => (TokenType::Operator, "*"),
            Token::QUO => (TokenType::Operator, "/"),
            Token::REM => (TokenType::Operator, "%"),
            Token::AND => (TokenType::Operator, "&"),
            Token::OR => (TokenType::Operator, "|"),
            Token::XOR => (TokenType::Operator, "^"),
            Token::SHL => (TokenType::Operator, "<<"),
            Token::SHR => (TokenType::Operator, ">>"),
            Token::AND_NOT => (TokenType::Operator, "&^"),
            Token::ADD_ASSIGN => (TokenType::Operator, "+="),
            Token::SUB_ASSIGN => (TokenType::Operator, "-="),
            Token::MUL_ASSIGN => (TokenType::Operator, "*="),
            Token::QUO_ASSIGN => (TokenType::Operator, "/="),
            Token::REM_ASSIGN => (TokenType::Operator, "%="),
            Token::AND_ASSIGN => (TokenType::Operator, "&="),
            Token::OR_ASSIGN => (TokenType::Operator, "|="),
            Token::XOR_ASSIGN => (TokenType::Operator, "^="),
            Token::SHL_ASSIGN => (TokenType::Operator, "<<="),
            Token::SHR_ASSIGN => (TokenType::Operator, ">>="),
            Token::AND_NOT_ASSIGN => (TokenType::Operator, "&^="),
            Token::LAND => (TokenType::Operator, "&&"),
            Token::LOR => (TokenType::Operator, "||"),
            Token::ARROW => (TokenType::Operator, "<-"),
            Token::INC => (TokenType::Operator, "++"),
            Token::DEC => (TokenType::Operator, "--"),
            Token::EQL => (TokenType::Operator, "=="),
            Token::LSS => (TokenType::Operator, "<"),
            Token::GTR => (TokenType::Operator, ">"),
            Token::ASSIGN => (TokenType::Operator, "="),
            Token::NOT => (TokenType::Operator, "!"),
            Token::NEQ => (TokenType::Operator, "!="),
            Token::LEQ => (TokenType::Operator, "<="),
            Token::GEQ => (TokenType::Operator, ">="),
            Token::DEFINE => (TokenType::Operator, ":="),
            Token::ELLIPSIS => (TokenType::Operator, "..."),
            Token::LPAREN => (TokenType::Operator, "("),
            Token::LBRACK => (TokenType::Operator, "["),
            Token::LBRACE => (TokenType::Operator, "{"),
            Token::COMMA => (TokenType::Operator, ","),
            Token::PERIOD => (TokenType::Operator, "."),
            Token::RPAREN => (TokenType::Operator, ")"),
            Token::RBRACK => (TokenType::Operator, "]"),
            Token::RBRACE => (TokenType::Operator, "}"),
            Token::SEMICOLON(..) => (TokenType::Operator, ";"),
            Token::COLON => (TokenType::Operator, ":"),
            Token::BREAK => (TokenType::Keyword, "break"),
            Token::CASE => (TokenType::Keyword, "case"),
            Token::CHAN => (TokenType::Keyword, "chan"),
            Token::CONST => (TokenType::Keyword, "const"),
            Token::CONTINUE => (TokenType::Keyword, "continue"),
            Token::DEFAULT => (TokenType::Keyword, "default"),
            Token::DEFER => (TokenType::Keyword, "defer"),
            Token::ELSE => (TokenType::Keyword, "else"),
            Token::FALLTHROUGH => (TokenType::Keyword, "fallthrough"),
            Token::FOR => (TokenType::Keyword, "for"),
            Token::FUNC => (TokenType::Keyword, "func"),
            Token::GO => (TokenType::Keyword, "go"),
            Token::GOTO => (TokenType::Keyword, "goto"),
            Token::IF => (TokenType::Keyword, "if"),
            Token::IMPORT => (TokenType::Keyword, "import"),
            Token::INTERFACE => (TokenType::Keyword, "interface"),
            Token::MAP => (TokenType::Keyword, "map"),
            Token::PACKAGE => (TokenType::Keyword, "package"),
            Token::RANGE => (TokenType::Keyword, "range"),
            Token::RETURN => (TokenType::Keyword, "return"),
            Token::SELECT => (TokenType::Keyword, "select"),
            Token::STRUCT => (TokenType::Keyword, "struct"),
            Token::SWITCH => (TokenType::Keyword, "switch"),
            Token::TYPE => (TokenType::Keyword, "type"),
            Token::VAR => (TokenType::Keyword, "var"),
        }
    }

    /// The keyword token spelled by `ident`, or an identifier token carrying it.
    pub fn ident_token(ident: String) -> (r: Token)
        ensures
            match keyword_token(ident@) {
                Some(k) => r == k,
                None => r == Token::IDENT(TokenData(RawTokenData::Str(ident))),
            },
    {
        let s = ident.as_str();
        if str_matches(s, "break") {
            Token::BREAK
        } else if str_matches(s, "case") {
            Token::CASE
        } else if str_matches(s, "chan") {
            Token::CHAN
        } else if str_matches(s, "const") {
            Token::CONST
        } else if str_matches(s, "continue") {
            Token::CONTINUE
        } else if str_matches(s, "default") {
            Token::DEFAULT
        } else if str_matches(s, "defer") {
            Token::DEFER
        } else if str_matches(s, "else") {
            Token::ELSE
        } else if str_matches(s, "fallthrough") {
            Token::FALLTHROUGH
        } else if str_matches(s, "for") {
            Token::FOR
        } else if str_matches(s, "func") {
            Token::FUNC
        } else if str_matches(s, "go") {
            Token::GO
        } else if str_matches(s, "goto") {
            Token::GOTO
        } else if str_matches(s, "if") {
            Token::IF
        } else if str_matches(s, "import") {
            Token::IMPORT
        } else if str_matches(s, "interface") {
            Token::INTERFACE
        } else if str_matches(s, "map") {
            Token::MAP
        } else if str_matches(s, "package") {
            Token::PACKAGE
        } else if str_matches(s, "range") {
            Token::RANGE
        } else if str_matches(s, "return") {
            Token::RETURN
        } else if str_matches(s, "select") {
            Token::SELECT
        } else if str_matches(s, "struct") {
            Token::STRUCT
        } else if str_matches(s, "switch") {
            Token::SWITCH
        } else if str_matches(s, "type") {
            Token::TYPE
        } else if str_matches(s, "var") {
            Token::VAR
        } else {
            Token::IDENT(TokenData::from_string(ident))
        }
    }

    /// The integer literal `1`.
    pub fn int1() -> (r: Token)
        ensures
            r is INT,
            token_literal(r) == "1"@,
    {
        Token::INT(TokenData::from_string(String::from_str("1")))
    }

    pub fn precedence(&self) -> (r: usize)
        ensures r == token_precedence(*self),
    {
        match self {
            Token::LOR => 1,
            Token::LAND => 2,
            Token::EQL | Token::NEQ | Token::LSS | Token::LEQ | Token::GTR | Token::GEQ => 3,
            Token::ADD | Token::SUB | Token::OR | Token::XOR => 4,
            Token::MUL | Token::QUO | Token::REM | Token::SHL | Token::SHR | Token::AND
            | Token::AND_NOT => 5,
            _ => LOWEST_PREC,
        }
    }

    pub fn text(&self) -> (r: &'static str)
        ensures r@ == token_text(*self),
    {
        let (_, t) = self.token_property();
        t
    }

    pub fn is_literal(&self) -> (r: bool)
        ensures r == (token_class(*self) == TokenType::Literal),
    {
        let (c, _) = self.token_property();
        c == TokenType::Literal
    }

    pub fn is_operator(&self) -> (r: bool)
        ensures r == (token_class(*self) == TokenType::Operator),
    {
        let (c, _) = self.token_property();
        c == TokenType::Operator
    }

    pub fn is_keyword(&self) -> (r: bool)
        ensures r == (token_class(*self) == TokenType::Keyword),
    {
        let (c, _) = self.token_property();
        c == TokenType::Keyword
    }

    /// The text of a basic literal (INT, FLOAT, IMAG, CHAR, STRING), empty otherwise.
    pub fn get_literal(&self) -> (r: &str)
        requires token_data_ok(*self),
        ensures
            (self is INT || self is FLOAT || self is IMAG || self is CHAR || self is STRING)
                ==> r@ == match *self {
                    Token::INT(d) | Token::FLOAT(d) | Token::IMAG(d) | Token::CHAR(d) | Token::STRING(d) => d.str_of(),
                    _ => Seq::empty(),
                },
            !(self is INT || self is FLOAT || self is IMAG || self is CHAR || self is STRING) ==> r@ == Seq::<char>::empty(),
    {
        match self {
            Token::INT(l) | Token::FLOAT(l) | Token::IMAG(l) | Token::CHAR(l) | Token::STRING(l) => l.as_str().as_str(),
            _ => {
                proof { reveal_strlit(""); }
                ""
            },
        }
    }

    pub fn is_stmt_start(&self) -> (r: bool)
        ensures r == (self is BREAK || self is CONST || self is CONTINUE || self is DEFER
            || self is FALLTHROUGH || self is FOR || self is GO || self is GOTO || self is IF
            || self is RETURN || self is SELECT || self is SWITCH || self is TYPE || self is VAR),
    {
        matches!(self, Token::BREAK | Token::CONST | Token::CONTINUE | Token::DEFER | Token::FALLTHROUGH
            | Token::FOR | Token::GO | Token::GOTO | Token::IF | Token::RETURN | Token::SELECT
            | Token::SWITCH | Token::TYPE | Token::VAR)
    }

    pub fn is_decl_start(&self) -> (r: bool)
        ensures r == (self is CONST || self is TYPE || self is VAR),
    {
        matches!(self, Token::CONST | Token::TYPE | Token::VAR)
    }

    pub fn is_expr_end(&self) -> (r: bool)
        ensures r == (self is COMMA || self is COLON || self is SEMICOLON || self is RPAREN
            || self is RBRACK || self is RBRACE),
    {
        matches!(self, Token::COMMA | Token::COLON | Token::SEMICOLON(_) | Token::RPAREN | Token::RBRACK | Token::RBRACE)
    }

    /// How a token is written for display: literal-like tokens show their text,
    /// the others their spelling.
    pub fn display_string(&self) -> (r: String)
        requires token_data_ok(*self),
        ensures
            (self is IDENT || self is INT || self is FLOAT || self is IMAG || self is CHAR || self is STRING)
                ==> r@ == match *self {
                    Token::IDENT(d) | Token::INT(d) | Token::FLOAT(d) | Token::IMAG(d) | Token::CHAR(d) | Token::STRING(d) => d.str_of(),
                    _ => Seq::empty(),
                },
            !(self is IDENT || self is INT || self is FLOAT || self is IMAG || self is CHAR || self is STRING)
                ==> r@ == token_text(*self),
    {
        match self {
            Token::IDENT(l) | Token::INT(l) | Token::FLOAT(l) | Token::IMAG(l) | Token::CHAR(l) | Token::STRING(l) => l.as_str().clone(),
            _ => String::from_str(self.text()),
        }
    }
}

} // verus!

verus! {

impl TokenData {
    /// An equal copy of the payload.
    pub fn duplicate(&self) -> (r: TokenData)
        ensures r == *self,
    {
        match &self.0 {
            RawTokenData::Bool(b) => TokenData(RawTokenData::Bool(*b)),
            RawTokenData::Str(s) => TokenData(RawTokenData::Str(s.clone())),
            RawTokenData::StrStr(s, t) => TokenData(RawTokenData::StrStr(s.clone(), t.clone())),
            RawTokenData::StrChar(s, c) => TokenData(RawTokenData::StrChar(s.clone(), *c)),
        }
    }
}

impl Token {
    /// An equal copy of the token.
    pub fn duplicate(&self) -> (r: Token)
        ensures r == *self,
    {
        match self {
            Token::NONE => Token::NONE,
            Token::ILLEGAL(d) => Token::ILLEGAL(d.duplicate()),
            Token::EOF => Token::EOF,
            Token::COMMENT(d) => Token::COMMENT(d.duplicate()),
            Token::IDENT(d) => Token::IDENT(d.duplicate()),
            Token::INT(d) => Token::INT(d.duplicate()),
            Token::FLOAT(d) => Token::FLOAT(d.duplicate()),
            Token::IMAG(d) => Token::IMAG(d.duplicate()),
            Token::CHAR(d) => Token::CHAR(d.duplicate()),
            Token::STRING(d) => Token::STRING(d.duplicate()),
            Token::ADD => Token::ADD,
            Token::SUB => Token::SUB,
            Token::MUL => Token::MUL,
            Token::QUO => Token::QUO,
            Token::REM => Token::REM,
            Token::AND => Token::AND,
            Token::OR => Token::OR,
            Token::XOR => Token::XOR,
            Token::SHL => Token::SHL,
            Token::SHR => Token::SHR,
            Token::AND_NOT => Token::AND_NOT,
            Token::ADD_ASSIGN => Token::ADD_ASSIGN,
            Token::SUB_ASSIGN => Token::SUB_ASSIGN,
            Token::MUL_ASSIGN => Token::MUL_ASSIGN,
            Token::QUO_ASSIGN => Token::QUO_ASSIGN,
            Token::REM_ASSIGN => Token::REM_ASSIGN,
            Token::AND_ASSIGN => Token::AND_ASSIGN,
            Token::OR_ASSIGN => Token::OR_ASSIGN,
            Token::XOR_ASSIGN => Token::XOR_ASSIGN,
            Token::SHL_ASSIGN => Token::SHL_ASSIGN,
            Token::SHR_ASSIGN => Token::SHR_ASSIGN,
            Token::AND_NOT_ASSIGN => Token::AND_NOT_ASSIGN,
            Token::LAND => Token::LAND,
            Token::LOR => Token::LOR,
            Token::ARROW => Token::ARROW,
            Token::INC => Token::INC,
            Token::DEC => Token::DEC,
            Token::EQL => Token::EQL,
            Token::LSS => Token::LSS,
            Token::GTR => Token::GTR,
            Token::ASSIGN => Token::ASSIGN,
            Token::NOT => Token::NOT,
            Token::NEQ => Token::NEQ,
            Token::LEQ => Token::LEQ,
            Token::GEQ => Token::GEQ,
            Token::DEFINE => Token::DEFINE,
            Token::ELLIPSIS => Token::ELLIPSIS,
            Token::LPAREN => Token::LPAREN,
            Token::LBRACK => Token::LBRACK,
            Token::LBRACE => Token::LBRACE,
            Token::COMMA => Token::COMMA,
            Token::PERIOD => Token::PERIOD,
            Token::RPAREN => Token::RPAREN,
            Token::RBRACK => Token::RBRACK,
            Token::RBRACE => Token::RBRACE,
            Token::SEMICOLON(d) => Token::SEMICOLON(d.duplicate()),
            Token::COLON => Token::COLON,
            Token::BREAK => Token::BREAK,
            Token::CASE => Token::CASE,
            Token::CHAN => Token::CHAN,
            Token::CONST => Token::CONST,
            Token::CONTINUE => Token::CONTINUE,
            Token::DEFAULT => Token::DEFAULT,
            Token::DEFER => Token::DEFER,
            Token::ELSE => Token::ELSE,
            Token::FALLTHROUGH => Token::FALLTHROUGH,
            Token::FOR => Token::FOR,
            Token::FUNC => Token::FUNC,
            Token::GO => Token::GO,
            Token::GOTO => Token::GOTO,
            Token::IF => Token::IF,
            Token::IMPORT => Token::IMPORT,
            Token::INTERFACE => Token::INTERFACE,
            Token::MAP => Token::MAP,
            Token::PACKAGE => Token::PACKAGE,
            Token::RANGE => Token::RANGE,
            Token::RETURN => Token::RETURN,
            Token::SELECT => Token::SELECT,
            Token::STRUCT => Token::STRUCT,
            Token::SWITCH => Token::SWITCH,
            Token::TYPE => Token::TYPE,
            Token::VAR => Token::VAR,
        }
    }
}

} // verus!

verus! {

/// The number of a token's kind, payloads aside: one number per kind.
pub open spec fn token_kind(t: Token) -> nat {
    match t {
        Token::NONE => 0,
        Token::ILLEGAL(_) => 1,
        Token::EOF => 2,
        Token::COMMENT(_) => 3,
        Token::IDENT(_) => 4,
        Token::INT(_) => 5,
        Token::FLOAT(_) => 6,
        Token::IMAG(_) => 7,
        Token::CHAR(_) => 8,
        Token::STRING(_) => 9,
        Token::ADD => 10,
        Token::SUB => 11,
        Token::MUL => 12,
        Token::QUO => 13,
        Token::REM => 14,
        Token::AND => 15,
        Token::OR => 16,
        Token::XOR => 17,
        Token::SHL => 18,
        Token::SHR => 19,
        Token::AND_NOT => 20,
        Token::ADD_ASSIGN => 21,
        Token::SUB_ASSIGN => 22,
        Token::MUL_ASSIGN => 23,
        Token::QUO_ASSIGN => 24,
        Token::REM_ASSIGN => 25,
        Token::AND_ASSIGN => 26,
        Token::OR_ASSIGN => 27,
        Token::XOR_ASSIGN => 28,
        Token::SHL_ASSIGN => 29,
        Token::SHR_ASSIGN => 30,
        Token::AND_NOT_ASSIGN => 31,
        Token::LAND => 32,
        Token::LOR => 33,
        Token::ARROW => 34,
        Token::INC => 35,
        Token::DEC => 36,
        Token::EQL => 37,
        Token::LSS => 38,
        Token::GTR => 39,
        Token::ASSIGN => 40,
        Token::NOT => 41,
        Token::NEQ => 42,
        Token::LEQ => 43,
        Token::GEQ => 44,
        Token::DEFINE => 45,
        Token::ELLIPSIS => 46,
        Token::LPAREN => 47,
        Token::LBRACK => 48,
        Token::LBRACE => 49,
        Token::COMMA => 50,
        Token::PERIOD => 51,
        Token::RPAREN => 52,
        Token::RBRACK => 53,
        Token::RBRACE => 54,
        Token::SEMICOLON(_) => 55,
        Token::COLON => 56,
        Token::BREAK => 57,
        Token::CASE => 58,
        Token::CHAN => 59,
        Token::CONST => 60,
        Token::CONTINUE => 61,
        Token::DEFAULT => 62,
        Token::DEFER => 63,
        Token::ELSE => 64,
        Token::FALLTHROUGH => 65,
        Token::FOR => 66,
        Token::FUNC => 67,
        Token::GO => 68,
        Token::GOTO => 69,
        Token::IF => 70,
        Token::IMPORT => 71,
        Token::INTERFACE => 72,
        Token::MAP => 73,
        Token::PACKAGE => 74,
        Token::RANGE => 75,
        Token::RETURN => 76,
        Token::SELECT => 77,
        Token::STRUCT => 78,
        Token::SWITCH => 79,
        Token::TYPE => 80,
        Token::VAR => 81,
    }
}

impl Token {
    /// A number that tells the token kinds apart (payloads aside).
    pub fn kind_id(&self) -> (r: u8)
        ensures r < 90, r == token_kind(*self),
    {
        match self {
            Token::NONE => 0,
            Token::ILLEGAL(_) => 1,
            Token::EOF => 2,
            Token::COMMENT(_) => 3,
            Token::IDENT(_) => 4,
            Token::INT(_) => 5,
            Token::FLOAT(_) => 6,
            Token::IMAG(_) => 7,
            Token::CHAR(_) => 8,
            Token::STRING(_) => 9,
            Token::ADD => 10,
            Token::SUB => 11,
            Token::MUL => 12,
            Token::QUO => 13,
            Token::REM => 14,
            Token::AND => 15,
            Token::OR => 16,
            Token::XOR => 17,
            Token::SHL => 18,
            Token::SHR => 19,
            Token::AND_NOT => 20,
            Token::ADD_ASSIGN => 21,
            Token::SUB_ASSIGN => 22,
            Token::MUL_ASSIGN => 23,
            Token::QUO_ASSIGN => 24,
            Token::REM_ASSIGN => 25,
            Token::AND_ASSIGN => 26,
            Token::OR_ASSIGN => 27,
            Token::XOR_ASSIGN => 28,
            Token::SHL_ASSIGN => 29,
            Token::SHR_ASSIGN => 30,
            Token::AND_NOT_ASSIGN => 31,
            Token::LAND => 32,
            Token::LOR => 33,
            Token::ARROW => 34,
            Token::INC => 35,
            Token::DEC => 36,
            Token::EQL => 37,
            Token::LSS => 38,
            Token::GTR => 39,
            Token::ASSIGN => 40,
            Token::NOT => 41,
            Token::NEQ => 42,
            Token::LEQ => 43,
            Token::GEQ => 44,
            Token::DEFINE => 45,
            Token::ELLIPSIS => 46,
            Token::LPAREN => 47,
            Token::LBRACK => 48,
            Token::LBRACE => 49,
            Token::COMMA => 50,
            Token::PERIOD => 51,
            Token::RPAREN => 52,
            Token::RBRACK => 53,
            Token::RBRACE => 54,
            Token::SEMICOLON(_) => 55,
            Token::COLON => 56,
            Token::BREAK => 57,
            Token::CASE => 58,
            Token::CHAN => 59,
            Token::CONST => 60,
            Token::CONTINUE => 61,
            Token::DEFAULT => 62,
            Token::DEFER => 63,
            Token::ELSE => 64,
            Token::FALLTHROUGH => 65,
            Token::FOR => 66,
            Token::FUNC => 67,
            Token::GO => 68,
            Token::GOTO => 69,
            Token::IF => 70,
            Token::IMPORT => 71,
            Token::INTERFACE => 72,
            Token::MAP => 73,
            Token::PACKAGE => 74,
            Token::RANGE => 75,
            Token::RETURN => 76,
            Token::SELECT => 77,
            Token::STRUCT => 78,
            Token::SWITCH => 79,
            Token::TYPE => 80,
            Token::VAR => 81,
        }
    }

    /// Whether two tokens are of the same kind (payloads aside).
    pub fn same_kind(&self, other: &Token) -> (r: bool)
        ensures r == (token_kind(*self) == token_kind(*other)),
    {
        self.kind_id() == other.kind_id()
    }
}


/// Keywords read back: the text of a keyword token is read as that same
/// keyword, and a text read as a keyword is that keyword's text.
pub proof fn lemma_keyword_round_trip(t: Token, s: Seq<char>)
    ensures
        token_class(t) == TokenType::Keyword ==> keyword_token(token_text(t)) == Some(t),
        keyword_token(s) matches Some(k) ==> token_class(k) == TokenType::Keyword && token_text(k) == s,
{
    reveal_strlit("break");
    reveal_strlit("case");
    reveal_strlit("chan");
    reveal_strlit("const");
    reveal_strlit("continue");
    reveal_strlit("default");
    reveal_strlit("defer");
    reveal_strlit("else");
    reveal_strlit("fallthrough");
    reveal_strlit("for");
    reveal_strlit("func");
    reveal_strlit("go");
    reveal_strlit("goto");
    reveal_strlit("if");
    reveal_strlit("import");
    reveal_strlit("interface");
    reveal_strlit("map");
    reveal_strlit("package");
    reveal_strlit("range");
    reveal_strlit("return");
    reveal_strlit("select");
    reveal_strlit("struct");
    reveal_strlit("switch");
    reveal_strlit("type");
    reveal_strlit("var");
    match t {
        Token::BREAK => {
            assert(keyword_token("break"@) == Some(Token::BREAK));
        },
        Token::CASE => {
            assert("case"@.len() != "break"@.len());
            assert(keyword_token("case"@) == Some(Token::CASE));
        },
        Token::CHAN => {
            assert("chan"@.len() != "break"@.len());
            assert("chan"@[1] != "case"@[1]);
            assert(keyword_token("chan"@) == Some(Token::CHAN));
        },
        Token::CONST => {
            assert("const"@[0] != "break"@[0]);
            assert("const"@.len() != "case"@.len());
            assert("const"@.len() != "chan"@.len());
            assert(keyword_token("const"@) == Some(Token::CONST));
        },
        Token::CONTINUE => {
            assert("continue"@.len() != "break"@.len());
            assert("continue"@.len() != "case"@.len());
            assert("continue"@.len() != "chan"@.len());
            assert("continue"@.len() != "const"@.len());
            assert(keyword_token("continue"@) == Some(Token::CONTINUE));
        },
        Token::DEFAULT => {
            assert("default"@.len() != "break"@.len());
            assert("default"@.len() != "case"@.len());
            assert("default"@.len() != "chan"@.len());
            assert("default"@.len() != "const"@.len());
            assert("default"@.len() != "continue"@.len());
            assert(keyword_token("default"@) == Some(Token::DEFAULT));
        },
        Token::DEFER => {
            assert("defer"@[0] != "break"@[0]);
            assert("defer"@.len() != "case"@.len());
            assert("defer"@.len() != "chan"@.len());
            assert("defer"@[0] != "const"@[0]);
            assert("defer"@.len() != "continue"@.len());
            assert("defer"@.len() != "default"@.len());
            assert(keyword_token("defer"@) == Some(Token::DEFER));
        },
        Token::ELSE => {
            assert("else"@.len() != "break"@.len());
            assert("else"@[0] != "case"@[0]);
            assert("else"@[0] != "chan"@[0]);
            assert("else"@.len() != "const"@.len());
            assert("else"@.len() != "continue"@.len());
            assert("else"@.len() != "default"@.len());
            assert("else"@.len() != "defer"@.len());
            assert(keyword_token("else"@) == Some(Token::ELSE));
        },
        Token::FALLTHROUGH => {
            assert("fallthrough"@.len() != "break"@.len());
            assert("fallthrough"@.len() != "case"@.len());
            assert("fallthrough"@.len() != "chan"@.len());
            assert("fallthrough"@.len() != "const"@.len());
            assert("fallthrough"@.len() != "continue"@.len());
            assert("fallthrough"@.len() != "default"@.len());
            assert("fallthrough"@.len() != "defer"@.len());
            assert("fallthrough"@.len() != "else"@.len());
            assert(keyword_token("fallthrough"@) == Some(Token::FALLTHROUGH));
        },
        Token::FOR => {
            assert("for"@.len() != "break"@.len());
            assert("for"@.len() != "case"@.len());
            assert("for"@.len() != "chan"@.len());
            assert("for"@.len() != "const"@.len());
            assert("for"@.len() != "continue"@.len());
            assert("for"@.len() != "default"@.len());
            assert("for"@.len() != "defer"@.len());
            assert("for"@.len() != "else"@.len());
            assert("for"@.len() != "fallthrough"@.len());
            assert(keyword_token("for"@) == Some(Token::FOR));
        },
        Token::FUNC => {
            assert("func"@.len() != "break"@.len());
            assert("func"@[0] != "case"@[0]);
            assert("func"@[0] != "chan"@[0]);
            assert("func"@.len() != "const"@.len());
            assert("func"@.len() != "continue"@.len());
            assert("func"@.len() != "default"@.len());
            assert("func"@.len() != "defer"@.len());
            assert("func"@[0] != "else"@[0]);
            assert("func"@.len() != "fallthrough"@.len());
            assert("func"@.len() != "for"@.len());
            assert(keyword_token("func"@) == Some(Token::FUNC));
        },
        Token::GO => {
            assert("go"@.len() != "break"@.len());
            assert("go"@.len() != "case"@.len());
            assert("go"@.len() != "chan"@.len());
            assert("go"@.len() != "const"@.len());
            assert("go"@.len() != "continue"@.len());
            assert("go"@.len() != "default"@.len());
            assert("go"@.len() != "defer"@.len());
            assert("go"@.len() != "else"@.len());
            assert("go"@.len() != "fallthrough"@.len());
            assert("go"@.len() != "for"@.len());
            assert("go"@.len() != "func"@.len());
            assert(keyword_token("go"@) == Some(Token::GO));
        },
        Token::GOTO => {
            assert("goto"@.len() != "break"@.len());
            assert("goto"@[0] != "case"@[0]);
            assert("goto"@[0] != "chan"@[0]);
            assert("goto"@.len() != "const"@.len());
            assert("goto"@.len() != "continue"@.len());
            assert("goto"@.len() != "default"@.len());
            assert("goto"@.len() != "defer"@.len());
            assert("goto"@[0] != "else"@[0]);
            assert("goto"@.len() != "fallthrough"@.len());
            assert("goto"@.len() != "for"@.len());
            assert("goto"@[0] != "func"@[0]);
            assert("goto"@.len() != "go"@.len());
            assert(keyword_token("goto"@) == Some(Token::GOTO));
        },
        Token::IF => {
            assert("if"@.len() != "break"@.len());
            assert("if"@.len() != "case"@.len());
            assert("if"@.len() != "chan"@.len());
            assert("if"@.len() != "const"@.len());
            assert("if"@.len() != "continue"@.len());
            assert("if"@.len() != "default"@.len());
            assert("if"@.len() != "defer"@.len());
            assert("if"@.len() != "else"@.len());
            assert("if"@.len() != "fallthrough"@.len());
            assert("if"@.len() != "for"@.len());
            assert("if"@.len() != "func"@.len());
            assert("if"@[0] != "go"@[0]);
            assert("if"@.len() != "goto"@.len());
            assert(keyword_token("if"@) == Some(Token::IF));
        },
        Token::IMPORT => {
            assert("import"@.len() != "break"@.len());
            assert("import"@.len() != "case"@.len());
            assert("import"@.len() != "chan"@.len());
            assert("import"@.len() != "const"@.len());
            assert("import"@.len() != "continue"@.len());
            assert("import"@.len() != "default"@.len());
            assert("import"@.len() != "defer"@.len());
            assert("import"@.len() != "else"@.len());
            assert("import"@.len() != "fallthrough"@.len());
            assert("import"@.len() != "for"@.len());
            assert("import"@.len() != "func"@.len());
            assert("import"@.len() != "go"@.len());
            assert("import"@.len() != "goto"@.len());
            assert("import"@.len() != "if"@.len());
            assert(keyword_token("import"@) == Some(Token::IMPORT));
        },
        Token::INTERFACE => {
            assert("interface"@.len() != "break"@.len());
            assert("interface"@.len() != "case"@.len());
            assert("interface"@.len() != "chan"@.len());
            assert("interface"@.len() != "const"@.len());
            assert("interface"@.len() != "continue"@.len());
            assert("interface"@.len() != "default"@.len());
            assert("interface"@.len() != "defer"@.len());
            assert("interface"@.len() != "else"@.len());
            assert("interface"@.len() != "fallthrough"@.len());
            assert("interface"@.len() != "for"@.len());
            assert("interface"@.len() != "func"@.len());
            assert("interface"@.len() != "go"@.len());
            assert("interface"@.len() != "goto"@.len());
            assert("interface"@.len() != "if"@.len());
            assert("interface"@.len() != "import"@.len());
            assert(keyword_token("interface"@) == Some(Token::INTERFACE));
        },
        Token::MAP => {
            assert("map"@.len() != "break"@.len());
            assert("map"@.len() != "case"@.len());
            assert("map"@.len() != "chan"@.len());
            assert("map"@.len() != "const"@.len());
            assert("map"@.len() != "continue"@.len());
            assert("map"@.len() != "default"@.len());
            assert("map"@.len() != "defer"@.len());
            assert("map"@.len() != "else"@.len());
            assert("map"@.len() != "fallthrough"@.len());
            assert("map"@[0] != "for"@[0]);
            assert("map"@.len() != "func"@.len());
            assert("map"@.len() != "go"@.len());
            assert("map"@.len() != "goto"@.len());
            assert("map"@.len() != "if"@.len());
            assert("map"@.len() != "import"@.len());
            assert("map"@.len() != "interface"@.len());
            assert(keyword_token("map"@) == Some(Token::MAP));
        },
        Token::PACKAGE => {
            assert("package"@.len() != "break"@.len());
            assert("package"@.len() != "case"@.len());
            assert("package"@.len() != "chan"@.len());
            assert("package"@.len() != "const"@.len());
            assert("package"@.len() != "continue"@.len());
            assert("package"@[0] != "default"@[0]);
            assert("package"@.len() != "defer"@.len());
            assert("package"@.len() != "else"@.len());
            assert("package"@.len() != "fallthrough"@.len());
            assert("package"@.len() != "for"@.len());
            assert("package"@.len() != "func"@.len());
            assert("package"@.len() != "go"@.len());
            assert("package"@.len() != "goto"@.len());
            assert("package"@.len() != "if"@.len());
            assert("package"@.len() != "import"@.len());
            assert("package"@.len() != "interface"@.len());
            assert("package"@.len() != "map"@.len());
            assert(keyword_token("package"@) == Some(Token::PACKAGE));
        },
        Token::RANGE => {
            assert("range"@[0] != "break"@[0]);
            assert("range"@.len() != "case"@.len());
            assert("range"@.len() != "chan"@.len());
            assert("range"@[0] != "const"@[0]);
            assert("range"@.len() != "continue"@.len());
            assert("range"@.len() != "default"@.len());
            assert("range"@[0] != "defer"@[0]);
            assert("range"@.len() != "else"@.len());
            assert("range"@.len() != "fallthrough"@.len());
            assert("range"@.len() != "for"@.len());
            assert("range"@.len() != "func"@.len());
            assert("range"@.len() != "go"@.len());
            assert("range"@.len() != "goto"@.len());
            assert("range"@.len() != "if"@.len());
            assert("range"@.len() != "import"@.len());
            assert("range"@.len() != "interface"@.len());
            assert("range"@.len() != "map"@.len());
            assert("range"@.len() != "package"@.len());
            assert(keyword_token("range"@) == Some(Token::RANGE));
        },
        Token::RETURN => {
            assert("return"@.len() != "break"@.len());
            assert("return"@.len() != "case"@.len());
            assert("return"@.len() != "chan"@.len());
            assert("return"@.len() != "const"@.len());
            assert("return"@.len() != "continue"@.len());
            assert("return"@.len() != "default"@.len());
            assert("return"@.len() != "defer"@.len());
            assert("return"@.len() != "else"@.len());
            assert("return"@.len() != "fallthrough"@.len());
            assert("return"@.len() != "for"@.len());
            assert("return"@.len() != "func"@.len());
            assert("return"@.len() != "go"@.len());
            assert("return"@.len() != "goto"@.len());
            assert("return"@.len() != "if"@.len());
            assert("return"@[0] != "import"@[0]);
            assert("return"@.len() != "interface"@.len());
            assert("return"@.len() != "map"@.len());
            assert("return"@.len() != "package"@.len());
            assert("return"@.len() != "range"@.len());
            assert(keyword_token("return"@) == Some(Token::RETURN));
        },
        Token::SELECT => {
            assert("select"@.len() != "break"@.len());
            assert("select"@.len() != "case"@.len());
            assert("select"@.len() != "chan"@.len());
            assert("select"@.len() != "const"@.len());
            assert("select"@.len() != "continue"@.len());
            assert("select"@.len() != "default"@.len());
            assert("select"@.len() != "defer"@.len());
            assert("select"@.len() != "else"@.len());
            assert("select"@.len() != "fallthrough"@.len());
            assert("select"@.len() != "for"@.len());
            assert("select"@.len() != "func"@.len());
            assert("select"@.len() != "go"@.len());
            assert("select"@.len() != "goto"@.len());
            assert("select"@.len() != "if"@.len());
            assert("select"@[0] != "import"@[0]);
            assert("select"@.len() != "interface"@.len());
            assert("select"@.len() != "map"@.len());
            assert("select"@.len() != "package"@.len());
            assert("select"@.len() != "range"@.len());
            assert("select"@[0] != "return"@[0]);
            assert(keyword_token("select"@) == Some(Token::SELECT));
        },
        Token::STRUCT => {
            assert("struct"@.len() != "break"@.len());
            assert("struct"@.len() != "case"@.len());
            assert("struct"@.len() != "chan"@.len());
            assert("struct"@.len() != "const"@.len());
            assert("struct"@.len() != "continue"@.len());
            assert("struct"@.len() != "default"@.len());
            assert("struct"@.len() != "defer"@.len());
            assert("struct"@.len() != "else"@.len());
            assert("struct"@.len() != "fallthrough"@.len());
            assert("struct"@.len() != "for"@.len());
            assert("struct"@.len() != "func"@.len());
            assert("struct"@.len() != "go"@.len());
            assert("struct"@.len() != "goto"@.len());
            assert("struct"@.len() != "if"@.len());
            assert("struct"@[0] != "import"@[0]);
            assert("struct"@.len() != "interface"@.len());
            assert("struct"@.len() != "map"@.len());
            assert("struct"@.len() != "package"@.len());
            assert("struct"@.len() != "range"@.len());
            assert("struct"@[0] != "return"@[0]);
            assert("struct"@[1] != "select"@[1]);
            assert(keyword_token("struct"@) == Some(Token::STRUCT));
        },
        Token::SWITCH => {
            assert("switch"@.len() != "break"@.len());
            assert("switch"@.len() != "case"@.len());
            assert("switch"@.len() != "chan"@.len());
            assert("switch"@.len() != "const"@.len());
            assert("switch"@.len() != "continue"@.len());
            assert("switch"@.len() != "default"@.len());
            assert("switch"@.len() != "defer"@.len());
            assert("switch"@.len() != "else"@.len());
            assert("switch"@.len() != "fallthrough"@.len());
            assert("switch"@.len() != "for"@.len());
            assert("switch"@.len() != "func"@.len());
            assert("switch"@.len() != "go"@.len());
            assert("switch"@.len() != "goto"@.len());
            assert("switch"@.len() != "if"@.len());
            assert("switch"@[0] != "import"@[0]);
            assert("switch"@.len() != "interface"@.len());
            assert("switch"@.len() != "map"@.len());
            assert("switch"@.len() != "package"@.len());
            assert("switch"@.len() != "range"@.len());
            assert("switch"@[0] != "return"@[0]);
            assert("switch"@[1] != "select"@[1]);
            assert("switch"@[1] != "struct"@[1]);
            assert(keyword_token("switch"@) == Some(Token::SWITCH));
        },
        Token::TYPE => {
            assert("type"@.len() != "break"@.len());
            assert("type"@[0] != "case"@[0]);
            assert("type"@[0] != "chan"@[0]);
            assert("type"@.len() != "const"@.len());
            assert("type"@.len() != "continue"@.len());
            assert("type"@.len() != "default"@.len());
            assert("type"@.len() != "defer"@.len());
            assert("type"@[0] != "else"@[0]);
            assert("type"@.len() != "fallthrough"@.len());
            assert("type"@.len() != "for"@.len());
            assert("type"@[0] != "func"@[0]);
            assert("type"@.len() != "go"@.len());
            assert("type"@[0] != "goto"@[0]);
            assert("type"@.len() != "if"@.len());
            assert("type"@.len() != "import"@.len());
            assert("type"@.len() != "interface"@.len());
            assert("type"@.len() != "map"@.len());
            assert("type"@.len() != "package"@.len());
            assert("type"@.len() != "range"@.len());
            assert("type"@.len() != "return"@.len());
            assert("type"@.len() != "select"@.len());
            assert("type"@.len() != "struct"@.len());
            assert("type"@.len() != "switch"@.len());
            assert(keyword_token("type"@) == Some(Token::TYPE));
        },
        Token::VAR => {
            assert("var"@.len() != "break"@.len());
            assert("var"@.len() != "case"@.len());
            assert("var"@.len() != "chan"@.len());
            assert("var"@.len() != "const"@.len());
            assert("var"@.len() != "continue"@.len());
            assert("var"@.len() != "default"@.len());
            assert("var"@.len() != "defer"@.len());
            assert("var"@.len() != "else"@.len());
            assert("var"@.len() != "fallthrough"@.len());
            assert("var"@[0] != "for"@[0]);
            assert("var"@.len() != "func"@.len());
            assert("var"@.len() != "go"@.len());
            assert("var"@.len() != "goto"@.len());
            assert("var"@.len() != "if"@.len());
            assert("var"@.len() != "import"@.len());
            assert("var"@.len() != "interface"@.len());
            assert("var"@[0] != "map"@[0]);
            assert("var"@.len() != "package"@.len());
            assert("var"@.len() != "range"@.len());
            assert("var"@.len() != "return"@.len());
            assert("var"@.len() != "select"@.len());
            assert("var"@.len() != "struct"@.len());
            assert("var"@.len() != "switch"@.len());
            assert("var"@.len() != "type"@.len());
            assert(keyword_token("var"@) == Some(Token::VAR));
        },
        _ => {},
    }
}

} // verus!
