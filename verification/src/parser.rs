//! The Go parser: a recursive-descent parser from the token stream of one
//! source file to its syntax tree. It stops at the first syntax error, which
//! it records with its position. Nesting deeper than `MAX_NESTING` is
//! reported as an error too.
use vstd::prelude::*;
use std::rc::Rc;
use crate::position::Pos;
use crate::token::{Token, TokenData, RawTokenData, token_data_ok, token_text, token_kind, token_precedence};
use crate::scanner::{TokenInfo, token_stream_ok, scan};
use crate::position::FileSet;
use crate::errors::{ErrorList, is_continuation};
use crate::scope::AstObjects;
use crate::strs::str_to_chars;
use crate::span::{
    ident_ok, lit_ok, expr_ok, opt_expr_ok, exprs_ok, idents_ok, field_ok, fields_ok, field_list_ok, func_type_ok,
    block_ok, stmt_ok, stmts_ok, opt_stmt_ok, spec_node_ok, decl_ok, file_ok, opt_small, func_decl_spans_ok,
    lemma_exprs_push, lemma_idents_push, lemma_stmts_push, lemma_fields_push, lemma_specs_push,
};
use crate::ast::{
    POS_LIMIT, small, Ident, IdentEntity, Expr, Stmt, Decl, Spec, File, Field, FieldList, FuncType,
    ArrayType, StarExpr, MapType, ChanType, ChanDir, ParenExpr, StructType, InterfaceType, FuncLit,
    CompositeLit, KeyValueExpr, TypeAssertExpr, CallExpr, SliceExpr, IndexExpr, BinaryExpr,
    SendStmt, IncDecStmt, LabeledStmt, BlockStmt, GoStmt, DeferStmt, ReturnStmt, BranchStmt,
    EmptyStmt, IfStmt, TypeSwitchStmt, SwitchStmt, CaseClause, SelectStmt, CommClause, RangeStmt,
    ForStmt, ImportSpec, BasicLit, TypeSpec, ValueSpec, GenDecl, FuncDecl,
};

verus! {

/// The range clause of a `for` header, as the parser first reads it: an
/// assignment (maybe with no left-hand side) from `range x`.
pub open spec fn range_clause_ok(s: Stmt) -> bool {
    &&& s matches Stmt::Assign(a)
    &&& exprs_ok(a.lhs@)
    &&& a.rhs@.len() == 1
    &&& exprs_ok(a.rhs@)
    &&& small(a.token_pos)
    &&& a.rhs@[0] matches Expr::Unary(u)
    &&& u.op is RANGE
}

/// The text of a basic literal token; empty for other tokens.
pub open spec fn lit_text(t: Token) -> Seq<char> {
    match t {
        Token::INT(d) | Token::FLOAT(d) | Token::IMAG(d) | Token::CHAR(d) | Token::STRING(d) => d.str_of(),
        _ => Seq::empty(),
    }
}

/// An identifier token whose name is not too long to position.
pub open spec fn ident_token_ok(t: Token) -> bool {
    t matches Token::IDENT(TokenData(RawTokenData::Str(s))) && s@.len() <= POS_LIMIT
}

/// A type-switch guard: `x.(type)`, or `v := x.(type)` with one name.
pub open spec fn is_type_switch_assert_spec(s: &Stmt) -> bool {
    match *s {
        Stmt::Expr(e) => *e matches Expr::TypeAssert(t) && t.typ is None,
        Stmt::Assign(a) => a.token is DEFINE && a.lhs@.len() == 1 && a.rhs@.len() == 1
            && (a.rhs@[0] matches Expr::TypeAssert(t) && t.typ is None),
        _ => false,
    }
}

/// The keywords of branch statements are short.
proof fn lemma_branch_text(t: Token)
    requires t is BREAK || t is CONTINUE || t is GOTO || t is FALLTHROUGH,
    ensures token_text(t).len() <= POS_LIMIT,
{
    reveal_strlit("break");
    reveal_strlit("continue");
    reveal_strlit("goto");
    reveal_strlit("fallthrough");
}

/// The deepest syntactic nesting the parser follows.
pub const MAX_NESTING: usize = 10000;

/// How a simple statement may be continued: a plain statement, one that may
/// be a label, or the header of a `for` that may be a range clause.
#[derive(Clone, Copy, PartialEq, Eq, Structural)]
pub enum StmtMode {
    Basic,
    LabelOk,
    RangeOk,
}

/// Parser state: the token stream, the index of the current token, the
/// expression nesting level (negative inside control clause headers, where a
/// `{` starts a block rather than a composite literal) and the errors found.
pub struct Parser {
    toks: Vec<TokenInfo>,
    idx: usize,
    expr_lev: i64,
    pub errors: Vec<(Pos, String)>,
}

/// How tightly an expression binds as an operand: a binary expression by its
/// operator's precedence, anything else (an operand, a unary or
/// parenthesised expression) more tightly than any binary operator.
pub open spec fn binding_prec(e: Expr) -> int {
    match e {
        Expr::Binary(b) => token_precedence(b.op) as int,
        _ => 6,
    }
}

/// Every binary expression in `e` (outside parentheses) groups by precedence:
/// its left operand binds at least as tightly as its operator and its right
/// operand more tightly, so `a - b - c` is `(a - b) - c` and `a + b * c` is
/// `a + (b * c)`.
pub open spec fn prec_ordered(e: Expr) -> bool
    decreases e,
{
    match e {
        Expr::Binary(b) => {
            &&& binding_prec(b.expr_a) >= token_precedence(b.op)
            &&& binding_prec(b.expr_b) > token_precedence(b.op)
            &&& prec_ordered(b.expr_a)
            &&& prec_ordered(b.expr_b)
        },
        _ => true,
    }
}

impl Parser {
    pub closed spec fn wf(&self) -> bool {
        &&& token_stream_ok(self.toks@, 0, POS_LIMIT as int)
        &&& self.idx < self.toks@.len()
        &&& -1000000 <= self.expr_lev <= 1000000
        &&& forall|i: int| 0 <= i < self.errors@.len() ==> !is_continuation(#[trigger] self.errors@[i].1@)
    }

    pub closed spec fn spec_idx(&self) -> int {
        self.idx as int
    }

    /// The syntax errors found so far.
    pub closed spec fn spec_errors(&self) -> Seq<(Pos, String)> {
        self.errors@
    }

    pub closed spec fn spec_toks(&self) -> Seq<TokenInfo> {
        self.toks@
    }

    /// The parser moved forward over the same tokens.
    pub open spec fn advanced(a: Parser, b: Parser) -> bool {
        &&& b.wf()
        &&& b.spec_toks() == a.spec_toks()
        &&& b.spec_idx() >= a.spec_idx()
    }

    /// The errors after a parse: unchanged when it succeeds, more of them
    /// (the syntax error found) when it fails.
    pub closed spec fn outcome(a: Parser, b: Parser, ok: bool) -> bool {
        if ok { b.errors@ == a.errors@ } else { b.errors@.len() > a.errors@.len() }
    }

    /// The current token.
    pub closed spec fn cur_tok(&self) -> Token {
        self.toks@[self.idx as int].tok
    }

    /// The position of the current token.
    pub closed spec fn cur_pos(&self) -> Pos {
        self.toks@[self.idx as int].pos
    }

    /// Where the parser stands after moving to the next token.
    pub closed spec fn next_idx(&self) -> int {
        if self.idx < self.toks@.len() - 1 { self.idx + 1 } else { self.idx as int }
    }

    pub fn new(toks: Vec<TokenInfo>) -> (r: Parser)
        requires token_stream_ok(toks@, 0, POS_LIMIT as int),
        ensures r.wf(), r.spec_toks() == toks@, r.spec_idx() == 0, r.spec_errors().len() == 0,
    {
        Parser { toks, idx: 0, expr_lev: 0, errors: Vec::new() }
    }

    fn tok(&self) -> (r: &Token)
        requires self.wf(),
        ensures *r == self.toks@[self.idx as int].tok,
    {
        &self.toks[self.idx].tok
    }

    fn pos(&self) -> (r: Pos)
        requires self.wf(),
        ensures r == self.toks@[self.idx as int].pos, r <= POS_LIMIT,
    {
        self.toks[self.idx].pos
    }

    fn at_eof(&self) -> (r: bool)
        requires self.wf(),
        ensures r == (self.idx == self.toks@.len() - 1),
    {
        matches!(self.tok(), Token::EOF)
    }

    /// Moves to the next token (staying on the final EOF).
    fn next(&mut self)
        requires old(self).wf(),
        ensures
            Self::advanced(*old(self), *final(self)),
            final(self).errors@ == old(self).errors@,
            final(self).expr_lev == old(self).expr_lev,
            old(self).idx < old(self).toks@.len() - 1 ==> final(self).idx == old(self).idx + 1,
            old(self).idx == old(self).toks@.len() - 1 ==> final(self).idx == old(self).idx,
    {
        if self.idx < self.toks.len() - 1 {
            self.idx += 1;
        }
    }

    /// Records a syntax error at the current token and gives up.
    fn fail<T>(&mut self, msg: &str) -> (r: Option<T>)
        requires old(self).wf(), !is_continuation(msg@),
        ensures Self::advanced(*old(self), *final(self)), Self::outcome(*old(self), *final(self), r is Some), r is None,
            final(self).idx == old(self).idx,
            final(self).expr_lev == old(self).expr_lev,
            final(self).errors@.len() == old(self).errors@.len() + 1,
            final(self).errors@.drop_last() == old(self).errors@,
            final(self).errors@.last().0 == old(self).cur_pos(),
            final(self).errors@.last().1@ == msg@,
    {
        let p = self.pos();
        self.errors.push((p, String::from_str(msg)));
        None
    }

    /// Consumes a token of the kind of `want`, returning its position.
    fn expect(&mut self, want: &Token, msg: &str) -> (r: Option<Pos>)
        requires old(self).wf(), !is_continuation(msg@),
        ensures Self::advanced(*old(self), *final(self)), Self::outcome(*old(self), *final(self), r is Some),
            r matches Some(p) ==> p <= POS_LIMIT,
            (r is Some) == (token_kind(old(self).cur_tok()) == token_kind(*want)),
            r matches Some(p) ==> p == old(self).cur_pos() && final(self).idx == old(self).next_idx(),
            r is None ==> final(self).idx == old(self).idx,
            final(self).expr_lev == old(self).expr_lev,
    {
        if self.tok().same_kind(want) {
            let p = self.pos();
            self.next();
            Some(p)
        } else {
            self.fail(msg)
        }
    }

    /// Consumes the semicolon that ends a statement or declaration; it may be
    /// left out before a closing `)` or `}`.
    fn expect_semi(&mut self) -> (r: Option<()>)
        requires old(self).wf(),
        ensures Self::advanced(*old(self), *final(self)), Self::outcome(*old(self), *final(self), r is Some),
            (r is Some) == (old(self).cur_tok() is RPAREN || old(self).cur_tok() is RBRACE || old(self).cur_tok() is SEMICOLON),
            final(self).idx == if old(self).cur_tok() is SEMICOLON { old(self).next_idx() } else { old(self).idx as int },
            final(self).expr_lev == old(self).expr_lev,
    {
        if matches!(self.tok(), Token::RPAREN | Token::RBRACE) {
            Some(())
        } else if matches!(self.tok(), Token::SEMICOLON(_)) {
            self.next();
            Some(())
        } else {
            { proof { reveal_strlit("expected ';'"); } self.fail("expected ';'") }
        }
    }

    /// A basic literal at `p` holding token `t` (the current token).
    fn lit(&mut self, p: Pos, t: Token) -> (r: Option<BasicLit>)
        requires old(self).wf(), small(p), token_data_ok(t),
        ensures Self::advanced(*old(self), *final(self)), Self::outcome(*old(self), *final(self), r is Some), final(self).idx == old(self).idx,
            r matches Some(l) ==> lit_ok(l) && l.pos == p && l.token == t,
            (r is Some) == (lit_text(t).len() <= POS_LIMIT),
    {
        if t.get_literal().unicode_len() > POS_LIMIT {
            return { proof { reveal_strlit("literal too long"); } self.fail("literal too long") };
        }
        Some(BasicLit { pos: p, token: t })
    }

    /// A basic literal expression at `p` holding token `t` (the current token).
    fn basic_lit(&mut self, p: Pos, t: Token) -> (r: Option<Expr>)
        requires old(self).wf(), small(p), token_data_ok(t),
        ensures Self::advanced(*old(self), *final(self)), Self::outcome(*old(self), *final(self), r is Some), final(self).idx == old(self).idx,
            r matches Some(e) ==> expr_ok(e) && (e matches Expr::BasicLit(l) && l.pos == p && l.token == t),
            (r is Some) == (lit_text(t).len() <= POS_LIMIT),
    {
        let l = self.lit(p, t)?;
        let r = Expr::BasicLit(Rc::new(l));
        assert(expr_ok(r));
        Some(r)
    }

    fn enter(&mut self)
        requires old(self).wf(),
        ensures Self::advanced(*old(self), *final(self)), final(self).errors@ == old(self).errors@, final(self).idx == old(self).idx,
            final(self).expr_lev == if old(self).expr_lev < 1000000 { old(self).expr_lev + 1 } else { old(self).expr_lev as int },
    {
        if self.expr_lev < 1000000 {
            self.expr_lev += 1;
        }
    }

    fn leave(&mut self)
        requires old(self).wf(),
        ensures Self::advanced(*old(self), *final(self)), final(self).errors@ == old(self).errors@, final(self).idx == old(self).idx,
            final(self).expr_lev == if old(self).expr_lev > -1000000 { old(self).expr_lev - 1 } else { old(self).expr_lev as int },
    {
        if self.expr_lev > -1000000 {
            self.expr_lev -= 1;
        }
    }

    fn set_lev(&mut self, lev: i64)
        requires old(self).wf(), -1000000 <= lev <= 1000000,
        ensures Self::advanced(*old(self), *final(self)), final(self).errors@ == old(self).errors@, final(self).idx == old(self).idx,
            final(self).expr_lev == lev,
    {
        self.expr_lev = lev;
    }

    fn parse_ident(&mut self) -> (r: Option<Ident>)
        requires old(self).wf(),
        ensures Self::advanced(*old(self), *final(self)), Self::outcome(*old(self), *final(self), r is Some),
            r matches Some(i) ==> final(self).idx > old(self).idx && ident_ok(i),
            (r is Some) == ident_token_ok(old(self).cur_tok()),
            r matches Some(i) ==> i.pos == old(self).cur_pos() && i.entity is NoEntity
                && (old(self).cur_tok() matches Token::IDENT(TokenData(RawTokenData::Str(s))) && i.name == s)
                && final(self).idx == old(self).next_idx(),
            final(self).expr_lev == old(self).expr_lev,
    {
        let p = self.pos();
        let name = match self.tok() {
            Token::IDENT(TokenData(RawTokenData::Str(s))) => s.clone(),
            _ => { return { proof { reveal_strlit("expected identifier"); } self.fail("expected identifier") }; },
        };
        if name.as_str().unicode_len() > POS_LIMIT {
            return { proof { reveal_strlit("identifier too long"); } self.fail("identifier too long") };
        }
        self.next();
        Some(Ident { pos: p, name, entity: IdentEntity::NoEntity })
    }

    fn parse_ident_list(&mut self) -> (r: Option<Vec<Ident>>)
        requires old(self).wf(),
        ensures Self::advanced(*old(self), *final(self)), Self::outcome(*old(self), *final(self), r is Some),
            r matches Some(v) ==> v@.len() > 0 && idents_ok(v@),
    {
        let mut list: Vec<Ident> = Vec::new();
        let first = self.parse_ident()?;
        list.push(first);
        assert(idents_ok(list@));
        while matches!(self.tok(), Token::COMMA)
            invariant Self::advanced(*old(self), *self), self.errors@ == old(self).errors@, list@.len() > 0, idents_ok(list@),
            decreases self.toks@.len() - self.idx,
        {
            self.next();
            let id = self.parse_ident()?;
            proof { lemma_idents_push(list@, id); }
            list.push(id);
        }
        Some(list)
    }

    /// A type name, possibly qualified by a package name.
    fn parse_type_name(&mut self) -> (r: Option<Expr>)
        requires old(self).wf(),
        ensures Self::advanced(*old(self), *final(self)), Self::outcome(*old(self), *final(self), r is Some),
            r matches Some(e) ==> expr_ok(e) && (e is Ident || e is Selector),
    {
        let id = self.parse_ident()?;
        let mut x = Expr::Ident(Rc::new(id));
        assert(ident_ok(id));
        assert(expr_ok(x));
        if matches!(self.tok(), Token::PERIOD) {
            self.next();
            let sel = self.parse_ident()?;
            x = Expr::new_selector(x, sel);
        }
        Some(x)
    }

    /// Whether the current token can start a type.
    fn at_type_start(&self) -> (r: bool)
        requires self.wf(),
        ensures r == (self.cur_tok() is IDENT || self.cur_tok() is LBRACK || self.cur_tok() is STRUCT
            || self.cur_tok() is MUL || self.cur_tok() is FUNC || self.cur_tok() is INTERFACE || self.cur_tok() is MAP
            || self.cur_tok() is CHAN || self.cur_tok() is LPAREN || self.cur_tok() is ARROW),
    {
        matches!(self.tok(), Token::IDENT(_) | Token::LBRACK | Token::STRUCT | Token::MUL | Token::FUNC
            | Token::INTERFACE | Token::MAP | Token::CHAN | Token::LPAREN | Token::ARROW)
    }

    fn parse_type(&mut self, depth: usize) -> (r: Option<Expr>)
        requires old(self).wf(),
        ensures Self::advanced(*old(self), *final(self)), Self::outcome(*old(self), *final(self), r is Some),
            r matches Some(e) ==> expr_ok(e),
            r matches Some(e) ==> !(e is Binary),
        decreases depth,
    {
        if depth == 0 {
            return { proof { reveal_strlit("nesting too deep"); } self.fail("nesting too deep") };
        }
        let p = self.pos();
        match self.tok() {
            Token::IDENT(_) => self.parse_type_name(),
            Token::LBRACK => {
                self.next();
                let len = if matches!(self.tok(), Token::RBRACK) {
                    None
                } else if matches!(self.tok(), Token::ELLIPSIS) {
                    let ep = self.pos();
                    self.next();
                    let e = Expr::new_ellipsis(ep, None);
                    assert(opt_expr_ok(None));
                    assert(expr_ok(e));
                    Some(e)
                } else {
                    self.enter();
                    let e = self.parse_rhs(depth - 1);
                    self.leave();
                    Some(e?)
                };
                assert(opt_expr_ok(len));
                { proof { reveal_strlit("expected ']'"); } self.expect(&Token::RBRACK, "expected ']'") }?;
                let elt = self.parse_type(depth - 1)?;
                let r = Expr::Array(Rc::new(ArrayType { l_brack: p, len, elt }));
                assert(expr_ok(r));
                Some(r)
            },
            Token::STRUCT => self.parse_struct_type(depth - 1),
            Token::MUL => {
                self.next();
                let elt = self.parse_type(depth - 1)?;
                let r = Expr::Star(Rc::new(StarExpr { star: p, expr: elt }));
                assert(expr_ok(r));
                Some(r)
            },
            Token::FUNC => {
                self.next();
                let ft = self.parse_signature(Some(p), depth - 1)?;
                let r = Expr::box_func_type(ft);
                assert(expr_ok(r));
                Some(r)
            },
            Token::INTERFACE => self.parse_interface_type(depth - 1),
            Token::MAP => {
                self.next();
                { proof { reveal_strlit("expected '['"); } self.expect(&Token::LBRACK, "expected '['") }?;
                let key = self.parse_type(depth - 1)?;
                { proof { reveal_strlit("expected ']'"); } self.expect(&Token::RBRACK, "expected ']'") }?;
                let val = self.parse_type(depth - 1)?;
                let r = Expr::MapType(Rc::new(MapType { map: p, key, val }));
                assert(expr_ok(r));
                Some(r)
            },
            Token::CHAN => {
                self.next();
                let mut arrow = p;
                let mut dir = ChanDir::SendRecv;
                if matches!(self.tok(), Token::ARROW) {
                    arrow = self.pos();
                    self.next();
                    dir = ChanDir::Send;
                }
                let val = self.parse_type(depth - 1)?;
                let r = Expr::Chan(Rc::new(ChanType { begin: p, arrow, dir, val }));
                assert(expr_ok(r));
                Some(r)
            },
            Token::ARROW => {
                self.next();
                let arrow = p;
                { proof { reveal_strlit("expected 'chan'"); } self.expect(&Token::CHAN, "expected 'chan'") }?;
                let val = self.parse_type(depth - 1)?;
                let r = Expr::Chan(Rc::new(ChanType { begin: p, arrow, dir: ChanDir::Recv, val }));
                assert(expr_ok(r));
                Some(r)
            },
            Token::LPAREN => {
                self.next();
                let t = self.parse_type(depth - 1)?;
                let rp = { proof { reveal_strlit("expected ')'"); } self.expect(&Token::RPAREN, "expected ')'") }?;
                let r = Expr::Paren(Rc::new(ParenExpr { l_paren: p, expr: t, r_paren: rp }));
                assert(expr_ok(r));
                Some(r)
            },
            _ => { proof { reveal_strlit("expected type"); } self.fail("expected type") },
        }
    }

    fn parse_struct_type(&mut self, depth: usize) -> (r: Option<Expr>)
        requires old(self).wf(),
        ensures Self::advanced(*old(self), *final(self)), Self::outcome(*old(self), *final(self), r is Some),
            r matches Some(e) ==> expr_ok(e),
            r matches Some(e) ==> !(e is Binary),
        decreases depth,
    {
        if depth == 0 {
            return { proof { reveal_strlit("nesting too deep"); } self.fail("nesting too deep") };
        }
        let p = { proof { reveal_strlit("expected 'struct'"); } self.expect(&Token::STRUCT, "expected 'struct'") }?;
        let lb = { proof { reveal_strlit("expected '{'"); } self.expect(&Token::LBRACE, "expected '{'") }?;
        let mut list: Vec<Field> = Vec::new();
        while matches!(self.tok(), Token::IDENT(_) | Token::MUL | Token::LPAREN)
            invariant Self::advanced(*old(self), *self), self.errors@ == old(self).errors@, depth > 0, fields_ok(list@),
            decreases self.toks@.len() - self.idx,
        {
            let start = self.idx;
            let field = if matches!(self.tok(), Token::IDENT(_)) {
                let first = self.parse_type_name()?;
                if matches!(self.tok(), Token::SEMICOLON(_) | Token::RBRACE | Token::STRING(_)) {
                    let f = Field { names: Vec::new(), typ: first, tag: None };
                    assert(field_ok(f));
                    f
                } else {
                    let mut names: Vec<Ident> = Vec::new();
                    match first {
                        Expr::Ident(id) => { names.push(id.duplicate()); },
                        _ => { return { proof { reveal_strlit("expected field name"); } self.fail("expected field name") }; },
                    }
                    assert(idents_ok(names@));
                    while matches!(self.tok(), Token::COMMA)
                        invariant Self::advanced(*old(self), *self), self.errors@ == old(self).errors@, depth > 0, fields_ok(list@), idents_ok(names@),
                        decreases self.toks@.len() - self.idx,
                    {
                        self.next();
                        let id = self.parse_ident()?;
                        proof { lemma_idents_push(names@, id); }
                        names.push(id);
                    }
                    let typ = self.parse_type(depth - 1)?;
                    let f = Field { names, typ, tag: None };
                    assert(field_ok(f));
                    f
                }
            } else {
                let typ = self.parse_type(depth - 1)?;
                let f = Field { names: Vec::new(), typ, tag: None };
                assert(field_ok(f));
                f
            };
            let mut field = field;
            if matches!(self.tok(), Token::STRING(_)) {
                let tp = self.pos();
                let t = self.tok().duplicate();
                let tag = self.basic_lit(tp, t)?;
                self.next();
                field.tag = Some(tag);
                assert(field_ok(field));
            }
            proof { lemma_fields_push(list@, field); }
            list.push(field);
            self.expect_semi()?;
            if self.idx <= start {
                return { proof { reveal_strlit("expected field"); } self.fail("expected field") };
            }
        }
        let rb = { proof { reveal_strlit("expected '}'"); } self.expect(&Token::RBRACE, "expected '}'") }?;
        let fields = FieldList::new(Some(lb), list, Some(rb));
        assert(field_list_ok(fields));
        let r = Expr::Struct(Rc::new(StructType { struct_pos: p, fields, incomplete: false }));
        assert(expr_ok(r));
        Some(r)
    }

    fn parse_interface_type(&mut self, depth: usize) -> (r: Option<Expr>)
        requires old(self).wf(),
        ensures Self::advanced(*old(self), *final(self)), Self::outcome(*old(self), *final(self), r is Some),
            r matches Some(e) ==> expr_ok(e),
            r matches Some(e) ==> !(e is Binary),
        decreases depth,
    {
        if depth == 0 {
            return { proof { reveal_strlit("nesting too deep"); } self.fail("nesting too deep") };
        }
        let p = { proof { reveal_strlit("expected 'interface'"); } self.expect(&Token::INTERFACE, "expected 'interface'") }?;
        let lb = { proof { reveal_strlit("expected '{'"); } self.expect(&Token::LBRACE, "expected '{'") }?;
        let mut list: Vec<Field> = Vec::new();
        while matches!(self.tok(), Token::IDENT(_))
            invariant Self::advanced(*old(self), *self), self.errors@ == old(self).errors@, depth > 0, fields_ok(list@),
            decreases self.toks@.len() - self.idx,
        {
            let start = self.idx;
            let x = self.parse_type_name()?;
            let field = if matches!(self.tok(), Token::LPAREN) {
                match x {
                    Expr::Ident(id) => {
                        let ft = self.parse_signature(None, depth - 1)?;
                        let mut names: Vec<Ident> = Vec::new();
                        names.push(id.duplicate());
                        assert(idents_ok(names@));
                        let typ = Expr::box_func_type(ft);
                        assert(expr_ok(typ));
                        let f = Field { names, typ, tag: None };
                        assert(field_ok(f));
                        f
                    },
                    _ => { return { proof { reveal_strlit("expected method name"); } self.fail("expected method name") }; },
                }
            } else {
                let f = Field { names: Vec::new(), typ: x, tag: None };
                assert(field_ok(f));
                f
            };
            proof { lemma_fields_push(list@, field); }
            list.push(field);
            self.expect_semi()?;
            if self.idx <= start {
                return { proof { reveal_strlit("expected method"); } self.fail("expected method") };
            }
        }
        let rb = { proof { reveal_strlit("expected '}'"); } self.expect(&Token::RBRACE, "expected '}'") }?;
        let methods = FieldList::new(Some(lb), list, Some(rb));
        assert(field_list_ok(methods));
        let r = Expr::Interface(Rc::new(InterfaceType { interface: p, methods, incomplete: false }));
        assert(expr_ok(r));
        Some(r)
    }

    /// A parameter entry: a type, or a name (which looks like a type), or a
    /// variadic `...T`.
    fn parse_param_type(&mut self, depth: usize) -> (r: Option<Expr>)
        requires old(self).wf(),
        ensures Self::advanced(*old(self), *final(self)), Self::outcome(*old(self), *final(self), r is Some),
            r matches Some(e) ==> expr_ok(e),
        decreases depth,
    {
        if depth == 0 {
            return { proof { reveal_strlit("nesting too deep"); } self.fail("nesting too deep") };
        }
        if matches!(self.tok(), Token::ELLIPSIS) {
            let p = self.pos();
            self.next();
            let elt = self.parse_type(depth - 1)?;
            let r = Expr::new_ellipsis(p, Some(elt));
            assert(opt_expr_ok(Some(elt)));
            assert(expr_ok(r));
            Some(r)
        } else {
            self.parse_type(depth - 1)
        }
    }

    /// A parenthesized parameter list. Entries are either all types, or
    /// names followed by types, where a run of names shares the next type.
    fn parse_parameters(&mut self, depth: usize) -> (r: Option<FieldList>)
        requires old(self).wf(),
        ensures Self::advanced(*old(self), *final(self)), Self::outcome(*old(self), *final(self), r is Some),
            r matches Some(l) ==> field_list_ok(l) && l.opening is Some,
        decreases depth,
    {
        if depth == 0 {
            return { proof { reveal_strlit("nesting too deep"); } self.fail("nesting too deep") };
        }
        let lp = { proof { reveal_strlit("expected '('"); } self.expect(&Token::LPAREN, "expected '('") }?;
        let mut entries: Vec<(Expr, Option<Expr>)> = Vec::new();
        let mut named = false;
        while !matches!(self.tok(), Token::RPAREN | Token::EOF)
            invariant Self::advanced(*old(self), *self), self.errors@ == old(self).errors@, depth > 0,
                forall|i: int| 0 <= i < entries@.len() ==> expr_ok(#[trigger] entries@[i].0) && opt_expr_ok(entries@[i].1),
            decreases self.toks@.len() - self.idx,
        {
            let start = self.idx;
            let x = self.parse_param_type(depth - 1)?;
            let ghost before = entries@;
            let entry = if matches!(self.tok(), Token::COMMA | Token::RPAREN) {
                assert(opt_expr_ok(None));
                (x, None)
            } else {
                let t = self.parse_param_type(depth - 1)?;
                assert(opt_expr_ok(Some(t)));
                named = true;
                (x, Some(t))
            };
            assert(expr_ok(entry.0) && opt_expr_ok(entry.1));
            entries.push(entry);
            assert forall|i: int| 0 <= i < entries@.len() implies expr_ok(#[trigger] entries@[i].0) && opt_expr_ok(entries@[i].1) by {
                if i < before.len() {
                    assert(entries@[i] == before[i]);
                }
            };
            if matches!(self.tok(), Token::COMMA) {
                self.next();
            } else if !matches!(self.tok(), Token::RPAREN) {
                return { proof { reveal_strlit("expected ',' or ')'"); } self.fail("expected ',' or ')'") };
            }
            if self.idx <= start {
                return { proof { reveal_strlit("expected parameter"); } self.fail("expected parameter") };
            }
        }
        let rp = { proof { reveal_strlit("expected ')'"); } self.expect(&Token::RPAREN, "expected ')'") }?;
        let mut list: Vec<Field> = Vec::new();
        let mut pending: Vec<Ident> = Vec::new();
        let mut k: usize = 0;
        while k < entries.len()
            invariant Self::advanced(*old(self), *self), self.errors@ == old(self).errors@, depth > 0,
                k <= entries@.len(),
                forall|i: int| 0 <= i < entries@.len() ==> expr_ok(#[trigger] entries@[i].0) && opt_expr_ok(entries@[i].1),
                fields_ok(list@),
                idents_ok(pending@),
            decreases entries@.len() - k,
        {
            let (x, t) = (&entries[k].0, &entries[k].1);
            assert(expr_ok(entries@[k as int].0) && opt_expr_ok(entries@[k as int].1));
            if named {
                let id = match x {
                    Expr::Ident(id) => id.duplicate(),
                    _ => { return { proof { reveal_strlit("mixed named and unnamed parameters"); } self.fail("mixed named and unnamed parameters") }; },
                };
                proof { lemma_idents_push(pending@, id); }
                pending.push(id);
                match t {
                    Some(t) => {
                        let names = pending;
                        pending = Vec::new();
                        let f = Field { names, typ: t.duplicate(), tag: None };
                        assert(opt_expr_ok(None));
                        assert(field_ok(f));
                        proof { lemma_fields_push(list@, f); }
                        list.push(f);
                    },
                    None => {},
                }
            } else {
                let f = Field { names: Vec::new(), typ: x.duplicate(), tag: None };
                assert(opt_expr_ok(None));
                assert(field_ok(f));
                proof { lemma_fields_push(list@, f); }
                list.push(f);
            }
            k += 1;
        }
        if pending.len() > 0 {
            return { proof { reveal_strlit("missing parameter type"); } self.fail("missing parameter type") };
        }
        let r = FieldList::new(Some(lp), list, Some(rp));
        assert(field_list_ok(r));
        Some(r)
    }

    /// Parameters and results of a function.
    fn parse_signature(&mut self, func: Option<Pos>, depth: usize) -> (r: Option<FuncType>)
        requires old(self).wf(),
        ensures Self::advanced(*old(self), *final(self)), Self::outcome(*old(self), *final(self), r is Some),
            r matches Some(t) ==> t.func == func && (opt_small(func) ==> func_type_ok(t)),
        decreases depth,
    {
        if depth == 0 {
            return { proof { reveal_strlit("nesting too deep"); } self.fail("nesting too deep") };
        }
        let params = self.parse_parameters(depth - 1)?;
        let results = if matches!(self.tok(), Token::LPAREN) {
            Some(self.parse_parameters(depth - 1)?)
        } else if self.at_type_start() {
            let t = self.parse_type(depth - 1)?;
            let mut list: Vec<Field> = Vec::new();
            let f = Field { names: Vec::new(), typ: t, tag: None };
            assert(opt_expr_ok(None));
            assert(field_ok(f));
            list.push(f);
            let fl = FieldList::new(None, list, None);
            assert(field_list_ok(fl));
            Some(fl)
        } else {
            None
        };
        let r = FuncType::new(func, params, results);
        assert(opt_small(func) ==> func_type_ok(r));
        Some(r)
    }

    fn parse_operand(&mut self, depth: usize) -> (r: Option<Expr>)
        requires old(self).wf(),
        ensures Self::advanced(*old(self), *final(self)), Self::outcome(*old(self), *final(self), r is Some),
            r matches Some(e) ==> expr_ok(e),
            r matches Some(e) ==> !(e is Binary),
        decreases depth,
    {
        if depth == 0 {
            return { proof { reveal_strlit("nesting too deep"); } self.fail("nesting too deep") };
        }
        let p = self.pos();
        match self.tok() {
            Token::IDENT(_) => {
                let id = self.parse_ident()?;
                let r = Expr::Ident(Rc::new(id));
                assert(expr_ok(r));
                Some(r)
            },
            Token::INT(_) | Token::FLOAT(_) | Token::IMAG(_) | Token::CHAR(_) | Token::STRING(_) => {
                let t = self.tok().duplicate();
                let r = self.basic_lit(p, t)?;
                self.next();
                Some(r)
            },
            Token::LPAREN => {
                self.next();
                self.enter();
                let x = self.parse_rhs_or_type(depth - 1);
                self.leave();
                let x = x?;
                let rp = { proof { reveal_strlit("expected ')'"); } self.expect(&Token::RPAREN, "expected ')'") }?;
                let r = Expr::Paren(Rc::new(ParenExpr { l_paren: p, expr: x, r_paren: rp }));
                assert(expr_ok(r));
                Some(r)
            },
            Token::FUNC => {
                self.next();
                let ft = self.parse_signature(Some(p), depth - 1)?;
                if matches!(self.tok(), Token::LBRACE) {
                    self.enter();
                    let body = self.parse_block(depth - 1);
                    self.leave();
                    let body = body?;
                    let r = Expr::FuncLit(Rc::new(FuncLit { typ: ft, body }));
                    assert(expr_ok(r));
                    Some(r)
                } else {
                    let r = Expr::box_func_type(ft);
                    assert(expr_ok(r));
                    Some(r)
                }
            },
            Token::LBRACK | Token::STRUCT | Token::MAP | Token::CHAN | Token::INTERFACE => self.parse_type(depth - 1),
            _ => { proof { reveal_strlit("expected operand"); } self.fail("expected operand") },
        }
    }

    fn parse_rhs_or_type(&mut self, depth: usize) -> (r: Option<Expr>)
        requires old(self).wf(),
        ensures Self::advanced(*old(self), *final(self)), Self::outcome(*old(self), *final(self), r is Some),
            r matches Some(e) ==> expr_ok(e),
        decreases depth,
    {
        if depth == 0 {
            return { proof { reveal_strlit("nesting too deep"); } self.fail("nesting too deep") };
        }
        if matches!(self.tok(), Token::MUL | Token::ARROW) {
            self.parse_unary(depth - 1)
        } else {
            self.parse_expr(depth - 1)
        }
    }

    /// Whether `x` may be the type of a composite literal.
    fn is_literal_type(x: &Expr) -> (r: bool)
        ensures r == (x is Ident || (x matches Expr::Selector(s) && s.expr is Ident) || x is Array || x is Struct
            || x is MapType),
    {
        match x {
            Expr::Ident(_) => true,
            Expr::Selector(s) => matches!(s.expr, Expr::Ident(_)),
            Expr::Array(_) | Expr::Struct(_) | Expr::MapType(_) => true,
            _ => false,
        }
    }

    fn is_type_name(x: &Expr) -> (r: bool)
        ensures r == (x is Ident || x is Selector),
    {
        matches!(x, Expr::Ident(_) | Expr::Selector(_))
    }

    /// `{ elements }` of a composite literal.
    fn parse_literal_value(&mut self, typ: Option<Expr>, depth: usize) -> (r: Option<Expr>)
        requires old(self).wf(), opt_expr_ok(typ),
        ensures Self::advanced(*old(self), *final(self)), Self::outcome(*old(self), *final(self), r is Some),
            r matches Some(e) ==> expr_ok(e),
            r matches Some(e) ==> !(e is Binary),
        decreases depth,
    {
        if depth == 0 {
            return { proof { reveal_strlit("nesting too deep"); } self.fail("nesting too deep") };
        }
        let lb = { proof { reveal_strlit("expected '{'"); } self.expect(&Token::LBRACE, "expected '{'") }?;
        let lev = self.expr_lev;
        self.enter();
        let mut elts: Vec<Expr> = Vec::new();
        while !matches!(self.tok(), Token::RBRACE | Token::EOF)
            invariant Self::advanced(*old(self), *self), self.errors@ == old(self).errors@, depth > 0, -1000000 <= lev <= 1000000,
                exprs_ok(elts@), opt_expr_ok(typ), small(lb),
            decreases self.toks@.len() - self.idx,
        {
            let start = self.idx;
            let k = self.parse_element(depth - 1)?;
            let e = if matches!(self.tok(), Token::COLON) {
                let cp = self.pos();
                self.next();
                let v = self.parse_element(depth - 1)?;
                let kv = Expr::KeyValue(Rc::new(KeyValueExpr { key: k, colon: cp, val: v }));
                assert(expr_ok(kv));
                kv
            } else {
                k
            };
            proof { lemma_exprs_push(elts@, e); }
            elts.push(e);
            if matches!(self.tok(), Token::COMMA) {
                self.next();
            } else if !matches!(self.tok(), Token::RBRACE) {
                return { proof { reveal_strlit("expected ',' or '}'"); } self.fail("expected ',' or '}'") };
            }
            if self.idx <= start {
                return { proof { reveal_strlit("expected element"); } self.fail("expected element") };
            }
        }
        self.set_lev(lev);
        let rb = { proof { reveal_strlit("expected '}'"); } self.expect(&Token::RBRACE, "expected '}'") }?;
        let r = Expr::CompositeLit(Rc::new(CompositeLit { typ, l_brace: lb, elts, r_brace: rb, incomplete: false }));
        assert(expr_ok(r));
        Some(r)
    }

    fn parse_element(&mut self, depth: usize) -> (r: Option<Expr>)
        requires old(self).wf(),
        ensures Self::advanced(*old(self), *final(self)), Self::outcome(*old(self), *final(self), r is Some),
            r matches Some(e) ==> expr_ok(e),
        decreases depth,
    {
        if depth == 0 {
            return { proof { reveal_strlit("nesting too deep"); } self.fail("nesting too deep") };
        }
        if matches!(self.tok(), Token::LBRACE) {
            self.parse_literal_value(None, depth - 1)
        } else {
            self.parse_expr(depth - 1)
        }
    }

    fn parse_primary_expr(&mut self, depth: usize) -> (r: Option<Expr>)
        requires old(self).wf(),
        ensures Self::advanced(*old(self), *final(self)), Self::outcome(*old(self), *final(self), r is Some),
            r matches Some(e) ==> expr_ok(e),
            r matches Some(e) ==> !(e is Binary),
        decreases depth,
    {
        if depth == 0 {
            return { proof { reveal_strlit("nesting too deep"); } self.fail("nesting too deep") };
        }
        let mut x = self.parse_operand(depth - 1)?;
        loop
            invariant Self::advanced(*old(self), *self), self.errors@ == old(self).errors@, depth > 0, expr_ok(x),
                !(x is Binary),
            decreases self.toks@.len() - self.idx,
        {
            let start = self.idx;
            if matches!(self.tok(), Token::PERIOD) {
                self.next();
                if matches!(self.tok(), Token::IDENT(_)) {
                    let sel = self.parse_ident()?;
                    x = Expr::new_selector(x, sel);
                    assert(expr_ok(x));
                } else if matches!(self.tok(), Token::LPAREN) {
                    let lp = self.pos();
                    self.next();
                    let typ = if matches!(self.tok(), Token::TYPE) {
                        self.next();
                        None
                    } else {
                        Some(self.parse_type(depth - 1)?)
                    };
                    assert(opt_expr_ok(typ));
                    let rp = { proof { reveal_strlit("expected ')'"); } self.expect(&Token::RPAREN, "expected ')'") }?;
                    x = Expr::TypeAssert(Rc::new(TypeAssertExpr { expr: x, l_paren: lp, typ, r_paren: rp }));
                    assert(expr_ok(x));
                } else {
                    return { proof { reveal_strlit("expected selector or type assertion"); } self.fail("expected selector or type assertion") };
                }
            } else if matches!(self.tok(), Token::LBRACK) {
                let lb = self.pos();
                self.next();
                self.enter();
                let r = self.parse_index_or_slice(x, lb, depth - 1);
                self.leave();
                x = r?;
            } else if matches!(self.tok(), Token::LPAREN) {
                let lp = self.pos();
                self.next();
                self.enter();
                let r = self.parse_call_args(depth - 1);
                self.leave();
                let (args, ellipsis) = r?;
                let rp = { proof { reveal_strlit("expected ')'"); } self.expect(&Token::RPAREN, "expected ')'") }?;
                x = Expr::Call(Rc::new(CallExpr { func: x, l_paren: lp, args, ellipsis, r_paren: rp }));
                assert(expr_ok(x));
            } else if matches!(self.tok(), Token::LBRACE)
                && Self::is_literal_type(&x)
                && (self.expr_lev >= 0 || !Self::is_type_name(&x)) {
                assert(opt_expr_ok(Some(x)));
                x = self.parse_literal_value(Some(x), depth - 1)?;
            } else {
                return Some(x);
            }
            if self.idx <= start {
                return { proof { reveal_strlit("no progress"); } self.fail("no progress") };
            }
        }
    }

    /// After `[`: an index `x[i]` or a slice `x[lo:hi]` / `x[lo:hi:max]`.
    fn parse_index_or_slice(&mut self, x: Expr, lb: Pos, depth: usize) -> (r: Option<Expr>)
        requires old(self).wf(), expr_ok(x), small(lb),
        ensures Self::advanced(*old(self), *final(self)), Self::outcome(*old(self), *final(self), r is Some),
            r matches Some(e) ==> expr_ok(e),
            r matches Some(e) ==> !(e is Binary),
        decreases depth,
    {
        if depth == 0 {
            return { proof { reveal_strlit("nesting too deep"); } self.fail("nesting too deep") };
        }
        let low = if !matches!(self.tok(), Token::COLON) { Some(self.parse_rhs(depth - 1)?) } else { None };
        if matches!(self.tok(), Token::COLON) {
            self.next();
            let high = if !matches!(self.tok(), Token::COLON | Token::RBRACK) { Some(self.parse_rhs(depth - 1)?) } else { None };
            let mut max = None;
            let mut slice3 = false;
            if matches!(self.tok(), Token::COLON) {
                self.next();
                slice3 = true;
                max = Some(self.parse_rhs(depth - 1)?);
            }
            let rb = { proof { reveal_strlit("expected ']'"); } self.expect(&Token::RBRACK, "expected ']'") }?;
            assert(opt_expr_ok(low) && opt_expr_ok(high) && opt_expr_ok(max));
            let r = Expr::Slice(Rc::new(SliceExpr { expr: x, l_brack: lb, low, high, max, slice3, r_brack: rb }));
            assert(expr_ok(r));
            Some(r)
        } else {
            let index = match low {
                Some(i) => i,
                None => { return { proof { reveal_strlit("expected index"); } self.fail("expected index") }; },
            };
            let rb = { proof { reveal_strlit("expected ']'"); } self.expect(&Token::RBRACK, "expected ']'") }?;
            let r = Expr::Index(Rc::new(IndexExpr { expr: x, l_brack: lb, index, r_brack: rb }));
            assert(expr_ok(r));
            Some(r)
        }
    }

    /// Call arguments up to (not including) `)`, and the position of a
    /// trailing `...` if there is one.
    fn parse_call_args(&mut self, depth: usize) -> (r: Option<(Vec<Expr>, Option<Pos>)>)
        requires old(self).wf(),
        ensures Self::advanced(*old(self), *final(self)), Self::outcome(*old(self), *final(self), r is Some),
            r matches Some((v, e)) ==> exprs_ok(v@) && opt_small(e),
        decreases depth,
    {
        if depth == 0 {
            return { proof { reveal_strlit("nesting too deep"); } self.fail("nesting too deep") };
        }
        let mut args: Vec<Expr> = Vec::new();
        let mut ellipsis: Option<Pos> = None;
        while !matches!(self.tok(), Token::RPAREN | Token::EOF)
            invariant Self::advanced(*old(self), *self), self.errors@ == old(self).errors@, depth > 0, exprs_ok(args@), opt_small(ellipsis),
            decreases self.toks@.len() - self.idx,
        {
            let start = self.idx;
            let a = self.parse_rhs_or_type(depth - 1)?;
            proof { lemma_exprs_push(args@, a); }
            args.push(a);
            if matches!(self.tok(), Token::ELLIPSIS) {
                ellipsis = Some(self.pos());
                self.next();
            }
            if matches!(self.tok(), Token::COMMA) {
                self.next();
            } else if !matches!(self.tok(), Token::RPAREN) {
                return { proof { reveal_strlit("expected ',' or ')'"); } self.fail("expected ',' or ')'") };
            }
            if self.idx <= start {
                return { proof { reveal_strlit("expected argument"); } self.fail("expected argument") };
            }
        }
        Some((args, ellipsis))
    }

    fn parse_unary(&mut self, depth: usize) -> (r: Option<Expr>)
        requires old(self).wf(),
        ensures Self::advanced(*old(self), *final(self)), Self::outcome(*old(self), *final(self), r is Some),
            r matches Some(e) ==> expr_ok(e),
            r matches Some(e) ==> !(e is Binary),
        decreases depth,
    {
        if depth == 0 {
            return { proof { reveal_strlit("nesting too deep"); } self.fail("nesting too deep") };
        }
        let p = self.pos();
        if matches!(self.tok(), Token::ADD | Token::SUB | Token::NOT | Token::XOR | Token::AND | Token::ARROW) {
            let op = self.tok().duplicate();
            self.next();
            let x = self.parse_unary(depth - 1)?;
            let r = Expr::new_unary_expr(p, op, x);
            assert(expr_ok(r));
            Some(r)
        } else if matches!(self.tok(), Token::MUL) {
            self.next();
            let x = self.parse_unary(depth - 1)?;
            let r = Expr::Star(Rc::new(StarExpr { star: p, expr: x }));
            assert(expr_ok(r));
            Some(r)
        } else {
            self.parse_primary_expr(depth - 1)
        }
    }

    /// A binary expression whose operators bind at least as tightly as `prec1`.
    fn parse_binary(&mut self, prec1: usize, depth: usize) -> (r: Option<Expr>)
        requires old(self).wf(), 1 <= prec1 <= 6,
        ensures Self::advanced(*old(self), *final(self)), Self::outcome(*old(self), *final(self), r is Some),
            r matches Some(e) ==> expr_ok(e),
            r matches Some(e) ==> prec_ordered(e) && binding_prec(e) >= prec1,
            r is Some ==> token_precedence(final(self).cur_tok()) < prec1,
        decreases depth,
    {
        if depth == 0 {
            return { proof { reveal_strlit("nesting too deep"); } self.fail("nesting too deep") };
        }
        let mut x = self.parse_unary(depth - 1)?;
        loop
            invariant Self::advanced(*old(self), *self), self.errors@ == old(self).errors@, depth > 0,
                depth > 0, 1 <= prec1 <= 6, expr_ok(x),
                prec_ordered(x), binding_prec(x) >= prec1,
                x is Binary ==> token_precedence(self.cur_tok()) <= binding_prec(x),
            decreases self.toks@.len() - self.idx,
        {
            let oprec = self.tok().precedence();
            if oprec < prec1 || oprec == 0 {
                return Some(x);
            }
            let start = self.idx;
            let op_pos = self.pos();
            let op = self.tok().duplicate();
            self.next();
            let next_prec = if oprec < 6 { oprec + 1 } else { 6 };
            let y = self.parse_binary(next_prec, depth - 1)?;
            x = Expr::Binary(Rc::new(BinaryExpr { expr_a: x, op_pos, op, expr_b: y }));
            assert(expr_ok(x));
            if self.idx <= start {
                return { proof { reveal_strlit("no progress"); } self.fail("no progress") };
            }
        }
    }

    fn parse_expr(&mut self, depth: usize) -> (r: Option<Expr>)
        requires old(self).wf(),
        ensures Self::advanced(*old(self), *final(self)), Self::outcome(*old(self), *final(self), r is Some),
            r matches Some(e) ==> expr_ok(e),
        decreases depth,
    {
        if depth == 0 {
            return { proof { reveal_strlit("nesting too deep"); } self.fail("nesting too deep") };
        }
        self.parse_binary(1, depth - 1)
    }

    fn parse_rhs(&mut self, depth: usize) -> (r: Option<Expr>)
        requires old(self).wf(),
        ensures Self::advanced(*old(self), *final(self)), Self::outcome(*old(self), *final(self), r is Some),
            r matches Some(e) ==> expr_ok(e),
        decreases depth,
    {
        if depth == 0 {
            return { proof { reveal_strlit("nesting too deep"); } self.fail("nesting too deep") };
        }
        self.parse_expr(depth - 1)
    }

    fn parse_expr_list(&mut self, depth: usize) -> (r: Option<Vec<Expr>>)
        requires old(self).wf(),
        ensures Self::advanced(*old(self), *final(self)), Self::outcome(*old(self), *final(self), r is Some),
            r matches Some(v) ==> v@.len() >= 1 && exprs_ok(v@),
        decreases depth,
    {
        if depth == 0 {
            return { proof { reveal_strlit("nesting too deep"); } self.fail("nesting too deep") };
        }
        let mut list: Vec<Expr> = Vec::new();
        let first = self.parse_expr(depth - 1)?;
        proof { lemma_exprs_push(list@, first); }
        list.push(first);
        while matches!(self.tok(), Token::COMMA)
            invariant Self::advanced(*old(self), *self), self.errors@ == old(self).errors@, depth > 0,
                list@.len() >= 1, exprs_ok(list@),
            decreases self.toks@.len() - self.idx,
        {
            self.next();
            let e = self.parse_expr(depth - 1)?;
            proof { lemma_exprs_push(list@, e); }
            list.push(e);
        }
        Some(list)
    }

    /// A type-switch case lists types rather than values.
    fn parse_type_list(&mut self, depth: usize) -> (r: Option<Vec<Expr>>)
        requires old(self).wf(),
        ensures Self::advanced(*old(self), *final(self)), Self::outcome(*old(self), *final(self), r is Some),
            r matches Some(v) ==> exprs_ok(v@),
        decreases depth,
    {
        if depth == 0 {
            return { proof { reveal_strlit("nesting too deep"); } self.fail("nesting too deep") };
        }
        let mut list: Vec<Expr> = Vec::new();
        let first = self.parse_type(depth - 1)?;
        proof { lemma_exprs_push(list@, first); }
        list.push(first);
        while matches!(self.tok(), Token::COMMA)
            invariant Self::advanced(*old(self), *self), self.errors@ == old(self).errors@, depth > 0, exprs_ok(list@),
            decreases self.toks@.len() - self.idx,
        {
            self.next();
            let e = self.parse_type(depth - 1)?;
            proof { lemma_exprs_push(list@, e); }
            list.push(e);
        }
        Some(list)
    }

    /// A simple statement: expression, send, increment or decrement,
    /// assignment or short variable declaration (or, by `mode`, a labeled
    /// statement or the range clause of a `for`).
    fn parse_simple_stmt(&mut self, mode: StmtMode, depth: usize) -> (r: Option<Stmt>)
        requires old(self).wf(),
        ensures Self::advanced(*old(self), *final(self)), Self::outcome(*old(self), *final(self), r is Some),
            r matches Some(s) ==> stmt_ok(s) || (mode == StmtMode::RangeOk && range_clause_ok(s)),
        decreases depth,
    {
        if depth == 0 {
            return { proof { reveal_strlit("nesting too deep"); } self.fail("nesting too deep") };
        }
        if mode == StmtMode::RangeOk && matches!(self.tok(), Token::RANGE) {
            let p = self.pos();
            self.next();
            let x = self.parse_rhs(depth - 1)?;
            let u = Expr::new_unary_expr(p, Token::RANGE, x);
            assert(expr_ok(u));
            let rhs = vec![u];
            assert(exprs_ok(rhs@));
            let r = Stmt::new_assign(Vec::new(), p, Token::ASSIGN, rhs);
            assert(range_clause_ok(r));
            return Some(r);
        }
        let lhs = self.parse_expr_list(depth - 1)?;
        let p = self.pos();
        match self.tok() {
            Token::DEFINE | Token::ASSIGN | Token::ADD_ASSIGN | Token::SUB_ASSIGN | Token::MUL_ASSIGN
            | Token::QUO_ASSIGN | Token::REM_ASSIGN | Token::AND_ASSIGN | Token::OR_ASSIGN
            | Token::XOR_ASSIGN | Token::SHL_ASSIGN | Token::SHR_ASSIGN | Token::AND_NOT_ASSIGN => {
                let tok = self.tok().duplicate();
                self.next();
                let is_plain = matches!(tok, Token::DEFINE | Token::ASSIGN);
                if mode == StmtMode::RangeOk && is_plain && matches!(self.tok(), Token::RANGE) {
                    let rp = self.pos();
                    self.next();
                    let x = self.parse_rhs(depth - 1)?;
                    let u = Expr::new_unary_expr(rp, Token::RANGE, x);
                    assert(expr_ok(u));
                    let rhs = vec![u];
                    assert(exprs_ok(rhs@));
                    let r = Stmt::new_assign(lhs, p, tok, rhs);
                    assert(range_clause_ok(r));
                    Some(r)
                } else {
                    let rhs = self.parse_expr_list(depth - 1)?;
                    let r = Stmt::new_assign(lhs, p, tok, rhs);
                    assert(stmt_ok(r));
                    Some(r)
                }
            },
            Token::COLON => {
                if mode == StmtMode::LabelOk && lhs.len() == 1 {
                    let label = match &lhs[0] {
                        Expr::Ident(id) => id.duplicate(),
                        _ => { return { proof { reveal_strlit("expected label"); } self.fail("expected label") }; },
                    };
                    assert(expr_ok(lhs@[0]));
                    self.next();
                    let stmt = self.parse_stmt(depth - 1)?;
                    let r = Stmt::Labeled(Rc::new(LabeledStmt::arena_new(label, p, stmt)));
                    assert(stmt_ok(r));
                    Some(r)
                } else {
                    { proof { reveal_strlit("unexpected ':'"); } self.fail("unexpected ':'") }
                }
            },
            Token::ARROW => {
                self.next();
                let val = self.parse_rhs(depth - 1)?;
                let chan = lhs[0].duplicate();
                assert(expr_ok(lhs@[0]));
                let r = Stmt::Send(Rc::new(SendStmt { chan, arrow: p, val }));
                assert(stmt_ok(r));
                Some(r)
            },
            Token::INC | Token::DEC => {
                let tok = self.tok().duplicate();
                self.next();
                let expr = lhs[0].duplicate();
                assert(expr_ok(lhs@[0]));
                let r = Stmt::IncDec(Rc::new(IncDecStmt { expr, token_pos: p, token: tok }));
                assert(stmt_ok(r));
                Some(r)
            },
            _ => {
                let e = lhs[0].duplicate();
                assert(expr_ok(lhs@[0]));
                let r = Stmt::Expr(Rc::new(e));
                assert(stmt_ok(r));
                Some(r)
            },
        }
    }

    fn parse_block(&mut self, depth: usize) -> (r: Option<BlockStmt>)
        requires old(self).wf(),
        ensures Self::advanced(*old(self), *final(self)), Self::outcome(*old(self), *final(self), r is Some),
            r matches Some(b) ==> block_ok(b),
        decreases depth,
    {
        if depth == 0 {
            return { proof { reveal_strlit("nesting too deep"); } self.fail("nesting too deep") };
        }
        let lb = { proof { reveal_strlit("expected '{'"); } self.expect(&Token::LBRACE, "expected '{'") }?;
        let list = self.parse_stmt_list(depth - 1)?;
        let rb = { proof { reveal_strlit("expected '}'"); } self.expect(&Token::RBRACE, "expected '}'") }?;
        let b = BlockStmt::new(lb, list, rb);
        assert(block_ok(b));
        Some(b)
    }

    /// Statements up to a `case`, `default`, `}` or the end of the file.
    fn parse_stmt_list(&mut self, depth: usize) -> (r: Option<Vec<Stmt>>)
        requires old(self).wf(),
        ensures Self::advanced(*old(self), *final(self)), Self::outcome(*old(self), *final(self), r is Some),
            r matches Some(v) ==> stmts_ok(v@),
        decreases depth,
    {
        if depth == 0 {
            return { proof { reveal_strlit("nesting too deep"); } self.fail("nesting too deep") };
        }
        let mut list: Vec<Stmt> = Vec::new();
        while !matches!(self.tok(), Token::CASE | Token::DEFAULT | Token::RBRACE | Token::EOF)
            invariant Self::advanced(*old(self), *self), self.errors@ == old(self).errors@, depth > 0, stmts_ok(list@),
            decreases self.toks@.len() - self.idx,
        {
            let start = self.idx;
            let s = self.parse_stmt(depth - 1)?;
            proof { lemma_stmts_push(list@, s); }
            list.push(s);
            if self.idx <= start {
                return { proof { reveal_strlit("expected statement"); } self.fail("expected statement") };
            }
        }
        Some(list)
    }

    /// The header of an `if`, `switch` or `for` is parsed with composite
    /// literals of named types turned off (a `{` there opens the body).
    fn parse_stmt(&mut self, depth: usize) -> (r: Option<Stmt>)
        requires old(self).wf(),
        ensures Self::advanced(*old(self), *final(self)), Self::outcome(*old(self), *final(self), r is Some),
            r matches Some(s) ==> stmt_ok(s),
        decreases depth,
    {
        if depth == 0 {
            return { proof { reveal_strlit("nesting too deep"); } self.fail("nesting too deep") };
        }
        let p = self.pos();
        match self.tok() {
            Token::CONST | Token::TYPE | Token::VAR => {
                let d = self.parse_gen_decl(depth - 1)?;
                let r = Stmt::Decl(Rc::new(d));
                assert(stmt_ok(r));
                Some(r)
            },
            Token::IDENT(_) | Token::INT(_) | Token::FLOAT(_) | Token::IMAG(_) | Token::CHAR(_)
            | Token::STRING(_) | Token::FUNC | Token::LPAREN | Token::LBRACK | Token::STRUCT
            | Token::MAP | Token::CHAN | Token::INTERFACE | Token::ADD | Token::SUB | Token::MUL
            | Token::AND | Token::XOR | Token::ARROW | Token::NOT => {
                let s = self.parse_simple_stmt(StmtMode::LabelOk, depth - 1)?;
                if !matches!(s, Stmt::Labeled(_)) {
                    self.expect_semi()?;
                }
                Some(s)
            },
            Token::GO => {
                self.next();
                let call = self.parse_expr(depth - 1)?;
                self.expect_semi()?;
                let r = Stmt::Go(Rc::new(GoStmt { go: p, call }));
                assert(stmt_ok(r));
                Some(r)
            },
            Token::DEFER => {
                self.next();
                let call = self.parse_expr(depth - 1)?;
                self.expect_semi()?;
                let r = Stmt::Defer(Rc::new(DeferStmt { defer: p, call }));
                assert(stmt_ok(r));
                Some(r)
            },
            Token::RETURN => {
                self.next();
                let results = if !matches!(self.tok(), Token::SEMICOLON(_) | Token::RBRACE) {
                    self.parse_expr_list(depth - 1)?
                } else {
                    Vec::new()
                };
                self.expect_semi()?;
                let r = Stmt::Return(Rc::new(ReturnStmt { ret: p, results }));
                assert(stmt_ok(r));
                Some(r)
            },
            Token::BREAK | Token::CONTINUE | Token::GOTO | Token::FALLTHROUGH => {
                let tok = self.tok().duplicate();
                self.next();
                let label = if !matches!(tok, Token::FALLTHROUGH) && matches!(self.tok(), Token::IDENT(_)) {
                    Some(self.parse_ident()?)
                } else {
                    None
                };
                self.expect_semi()?;
                proof { lemma_branch_text(tok); }
                let r = Stmt::Branch(Rc::new(BranchStmt { token_pos: p, token: tok, label }));
                assert(stmt_ok(r));
                Some(r)
            },
            Token::LBRACE => {
                let b = self.parse_block(depth - 1)?;
                self.expect_semi()?;
                let r = Stmt::box_block(b);
                assert(stmt_ok(r));
                Some(r)
            },
            Token::IF => self.parse_if(depth - 1),
            Token::SWITCH => self.parse_switch(depth - 1),
            Token::SELECT => self.parse_select(depth - 1),
            Token::FOR => self.parse_for(depth - 1),
            Token::SEMICOLON(d) => {
                let implicit = match &d.0 {
                    RawTokenData::Bool(is_real) => !*is_real,
                    _ => false,
                };
                self.next();
                let r = Stmt::Empty(Rc::new(EmptyStmt { semi: p, implicit }));
                assert(stmt_ok(r));
                Some(r)
            },
            Token::RBRACE => {
                let r = Stmt::Empty(Rc::new(EmptyStmt { semi: p, implicit: true }));
                assert(stmt_ok(r));
                Some(r)
            },
            _ => { proof { reveal_strlit("expected statement"); } self.fail("expected statement") },
        }
    }

    /// The condition of an `if` must be an expression statement.
    fn stmt_to_expr(&mut self, s: Stmt) -> (r: Option<Expr>)
        requires old(self).wf(), stmt_ok(s),
        ensures Self::advanced(*old(self), *final(self)), Self::outcome(*old(self), *final(self), r is Some),
            final(self).idx == old(self).idx,
            r matches Some(e) ==> expr_ok(e),
            (r is Some) == (s is Expr),
            r matches Some(e) ==> (s matches Stmt::Expr(x) && e == *x),
    {
        match s {
            Stmt::Expr(e) => Some(e.duplicate()),
            _ => { proof { reveal_strlit("expected expression"); } self.fail("expected expression") },
        }
    }

    fn parse_if(&mut self, depth: usize) -> (r: Option<Stmt>)
        requires old(self).wf(),
        ensures Self::advanced(*old(self), *final(self)), Self::outcome(*old(self), *final(self), r is Some),
            r matches Some(s) ==> stmt_ok(s),
        decreases depth,
    {
        if depth == 0 {
            return { proof { reveal_strlit("nesting too deep"); } self.fail("nesting too deep") };
        }
        let p = { proof { reveal_strlit("expected 'if'"); } self.expect(&Token::IF, "expected 'if'") }?;
        let lev = self.expr_lev;
        self.set_lev(-1);
        let header = self.parse_if_header(depth - 1);
        self.set_lev(lev);
        let (init, cond) = header?;
        let body = self.parse_block(depth - 1)?;
        let els = if matches!(self.tok(), Token::ELSE) {
            self.next();
            if matches!(self.tok(), Token::IF) {
                Some(self.parse_if(depth - 1)?)
            } else if matches!(self.tok(), Token::LBRACE) {
                let b = self.parse_block(depth - 1)?;
                self.expect_semi()?;
                let bs = Stmt::box_block(b);
                assert(stmt_ok(bs));
                Some(bs)
            } else {
                return { proof { reveal_strlit("expected if statement or block"); } self.fail("expected if statement or block") };
            }
        } else {
            self.expect_semi()?;
            None
        };
        assert(opt_stmt_ok(els));
        let r = Stmt::If(Rc::new(IfStmt { if_pos: p, init, cond, body, els }));
        assert(stmt_ok(r));
        Some(r)
    }

    fn parse_if_header(&mut self, depth: usize) -> (r: Option<(Option<Stmt>, Expr)>)
        requires old(self).wf(),
        ensures Self::advanced(*old(self), *final(self)), Self::outcome(*old(self), *final(self), r is Some),
            r matches Some((i, c)) ==> opt_stmt_ok(i) && expr_ok(c),
        decreases depth,
    {
        if depth == 0 {
            return { proof { reveal_strlit("nesting too deep"); } self.fail("nesting too deep") };
        }
        if matches!(self.tok(), Token::LBRACE) {
            return { proof { reveal_strlit("missing condition in if statement"); } self.fail("missing condition in if statement") };
        }
        let mut init: Option<Stmt> = None;
        assert(opt_stmt_ok(init));
        if !matches!(self.tok(), Token::SEMICOLON(_)) {
            init = Some(self.parse_simple_stmt(StmtMode::Basic, depth - 1)?);
            assert(opt_stmt_ok(init));
        }
        if matches!(self.tok(), Token::SEMICOLON(_)) {
            self.next();
            let c = self.parse_simple_stmt(StmtMode::Basic, depth - 1)?;
            let cond = self.stmt_to_expr(c)?;
            Some((init, cond))
        } else {
            match init {
                Some(s) => {
                    let cond = self.stmt_to_expr(s)?;
                    assert(opt_stmt_ok(None));
                    Some((None, cond))
                },
                None => { proof { reveal_strlit("missing condition in if statement"); } self.fail("missing condition in if statement") },
            }
        }
    }

    /// Whether a switch header statement is a type-switch guard
    /// (`x.(type)` or `v := x.(type)`).
    fn is_type_switch_guard(s: &Stmt) -> (r: bool)
        ensures r == (is_type_switch_assert_spec(s) ),
    {
        match s {
            Stmt::Expr(e) => e.is_type_switch_assert(),
            Stmt::Assign(a) => matches!(a.token, Token::DEFINE) && a.lhs.len() == 1 && a.rhs.len() == 1
                && a.rhs[0].is_type_switch_assert(),
            _ => false,
        }
    }

    fn parse_switch(&mut self, depth: usize) -> (r: Option<Stmt>)
        requires old(self).wf(),
        ensures Self::advanced(*old(self), *final(self)), Self::outcome(*old(self), *final(self), r is Some),
            r matches Some(s) ==> stmt_ok(s),
        decreases depth,
    {
        if depth == 0 {
            return { proof { reveal_strlit("nesting too deep"); } self.fail("nesting too deep") };
        }
        let p = { proof { reveal_strlit("expected 'switch'"); } self.expect(&Token::SWITCH, "expected 'switch'") }?;
        let lev = self.expr_lev;
        self.set_lev(-1);
        let header = self.parse_switch_header(depth - 1);
        self.set_lev(lev);
        let (s1, s2) = header?;
        let type_switch = match &s2 {
            Some(s) => Self::is_type_switch_guard(s),
            None => false,
        };
        let lb = { proof { reveal_strlit("expected '{'"); } self.expect(&Token::LBRACE, "expected '{'") }?;
        let mut list: Vec<Stmt> = Vec::new();
        while matches!(self.tok(), Token::CASE | Token::DEFAULT)
            invariant Self::advanced(*old(self), *self), self.errors@ == old(self).errors@, depth > 0, stmts_ok(list@),
                opt_stmt_ok(s1), opt_stmt_ok(s2), small(p), small(lb),
            decreases self.toks@.len() - self.idx,
        {
            let start = self.idx;
            let c = self.parse_case_clause(type_switch, depth - 1)?;
            proof { lemma_stmts_push(list@, c); }
            list.push(c);
            if self.idx <= start {
                return { proof { reveal_strlit("expected case"); } self.fail("expected case") };
            }
        }
        let rb = { proof { reveal_strlit("expected '}'"); } self.expect(&Token::RBRACE, "expected '}'") }?;
        self.expect_semi()?;
        let body = BlockStmt::new(lb, list, rb);
        assert(block_ok(body));
        if type_switch {
            match s2 {
                Some(assign) => {
                    let r = Stmt::TypeSwitch(Rc::new(TypeSwitchStmt { switch: p, init: s1, assign, body }));
                    assert(stmt_ok(r));
                    Some(r)
                },
                None => { proof { reveal_strlit("expected type switch guard"); } self.fail("expected type switch guard") },
            }
        } else {
            let tag = match s2 {
                Some(s) => Some(self.stmt_to_expr(s)?),
                None => None,
            };
            assert(opt_expr_ok(tag));
            let r = Stmt::Switch(Rc::new(SwitchStmt { switch: p, init: s1, tag, body }));
            assert(stmt_ok(r));
            Some(r)
        }
    }

    fn parse_switch_header(&mut self, depth: usize) -> (r: Option<(Option<Stmt>, Option<Stmt>)>)
        requires old(self).wf(),
        ensures Self::advanced(*old(self), *final(self)), Self::outcome(*old(self), *final(self), r is Some),
            r matches Some((a, b)) ==> opt_stmt_ok(a) && opt_stmt_ok(b),
        decreases depth,
    {
        if depth == 0 {
            return { proof { reveal_strlit("nesting too deep"); } self.fail("nesting too deep") };
        }
        let mut s1: Option<Stmt> = None;
        let mut s2: Option<Stmt> = None;
        assert(opt_stmt_ok(None));
        if !matches!(self.tok(), Token::LBRACE) {
            if !matches!(self.tok(), Token::SEMICOLON(_)) {
                s2 = Some(self.parse_simple_stmt(StmtMode::Basic, depth - 1)?);
                assert(opt_stmt_ok(s2));
            }
            if matches!(self.tok(), Token::SEMICOLON(_)) {
                self.next();
                s1 = s2;
                s2 = None;
                if !matches!(self.tok(), Token::LBRACE) {
                    s2 = Some(self.parse_simple_stmt(StmtMode::Basic, depth - 1)?);
                    assert(opt_stmt_ok(s2));
                }
            }
        }
        Some((s1, s2))
    }

    fn parse_case_clause(&mut self, type_switch: bool, depth: usize) -> (r: Option<Stmt>)
        requires old(self).wf(),
        ensures Self::advanced(*old(self), *final(self)), Self::outcome(*old(self), *final(self), r is Some),
            r matches Some(s) ==> stmt_ok(s),
        decreases depth,
    {
        if depth == 0 {
            return { proof { reveal_strlit("nesting too deep"); } self.fail("nesting too deep") };
        }
        let p = self.pos();
        let list = if matches!(self.tok(), Token::CASE) {
            self.next();
            if type_switch {
                Some(self.parse_type_list(depth - 1)?)
            } else {
                Some(self.parse_expr_list(depth - 1)?)
            }
        } else {
            { proof { reveal_strlit("expected 'default'"); } self.expect(&Token::DEFAULT, "expected 'default'") }?;
            None
        };
        let colon = { proof { reveal_strlit("expected ':'"); } self.expect(&Token::COLON, "expected ':'") }?;
        let body = self.parse_stmt_list(depth - 1)?;
        let r = Stmt::Case(Rc::new(CaseClause { case: p, list, colon, body }));
        assert(stmt_ok(r));
        Some(r)
    }

    fn parse_select(&mut self, depth: usize) -> (r: Option<Stmt>)
        requires old(self).wf(),
        ensures Self::advanced(*old(self), *final(self)), Self::outcome(*old(self), *final(self), r is Some),
            r matches Some(s) ==> stmt_ok(s),
        decreases depth,
    {
        if depth == 0 {
            return { proof { reveal_strlit("nesting too deep"); } self.fail("nesting too deep") };
        }
        let p = { proof { reveal_strlit("expected 'select'"); } self.expect(&Token::SELECT, "expected 'select'") }?;
        let lb = { proof { reveal_strlit("expected '{'"); } self.expect(&Token::LBRACE, "expected '{'") }?;
        let mut list: Vec<Stmt> = Vec::new();
        while matches!(self.tok(), Token::CASE | Token::DEFAULT)
            invariant Self::advanced(*old(self), *self), self.errors@ == old(self).errors@, depth > 0, stmts_ok(list@), small(p), small(lb),
            decreases self.toks@.len() - self.idx,
        {
            let start = self.idx;
            let c = self.parse_comm_clause(depth - 1)?;
            proof { lemma_stmts_push(list@, c); }
            list.push(c);
            if self.idx <= start {
                return { proof { reveal_strlit("expected case"); } self.fail("expected case") };
            }
        }
        let rb = { proof { reveal_strlit("expected '}'"); } self.expect(&Token::RBRACE, "expected '}'") }?;
        self.expect_semi()?;
        let body = BlockStmt::new(lb, list, rb);
        assert(block_ok(body));
        let r = Stmt::Select(Rc::new(SelectStmt { select: p, body }));
        assert(stmt_ok(r));
        Some(r)
    }

    fn parse_comm_clause(&mut self, depth: usize) -> (r: Option<Stmt>)
        requires old(self).wf(),
        ensures Self::advanced(*old(self), *final(self)), Self::outcome(*old(self), *final(self), r is Some),
            r matches Some(s) ==> stmt_ok(s),
        decreases depth,
    {
        if depth == 0 {
            return { proof { reveal_strlit("nesting too deep"); } self.fail("nesting too deep") };
        }
        let p = self.pos();
        let comm = if matches!(self.tok(), Token::CASE) {
            self.next();
            let lhs = self.parse_expr_list(depth - 1)?;
            let op_pos = self.pos();
            if matches!(self.tok(), Token::ARROW) {
                self.next();
                let val = self.parse_rhs(depth - 1)?;
                let chan = lhs[0].duplicate();
                assert(expr_ok(lhs@[0]));
                let r = Stmt::Send(Rc::new(SendStmt { chan, arrow: op_pos, val }));
                assert(stmt_ok(r));
                Some(r)
            } else if matches!(self.tok(), Token::DEFINE | Token::ASSIGN) {
                let tok = self.tok().duplicate();
                self.next();
                let rhs = self.parse_rhs(depth - 1)?;
                let rv = vec![rhs];
                assert(exprs_ok(rv@));
                let r = Stmt::new_assign(lhs, op_pos, tok, rv);
                assert(stmt_ok(r));
                Some(r)
            } else {
                let e = lhs[0].duplicate();
                assert(expr_ok(lhs@[0]));
                let r = Stmt::Expr(Rc::new(e));
                assert(stmt_ok(r));
                Some(r)
            }
        } else {
            { proof { reveal_strlit("expected 'default'"); } self.expect(&Token::DEFAULT, "expected 'default'") }?;
            None
        };
        assert(opt_stmt_ok(comm));
        let colon = { proof { reveal_strlit("expected ':'"); } self.expect(&Token::COLON, "expected ':'") }?;
        let body = self.parse_stmt_list(depth - 1)?;
        let r = Stmt::Comm(Rc::new(CommClause { case: p, comm, colon, body }));
        assert(stmt_ok(r));
        Some(r)
    }

    fn parse_for(&mut self, depth: usize) -> (r: Option<Stmt>)
        requires old(self).wf(),
        ensures Self::advanced(*old(self), *final(self)), Self::outcome(*old(self), *final(self), r is Some),
            r matches Some(s) ==> stmt_ok(s),
        decreases depth,
    {
        if depth == 0 {
            return { proof { reveal_strlit("nesting too deep"); } self.fail("nesting too deep") };
        }
        let p = { proof { reveal_strlit("expected 'for'"); } self.expect(&Token::FOR, "expected 'for'") }?;
        let lev = self.expr_lev;
        self.set_lev(-1);
        let header = self.parse_for_header(depth - 1);
        self.set_lev(lev);
        let (s1, s2, s3, is_range) = header?;
        let body = self.parse_block(depth - 1)?;
        self.expect_semi()?;
        if is_range {
            match s2 {
                Some(Stmt::Assign(a)) => {
                    assert(expr_ok(a.rhs@[0]));
                    let (x, tpos) = match &a.rhs[0] {
                        Expr::Unary(u) => (u.expr.duplicate(), u.op_pos),
                        _ => { return { proof { reveal_strlit("expected range clause"); } self.fail("expected range clause") }; },
                    };
                    let key = if a.lhs.len() >= 1 {
                        assert(expr_ok(a.lhs@[0]));
                        Some(a.lhs[0].duplicate())
                    } else {
                        None
                    };
                    let val = if a.lhs.len() >= 2 {
                        assert(expr_ok(a.lhs@[1]));
                        Some(a.lhs[1].duplicate())
                    } else {
                        None
                    };
                    assert(opt_expr_ok(key) && opt_expr_ok(val));
                    let token = if a.lhs.len() >= 1 { a.token.duplicate() } else { Token::NONE };
                    let _ = tpos;
                    let r = Stmt::Range(Rc::new(RangeStmt {
                        for_pos: p, key, val, token_pos: a.token_pos, token, expr: x, body,
                    }));
                    assert(stmt_ok(r));
                    Some(r)
                },
                _ => { proof { reveal_strlit("expected range clause"); } self.fail("expected range clause") },
            }
        } else {
            let cond = match s2 {
                Some(s) => Some(self.stmt_to_expr(s)?),
                None => None,
            };
            assert(opt_expr_ok(cond));
            let r = Stmt::For(Rc::new(ForStmt { for_pos: p, init: s1, cond, post: s3, body }));
            assert(stmt_ok(r));
            Some(r)
        }
    }

    /// The clauses of a `for` header: init, condition, post, and whether the
    /// condition slot holds a range clause.
    fn parse_for_header(&mut self, depth: usize) -> (r: Option<(Option<Stmt>, Option<Stmt>, Option<Stmt>, bool)>)
        requires old(self).wf(),
        ensures Self::advanced(*old(self), *final(self)), Self::outcome(*old(self), *final(self), r is Some),
            r matches Some((s1, s2, s3, rng)) ==> opt_stmt_ok(s1) && opt_stmt_ok(s3)
                && (rng ==> (s2 matches Some(x) && range_clause_ok(x)))
                && (!rng ==> opt_stmt_ok(s2)),
        decreases depth,
    {
        if depth == 0 {
            return { proof { reveal_strlit("nesting too deep"); } self.fail("nesting too deep") };
        }
        let mut s1: Option<Stmt> = None;
        let mut s2: Option<Stmt> = None;
        let mut s3: Option<Stmt> = None;
        let mut is_range = false;
        assert(opt_stmt_ok(None));
        if !matches!(self.tok(), Token::LBRACE) {
            if !matches!(self.tok(), Token::SEMICOLON(_)) {
                let s = self.parse_simple_stmt(StmtMode::RangeOk, depth - 1)?;
                is_range = match &s {
                    Stmt::Assign(a) => a.rhs.len() == 1 && matches!(&a.rhs[0], Expr::Unary(u) if matches!(u.op, Token::RANGE)),
                    _ => false,
                };
                assert(is_range ==> range_clause_ok(s));
                assert(!is_range ==> stmt_ok(s));
                s2 = Some(s);
            }
            if !is_range && matches!(self.tok(), Token::SEMICOLON(_)) {
                self.next();
                s1 = s2;
                s2 = None;
                if !matches!(self.tok(), Token::SEMICOLON(_)) {
                    s2 = Some(self.parse_simple_stmt(StmtMode::Basic, depth - 1)?);
                    assert(opt_stmt_ok(s2));
                }
                { proof { reveal_strlit("expected ';'"); } self.expect(&Token::SEMICOLON(TokenData::from_bool(true)), "expected ';'") }?;
                if !matches!(self.tok(), Token::LBRACE) {
                    s3 = Some(self.parse_simple_stmt(StmtMode::Basic, depth - 1)?);
                    assert(opt_stmt_ok(s3));
                }
            }
        }
        Some((s1, s2, s3, is_range))
    }

    fn parse_spec(&mut self, keyword: &Token, depth: usize) -> (r: Option<Spec>)
        requires old(self).wf(),
        ensures Self::advanced(*old(self), *final(self)), Self::outcome(*old(self), *final(self), r is Some),
            r matches Some(x) ==> spec_node_ok(x),
        decreases depth,
    {
        if depth == 0 {
            return { proof { reveal_strlit("nesting too deep"); } self.fail("nesting too deep") };
        }
        match keyword {
            Token::IMPORT => {
                let name = if matches!(self.tok(), Token::IDENT(_)) {
                    Some(self.parse_ident()?)
                } else if matches!(self.tok(), Token::PERIOD) {
                    let p = self.pos();
                    self.next();
                    let dot = Ident::with_str(p, ".");
                    proof {
                        reveal_strlit(".");
                    }
                    Some(dot)
                } else {
                    None
                };
                assert(name matches Some(n) ==> ident_ok(n));
                let p = self.pos();
                if !matches!(self.tok(), Token::STRING(_)) {
                    return { proof { reveal_strlit("expected import path"); } self.fail("expected import path") };
                }
                let t = self.tok().duplicate();
                let path = self.lit(p, t)?;
                self.next();
                let end_pos = Some(self.pos());
                self.expect_semi()?;
                let r = Spec::Import(Rc::new(ImportSpec { name, path, end_pos }));
                assert(spec_node_ok(r));
                Some(r)
            },
            Token::TYPE => {
                let name = self.parse_ident()?;
                let assign = self.pos();
                if matches!(self.tok(), Token::ASSIGN) {
                    self.next();
                }
                let typ = self.parse_type(depth - 1)?;
                self.expect_semi()?;
                let r = Spec::Type(Rc::new(TypeSpec { name, assign, typ }));
                assert(spec_node_ok(r));
                Some(r)
            },
            _ => {
                let names = self.parse_ident_list()?;
                let typ = if !matches!(self.tok(), Token::ASSIGN | Token::SEMICOLON(_) | Token::RPAREN) {
                    Some(self.parse_type(depth - 1)?)
                } else {
                    None
                };
                assert(opt_expr_ok(typ));
                let values = if matches!(self.tok(), Token::ASSIGN) {
                    self.next();
                    self.parse_expr_list(depth - 1)?
                } else {
                    Vec::new()
                };
                assert(exprs_ok(values@));
                self.expect_semi()?;
                let r = Spec::Value(Rc::new(ValueSpec { names, typ, values }));
                assert(spec_node_ok(r));
                Some(r)
            },
        }
    }

    /// An import, const, type or var declaration, single or parenthesized.
    fn parse_gen_decl(&mut self, depth: usize) -> (r: Option<Decl>)
        requires old(self).wf(),
        ensures Self::advanced(*old(self), *final(self)), Self::outcome(*old(self), *final(self), r is Some),
            r matches Some(d) ==> d is Gen && decl_ok(d),
        decreases depth,
    {
        if depth == 0 {
            return { proof { reveal_strlit("nesting too deep"); } self.fail("nesting too deep") };
        }
        let p = self.pos();
        let keyword = self.tok().duplicate();
        self.next();
        let mut specs: Vec<Spec> = Vec::new();
        let mut l_paran: Option<Pos> = None;
        let mut r_paren: Option<Pos> = None;
        if matches!(self.tok(), Token::LPAREN) {
            l_paran = Some(self.pos());
            self.next();
            while !matches!(self.tok(), Token::RPAREN | Token::EOF)
                invariant Self::advanced(*old(self), *self), self.errors@ == old(self).errors@, depth > 0,
                    forall|i: int| 0 <= i < specs@.len() ==> spec_node_ok(#[trigger] specs@[i]),
                decreases self.toks@.len() - self.idx,
            {
                let start = self.idx;
                let s = self.parse_spec(&keyword, depth - 1)?;
                proof { lemma_specs_push(specs@, s); }
                specs.push(s);
                if self.idx <= start {
                    return { proof { reveal_strlit("expected declaration"); } self.fail("expected declaration") };
                }
            }
            r_paren = Some({ proof { reveal_strlit("expected ')'"); } self.expect(&Token::RPAREN, "expected ')'") }?);
            self.expect_semi()?;
        } else {
            let s = self.parse_spec(&keyword, depth - 1)?;
            proof { lemma_specs_push(specs@, s); }
            specs.push(s);
        }
        assert(opt_small(l_paran) && opt_small(r_paren));
        let r = Decl::Gen(Rc::new(GenDecl { token_pos: p, token: keyword, l_paran, specs, r_paren }));
        assert(decl_ok(r));
        Some(r)
    }

    fn parse_func_decl(&mut self, depth: usize) -> (r: Option<Decl>)
        requires old(self).wf(),
        ensures Self::advanced(*old(self), *final(self)), Self::outcome(*old(self), *final(self), r is Some),
            r matches Some(d) ==> d is Func && decl_ok(d),
        decreases depth,
    {
        if depth == 0 {
            return { proof { reveal_strlit("nesting too deep"); } self.fail("nesting too deep") };
        }
        let p = { proof { reveal_strlit("expected 'func'"); } self.expect(&Token::FUNC, "expected 'func'") }?;
        let recv = if matches!(self.tok(), Token::LPAREN) {
            Some(self.parse_parameters(depth - 1)?)
        } else {
            None
        };
        let name = self.parse_ident()?;
        let typ = self.parse_signature(Some(p), depth - 1)?;
        let body = if matches!(self.tok(), Token::LBRACE) {
            Some(self.parse_block(depth - 1)?)
        } else {
            None
        };
        self.expect_semi()?;
        let f = FuncDecl { recv, name, typ, body };
        assert(func_decl_spans_ok(f));
        let r = Decl::Func(Rc::new(f));
        assert(decl_ok(r));
        Some(r)
    }

    /// A whole source file: package clause, imports and declarations.
    pub fn parse_file(&mut self) -> (r: Option<File>)
        requires old(self).wf(),
        ensures Self::advanced(*old(self), *final(self)), Self::outcome(*old(self), *final(self), r is Some),
            r matches Some(f) ==> file_ok(f),
    {
        let p = { proof { reveal_strlit("expected 'package'"); } self.expect(&Token::PACKAGE, "expected 'package'") }?;
        let name = self.parse_ident()?;
        self.expect_semi()?;
        let mut decls: Vec<Decl> = Vec::new();
        let mut imports: Vec<ImportSpec> = Vec::new();
        while !self.at_eof()
            invariant Self::advanced(*old(self), *self), self.errors@ == old(self).errors@,
                forall|i: int| 0 <= i < decls@.len() ==> decl_ok(#[trigger] decls@[i]),
            decreases self.toks@.len() - self.idx,
        {
            let start = self.idx;
            let d = if matches!(self.tok(), Token::FUNC) {
                self.parse_func_decl(MAX_NESTING)?
            } else if matches!(self.tok(), Token::IMPORT | Token::CONST | Token::TYPE | Token::VAR) {
                let d = self.parse_gen_decl(MAX_NESTING)?;
                match &d {
                    Decl::Gen(g) => {
                        if matches!(g.token, Token::IMPORT) {
                            let mut k: usize = 0;
                            while k < g.specs.len()
                                invariant k <= g.specs@.len(),
                                decreases g.specs@.len() - k,
                            {
                                match &g.specs[k] {
                                    Spec::Import(s) => { imports.push((**s).clone()); },
                                    _ => {},
                                }
                                k += 1;
                            }
                        }
                    },
                    _ => {},
                }
                d
            } else {
                return { proof { reveal_strlit("expected declaration"); } self.fail("expected declaration") };
            };
            let ghost before = decls@;
            decls.push(d);
            assert forall|i: int| 0 <= i < decls@.len() implies decl_ok(#[trigger] decls@[i]) by {
                if i < before.len() {
                    assert(decls@[i] == before[i]);
                }
            };
            if self.idx <= start {
                return { proof { reveal_strlit("expected declaration"); } self.fail("expected declaration") };
            }
        }
        let r = File { package: p, name, decls, scope: 0, imports, unresolved: Vec::new() };
        assert(file_ok(r));
        Some(r)
    }
}

/// Parses the Go source `src` of the file `name`: the file is added to `fs`
/// (taking the positions after the files already there), its tokens are
/// scanned and parsed, and any syntax error is added to `el`. Gives the
/// syntax tree, or None on a syntax error or a source too large to position.
pub fn parse_file(o: &mut AstObjects, fs: &mut FileSet, el: &mut ErrorList, name: &str, src: &str, trace: bool) -> (r: Option<File>)
    requires old(fs).wf(),
    ensures
        final(fs).wf(),
        r matches Some(f) ==> file_ok(f),
        old(fs).spec_base() + src@.len() <= POS_LIMIT ==> {
            &&& final(fs).spec_files().len() == old(fs).spec_files().len() + 1
            &&& final(fs).spec_files().drop_last() == old(fs).spec_files()
            &&& final(fs).spec_files().last().spec_name() == name@
            &&& final(fs).spec_files().last().spec_base() == old(fs).spec_base()
            &&& final(fs).spec_files().last().spec_size() == src@.len()
            &&& final(fs).spec_base() == old(fs).spec_base() + src@.len() + 1
        },
        old(fs).spec_base() + src@.len() > POS_LIMIT ==> r is None && *final(fs) == *old(fs),
        (r is None) == (final(el).spec_errors().len() > old(el).spec_errors().len()),
        r is Some ==> final(el).spec_errors() == old(el).spec_errors(),
        final(el).spec_errors().len() >= old(el).spec_errors().len(),
{
    let chars = str_to_chars(src);
    let n = chars.len();
    let base = fs.base();
    if base > POS_LIMIT || n > POS_LIMIT - base {
        proof { reveal_strlit("source too large"); }
        el.add(None, String::from_str("source too large"), false, true);
        return None;
    }
    let ghost fs0 = *fs;
    let f = fs.add_file(String::from_str(name), None, n);
    let toks = scan(&chars, base, f);
    proof {
        assert forall|i: int| 0 <= i < toks@.len() implies 0 <= #[trigger] toks@[i].pos <= POS_LIMIT by {};
    }
    let mut p = Parser::new(toks);
    let ghost p0 = p;
    let file = p.parse_file();
    assert(p0.errors@.len() == 0);
    assert(file is Some ==> p.errors@.len() == 0);
    assert(file is None ==> p.errors@.len() > 0);
    let mut k: usize = 0;
    while k < p.errors.len()
        invariant
            fs.wf(),
            k <= p.errors@.len(),
            forall|i: int| 0 <= i < p.errors@.len() ==> !is_continuation(#[trigger] p.errors@[i].1@),
            el.spec_errors().len() == old(el).spec_errors().len() + k,
            k == 0 ==> el.spec_errors() == old(el).spec_errors(),
        decreases p.errors@.len() - k,
    {
        let (pos, msg) = (p.errors[k].0, p.errors[k].1.clone());
        assert(!is_continuation(p.errors@[k as int].1@));
        let fp = fs.position(pos);
        if !(msg.as_str().unicode_len() > 0 && msg.as_str().get_char(0) == '\t') {
            el.add(fp, msg, false, true);
        }
        k += 1;
    }
    file
}

} // verus!
