//! Source spans of syntax tree nodes: where each node starts (`pos`) and the
//! position just after it (`end`). A tree whose positions and name lengths
//! respect `POS_LIMIT` (`*_ok` below) has spans that never overflow, and the
//! parser only builds such trees.
use vstd::prelude::*;
use vstd::string::*;
use crate::position::Pos;
use crate::token::{token_text, token_literal, token_data_ok};
use crate::ast::{
    POS_LIMIT, small, Ident, BasicLit, Expr, Stmt, Spec, Decl, File, Field, FieldList, FuncType,
    BlockStmt, FuncDecl, AssignStmt,
};

verus! {

/// An identifier whose position and byte length respect the limit.
pub open spec fn ident_ok(i: Ident) -> bool {
    small(i.pos) && i.name@.len() <= POS_LIMIT
}

/// A basic literal whose position and text respect the limit.
pub open spec fn lit_ok(l: BasicLit) -> bool {
    &&& small(l.pos)
    &&& token_data_ok(l.token)
    &&& token_literal(l.token).len() <= POS_LIMIT
}

pub open spec fn opt_small(p: Option<Pos>) -> bool {
    p matches Some(x) ==> small(x)
}

pub open spec fn opt_expr_ok(e: Option<Expr>) -> bool
    decreases e,
{
    match e {
        Some(x) => expr_ok(x),
        None => true,
    }
}

pub open spec fn exprs_ok(v: Seq<Expr>) -> bool
    decreases v,
{
    forall|i: int| 0 <= i < v.len() ==> expr_ok(#[trigger] v[i])
}

pub open spec fn idents_ok(v: Seq<Ident>) -> bool {
    forall|i: int| 0 <= i < v.len() ==> ident_ok(#[trigger] v[i])
}

pub open spec fn field_ok(f: Field) -> bool
    decreases f,
{
    &&& idents_ok(f.names@)
    &&& expr_ok(f.typ)
    &&& opt_expr_ok(f.tag)
}

/// A field list whose spans are defined: without an opening (or closing)
/// position it has a first (or last) field.
pub open spec fn field_list_ok(l: FieldList) -> bool
    decreases l,
{
    &&& opt_small(l.opening)
    &&& opt_small(l.closing)
    &&& (l.opening is None || l.closing is None ==> l.list@.len() > 0)
    &&& forall|i: int| 0 <= i < l.list@.len() ==> field_ok(#[trigger] l.list@[i])
}

pub open spec fn func_type_ok(t: FuncType) -> bool
    decreases t,
{
    &&& opt_small(t.func)
    &&& field_list_ok(t.params)
    &&& (t.results matches Some(r) ==> field_list_ok(r))
}

pub open spec fn block_ok(b: BlockStmt) -> bool
    decreases b,
{
    &&& small(b.l_brace)
    &&& small(b.r_brace)
    &&& stmts_ok(b.list@)
}

pub open spec fn stmts_ok(v: Seq<Stmt>) -> bool
    decreases v,
{
    forall|i: int| 0 <= i < v.len() ==> stmt_ok(#[trigger] v[i])
}

pub open spec fn opt_stmt_ok(s: Option<Stmt>) -> bool
    decreases s,
{
    match s {
        Some(x) => stmt_ok(x),
        None => true,
    }
}

/// An expression whose positions and lengths respect the limit throughout.
pub open spec fn expr_ok(e: Expr) -> bool
    decreases e,
{
    match e {
        Expr::Bad(b) => small(b.from) && small(b.to),
        Expr::Ident(i) => ident_ok(*i),
        Expr::Ellipsis(x) => small(x.pos) && opt_expr_ok(x.elt),
        Expr::BasicLit(l) => lit_ok(*l),
        Expr::FuncLit(f) => func_type_ok(f.typ) && small(f.body.l_brace) && small(f.body.r_brace),
        Expr::CompositeLit(c) => opt_expr_ok(c.typ) && small(c.l_brace) && small(c.r_brace) && exprs_ok(c.elts@),
        Expr::Paren(p) => small(p.l_paren) && small(p.r_paren) && expr_ok(p.expr),
        Expr::Selector(s) => expr_ok(s.expr) && ident_ok(s.sel),
        Expr::Index(x) => expr_ok(x.expr) && expr_ok(x.index) && small(x.l_brack) && small(x.r_brack),
        Expr::Slice(x) => expr_ok(x.expr) && opt_expr_ok(x.low) && opt_expr_ok(x.high) && opt_expr_ok(x.max)
            && small(x.l_brack) && small(x.r_brack),
        Expr::TypeAssert(x) => expr_ok(x.expr) && opt_expr_ok(x.typ) && small(x.l_paren) && small(x.r_paren),
        Expr::Call(c) => expr_ok(c.func) && exprs_ok(c.args@) && small(c.l_paren) && small(c.r_paren)
            && opt_small(c.ellipsis),
        Expr::Star(s) => small(s.star) && expr_ok(s.expr),
        Expr::Unary(u) => small(u.op_pos) && expr_ok(u.expr),
        Expr::Binary(b) => expr_ok(b.expr_a) && expr_ok(b.expr_b) && small(b.op_pos),
        Expr::KeyValue(k) => expr_ok(k.key) && expr_ok(k.val) && small(k.colon),
        Expr::Array(a) => small(a.l_brack) && opt_expr_ok(a.len) && expr_ok(a.elt),
        Expr::Struct(s) => small(s.struct_pos) && field_list_ok(s.fields),
        Expr::Func(f) => func_type_ok(*f),
        Expr::Interface(i) => small(i.interface) && field_list_ok(i.methods),
        Expr::MapType(m) => small(m.map) && expr_ok(m.key) && expr_ok(m.val),
        Expr::Chan(c) => small(c.begin) && small(c.arrow) && expr_ok(c.val),
    }
}

/// A statement whose positions and lengths respect the limit throughout,
/// and whose assignments have both sides.
pub open spec fn stmt_ok(s: Stmt) -> bool
    decreases s,
{
    match s {
        Stmt::Bad(b) => small(b.from) && small(b.to),
        Stmt::Decl(d) => decl_ok(*d),
        Stmt::Empty(e) => small(e.semi),
        Stmt::Labeled(l) => ident_ok(l.label) && small(l.colon) && stmt_ok(l.stmt),
        Stmt::Expr(e) => expr_ok(*e),
        Stmt::Send(x) => expr_ok(x.chan) && expr_ok(x.val) && small(x.arrow),
        Stmt::IncDec(x) => expr_ok(x.expr) && small(x.token_pos),
        Stmt::Assign(a) => a.lhs@.len() > 0 && a.rhs@.len() > 0 && exprs_ok(a.lhs@) && exprs_ok(a.rhs@)
            && small(a.token_pos),
        Stmt::Go(g) => small(g.go) && expr_ok(g.call),
        Stmt::Defer(d) => small(d.defer) && expr_ok(d.call),
        Stmt::Return(r) => small(r.ret) && exprs_ok(r.results@),
        Stmt::Branch(b) => small(b.token_pos) && token_text(b.token).len() <= POS_LIMIT
            && (b.label matches Some(l) ==> ident_ok(l)),
        Stmt::Block(b) => block_ok(*b),
        Stmt::If(i) => small(i.if_pos) && opt_stmt_ok(i.init) && expr_ok(i.cond) && block_ok(i.body)
            && opt_stmt_ok(i.els),
        Stmt::Case(c) => small(c.case) && small(c.colon) && stmts_ok(c.body@)
            && (c.list matches Some(l) ==> exprs_ok(l@)),
        Stmt::Switch(w) => small(w.switch) && opt_stmt_ok(w.init) && opt_expr_ok(w.tag) && block_ok(w.body),
        Stmt::TypeSwitch(w) => small(w.switch) && opt_stmt_ok(w.init) && stmt_ok(w.assign) && block_ok(w.body),
        Stmt::Comm(c) => small(c.case) && small(c.colon) && opt_stmt_ok(c.comm) && stmts_ok(c.body@),
        Stmt::Select(x) => small(x.select) && block_ok(x.body),
        Stmt::For(f) => small(f.for_pos) && opt_stmt_ok(f.init) && opt_expr_ok(f.cond) && opt_stmt_ok(f.post)
            && block_ok(f.body),
        Stmt::Range(r) => small(r.for_pos) && small(r.token_pos) && opt_expr_ok(r.key) && opt_expr_ok(r.val)
            && expr_ok(r.expr) && block_ok(r.body),
    }
}

/// A declaration spec whose spans are defined: a value spec names something.
pub open spec fn spec_node_ok(s: Spec) -> bool
    decreases s,
{
    match s {
        Spec::Import(i) => (i.name matches Some(n) ==> ident_ok(n)) && lit_ok(i.path) && opt_small(i.end_pos),
        Spec::Value(v) => v.names@.len() > 0 && idents_ok(v.names@) && opt_expr_ok(v.typ) && exprs_ok(v.values@),
        Spec::Type(t) => ident_ok(t.name) && small(t.assign) && expr_ok(t.typ),
    }
}

pub open spec fn func_decl_spans_ok(f: FuncDecl) -> bool
    decreases f,
{
    &&& (f.recv matches Some(r) ==> field_list_ok(r))
    &&& ident_ok(f.name)
    &&& func_type_ok(f.typ)
    &&& (f.body matches Some(b) ==> block_ok(b))
}

/// A declaration whose spans are defined: an unparenthesized declaration
/// has a spec.
pub open spec fn decl_ok(d: Decl) -> bool
    decreases d,
{
    match d {
        Decl::Bad(b) => small(b.from) && small(b.to),
        Decl::Gen(g) => small(g.token_pos) && opt_small(g.l_paran) && opt_small(g.r_paren)
            && (g.r_paren is None ==> g.specs@.len() > 0)
            && forall|i: int| 0 <= i < g.specs@.len() ==> spec_node_ok(#[trigger] g.specs@[i]),
        Decl::Func(f) => func_decl_spans_ok(*f),
    }
}

/// A file whose declarations all have defined spans.
pub open spec fn file_ok(f: File) -> bool {
    &&& small(f.package)
    &&& ident_ok(f.name)
    &&& forall|i: int| 0 <= i < f.decls@.len() ==> decl_ok(#[trigger] f.decls@[i])
}


/// Where an expression starts.
pub open spec fn expr_pos(e: Expr) -> Pos
    decreases e,
{
    match e {
        Expr::Bad(b) => b.from,
        Expr::Ident(i) => i.pos,
        Expr::Ellipsis(x) => x.pos,
        Expr::BasicLit(l) => l.pos,
        Expr::FuncLit(f) => func_type_pos(f.typ),
        Expr::CompositeLit(c) => match c.typ {
            Some(t) => expr_pos(t),
            None => c.l_brace,
        },
        Expr::Paren(p) => p.l_paren,
        Expr::Selector(s) => expr_pos(s.expr),
        Expr::Index(x) => expr_pos(x.expr),
        Expr::Slice(x) => expr_pos(x.expr),
        Expr::TypeAssert(x) => expr_pos(x.expr),
        Expr::Call(c) => expr_pos(c.func),
        Expr::Star(s) => s.star,
        Expr::Unary(u) => u.op_pos,
        Expr::Binary(b) => expr_pos(b.expr_a),
        Expr::KeyValue(k) => expr_pos(k.key),
        Expr::Array(a) => a.l_brack,
        Expr::Struct(s) => s.struct_pos,
        Expr::Func(f) => func_type_pos(*f),
        Expr::Interface(i) => i.interface,
        Expr::MapType(m) => m.map,
        Expr::Chan(c) => c.begin,
    }
}

/// Where a field starts: its first name, or its type.
pub open spec fn field_pos(f: Field) -> Pos
    decreases f,
{
    if f.names@.len() == 0 {
        expr_pos(f.typ)
    } else {
        f.names@[0].pos
    }
}

/// Where a field list starts: its opening, or its first field.
pub open spec fn field_list_pos(l: FieldList) -> Pos
    decreases l,
{
    match l.opening {
        Some(o) => o,
        None => if l.list@.len() > 0 { field_pos(l.list@[0]) } else { 0 },
    }
}

/// Where a function type starts: its `func` keyword, or its parameters.
pub open spec fn func_type_pos(t: FuncType) -> Pos
    decreases t,
{
    match t.func {
        Some(p) => p,
        None => field_list_pos(t.params),
    }
}

/// The position just after an identifier (its length counted in bytes).
pub open spec fn ident_end(i: Ident) -> int {
    i.pos + i.name@.len()
}

/// The position just after an expression.
pub open spec fn expr_end(e: Expr) -> int
    decreases e,
{
    match e {
        Expr::Bad(b) => b.to as int,
        Expr::Ident(i) => ident_end(*i),
        Expr::Ellipsis(x) => match x.elt {
            Some(t) => expr_end(t),
            None => x.pos + 3,
        },
        Expr::BasicLit(l) => l.pos + token_literal(l.token).len(),
        Expr::FuncLit(f) => f.body.r_brace + 1,
        Expr::CompositeLit(c) => c.r_brace + 1,
        Expr::Paren(p) => p.r_paren + 1,
        Expr::Selector(s) => ident_end(s.sel),
        Expr::Index(x) => x.r_brack + 1,
        Expr::Slice(x) => x.r_brack + 1,
        Expr::TypeAssert(x) => x.r_paren + 1,
        Expr::Call(c) => c.r_paren + 1,
        Expr::Star(s) => expr_end(s.expr),
        Expr::Unary(u) => expr_end(u.expr),
        Expr::Binary(b) => expr_end(b.expr_b),
        Expr::KeyValue(k) => expr_end(k.val),
        Expr::Array(a) => expr_end(a.elt),
        Expr::Struct(s) => field_list_end(s.fields) as int,
        Expr::Func(f) => func_type_end(*f) as int,
        Expr::Interface(i) => field_list_end(i.methods) as int,
        Expr::MapType(m) => expr_end(m.val),
        Expr::Chan(c) => expr_end(c.val),
    }
}

/// The position just after a field: after its tag, or its type.
pub open spec fn field_end(f: Field) -> int
    decreases f,
{
    match f.tag {
        Some(t) => expr_end(t),
        None => expr_end(f.typ),
    }
}

/// Where a field list ends: its closing, or else where its last field starts.
pub open spec fn field_list_end(l: FieldList) -> Pos
    decreases l,
{
    match l.closing {
        Some(c) => c,
        None => if l.list@.len() > 0 { field_pos(l.list@[l.list@.len() - 1]) } else { 0 },
    }
}

/// Where a function type ends: the end of its results, or of its parameters.
pub open spec fn func_type_end(t: FuncType) -> Pos
    decreases t,
{
    match t.results {
        Some(r) => field_list_end(r),
        None => field_list_end(t.params),
    }
}

/// Where a statement starts.
pub open spec fn stmt_pos(s: Stmt) -> Pos
    decreases s,
{
    match s {
        Stmt::Bad(b) => b.from,
        Stmt::Decl(d) => decl_pos(*d),
        Stmt::Empty(e) => e.semi,
        Stmt::Labeled(l) => l.label.pos,
        Stmt::Expr(e) => expr_pos(*e),
        Stmt::Send(x) => expr_pos(x.chan),
        Stmt::IncDec(x) => expr_pos(x.expr),
        Stmt::Assign(a) => if a.lhs@.len() > 0 { expr_pos(a.lhs@[0]) } else { 0 },
        Stmt::Go(g) => g.go,
        Stmt::Defer(d) => d.defer,
        Stmt::Return(r) => r.ret,
        Stmt::Branch(b) => b.token_pos,
        Stmt::Block(b) => b.l_brace,
        Stmt::If(i) => i.if_pos,
        Stmt::Case(c) => c.case,
        Stmt::Switch(w) => w.switch,
        Stmt::TypeSwitch(w) => w.switch,
        Stmt::Comm(c) => c.case,
        Stmt::Select(x) => x.select,
        Stmt::For(f) => f.for_pos,
        Stmt::Range(r) => r.for_pos,
    }
}

/// The position just after a statement.
pub open spec fn stmt_end(s: Stmt) -> int
    decreases s,
{
    match s {
        Stmt::Bad(b) => b.to as int,
        Stmt::Decl(d) => decl_end(*d),
        Stmt::Empty(e) => if e.implicit { e.semi as int } else { e.semi + 1 },
        Stmt::Labeled(l) => stmt_end(l.stmt),
        Stmt::Expr(e) => expr_end(*e),
        Stmt::Send(x) => expr_end(x.val),
        Stmt::IncDec(x) => x.token_pos + 2,
        Stmt::Assign(a) => if a.rhs@.len() > 0 { expr_end(a.rhs@[a.rhs@.len() - 1]) } else { 0 },
        Stmt::Go(g) => expr_end(g.call),
        Stmt::Defer(d) => expr_end(d.call),
        Stmt::Return(r) => if r.results@.len() > 0 { expr_end(r.results@[r.results@.len() - 1]) } else { r.ret + 6 },
        Stmt::Branch(b) => match b.label {
            Some(l) => ident_end(l),
            None => b.token_pos + token_text(b.token).len(),
        },
        Stmt::Block(b) => b.r_brace + 1,
        Stmt::If(i) => match i.els {
            Some(e) => stmt_end(e),
            None => i.body.r_brace + 1,
        },
        Stmt::Case(c) => if c.body@.len() > 0 { stmt_end(c.body@[c.body@.len() - 1]) } else { c.colon + 1 },
        Stmt::Switch(w) => w.body.r_brace + 1,
        Stmt::TypeSwitch(w) => w.body.r_brace + 1,
        Stmt::Comm(c) => if c.body@.len() > 0 { stmt_end(c.body@[c.body@.len() - 1]) } else { c.colon + 1 },
        Stmt::Select(x) => x.body.r_brace + 1,
        Stmt::For(f) => f.body.r_brace + 1,
        Stmt::Range(r) => r.body.r_brace + 1,
    }
}

/// Where a declaration spec starts.
pub open spec fn spec_node_pos(s: Spec) -> Pos {
    match s {
        Spec::Import(i) => match i.name {
            Some(n) => n.pos,
            None => i.path.pos,
        },
        Spec::Value(v) => if v.names@.len() > 0 { v.names@[0].pos } else { 0 },
        Spec::Type(t) => t.name.pos,
    }
}

/// The position just after a declaration spec.
pub open spec fn spec_node_end(s: Spec) -> int
    decreases s,
{
    match s {
        Spec::Import(i) => match i.end_pos {
            Some(p) => p as int,
            None => i.path.pos as int,
        },
        Spec::Value(v) => if v.values@.len() > 0 {
            expr_end(v.values@[v.values@.len() - 1])
        } else {
            match v.typ {
                Some(t) => expr_end(t),
                None => if v.names@.len() > 0 { ident_end(v.names@[v.names@.len() - 1]) } else { 0 },
            }
        },
        Spec::Type(t) => expr_end(t.typ),
    }
}

/// Where a declaration starts.
pub open spec fn decl_pos(d: Decl) -> Pos
    decreases d,
{
    match d {
        Decl::Bad(b) => b.from,
        Decl::Gen(g) => g.token_pos,
        Decl::Func(f) => func_type_pos(f.typ),
    }
}

/// The position just after a declaration.
pub open spec fn decl_end(d: Decl) -> int
    decreases d,
{
    match d {
        Decl::Bad(b) => b.to as int,
        Decl::Gen(g) => match g.r_paren {
            Some(p) => p + 1,
            None => if g.specs@.len() > 0 { spec_node_end(g.specs@[0]) } else { 0 },
        },
        Decl::Func(f) => match f.body {
            Some(b) => b.r_brace + 1,
            None => func_type_end(f.typ) as int,
        },
    }
}


impl Field {
    pub fn pos(&self) -> (r: Pos)
        requires field_ok(*self),
        ensures r == field_pos(*self), small(r),
    {
        if self.names.len() == 0 {
            self.typ.pos()
        } else {
            self.names[0].pos
        }
    }
}

impl FieldList {
    pub fn pos(&self) -> (r: Pos)
        requires field_list_ok(*self),
        ensures r == field_list_pos(*self), small(r),
    {
        match self.opening {
            Some(o) => o,
            None => self.list[0].pos(),
        }
    }
}

impl FuncType {
    pub fn pos(&self) -> (r: Pos)
        requires func_type_ok(*self),
        ensures r == func_type_pos(*self), small(r),
    {
        match self.func {
            Some(p) => p,
            None => self.params.pos(),
        }
    }
}

impl FuncDecl {
    /// Where the declaration starts: its `func` keyword (or its parameters).
    pub fn pos(&self) -> (r: Pos)
        requires func_type_ok(self.typ),
        ensures r == func_type_pos(self.typ), small(r),
    {
        self.typ.pos()
    }
}

impl Expr {
    pub fn pos(&self) -> (r: Pos)
        requires expr_ok(*self),
        ensures r == expr_pos(*self), small(r),
        decreases *self,
    {
        proof { reveal_with_fuel(expr_ok, 2); }
        match self {
            Expr::Bad(b) => b.from,
            Expr::Ident(i) => i.pos,
            Expr::Ellipsis(x) => x.pos,
            Expr::BasicLit(l) => l.pos,
            Expr::FuncLit(f) => {
                assert(expr_pos(*self) == func_type_pos(f.typ));
                assert(func_type_ok(f.typ));
                match f.typ.func {
                Some(p) => p,
                None => match f.typ.params.opening {
                    Some(o) => o,
                    None => {
                        assert(func_type_ok(f.typ));
                        assert(field_list_ok(f.typ.params));
                        let fld = &f.typ.params.list[0];
                        assert(field_ok(*fld));
                        assert(func_type_pos(f.typ) == field_list_pos(f.typ.params));
                        assert(field_list_pos(f.typ.params) == field_pos(*fld));
                        if fld.names.len() == 0 {
                            assert(field_pos(*fld) == expr_pos(fld.typ));
                            fld.typ.pos()
                        } else {
                            assert(ident_ok(fld.names@[0]));
                            assert(field_pos(*fld) == fld.names@[0].pos);
                            fld.names[0].pos
                        }
                    },
                },
                }
            },
            Expr::CompositeLit(c) => match &c.typ {
                Some(t) => t.pos(),
                None => c.l_brace,
            },
            Expr::Paren(p) => p.l_paren,
            Expr::Selector(x) => x.expr.pos(),
            Expr::Index(x) => x.expr.pos(),
            Expr::Slice(x) => x.expr.pos(),
            Expr::TypeAssert(x) => x.expr.pos(),
            Expr::Call(c) => c.func.pos(),
            Expr::Star(x) => x.star,
            Expr::Unary(u) => u.op_pos,
            Expr::Binary(b) => b.expr_a.pos(),
            Expr::KeyValue(k) => k.key.pos(),
            Expr::Array(a) => a.l_brack,
            Expr::Struct(x) => x.struct_pos,
            Expr::Func(f) => {
                assert(expr_pos(*self) == func_type_pos(**f));
                assert(func_type_ok(**f));
                match f.func {
                Some(p) => p,
                None => match f.params.opening {
                    Some(o) => o,
                    None => {
                        assert(func_type_ok(**f));
                        assert(field_list_ok(f.params));
                        let fld = &f.params.list[0];
                        assert(field_ok(*fld));
                        assert(func_type_pos(**f) == field_list_pos(f.params));
                        assert(field_list_pos(f.params) == field_pos(*fld));
                        if fld.names.len() == 0 {
                            assert(field_pos(*fld) == expr_pos(fld.typ));
                            fld.typ.pos()
                        } else {
                            assert(ident_ok(fld.names@[0]));
                            assert(field_pos(*fld) == fld.names@[0].pos);
                            fld.names[0].pos
                        }
                    },
                },
                }
            },
            Expr::Interface(i) => i.interface,
            Expr::MapType(m) => m.map,
            Expr::Chan(c) => c.begin,
        }
    }
}


impl AssignStmt {
    /// Where the assignment starts: its first left-hand expression.
    pub fn pos(&self) -> (r: Pos)
        requires self.lhs@.len() > 0, exprs_ok(self.lhs@),
        ensures r == expr_pos(self.lhs@[0]), small(r),
    {
        self.lhs[0].pos()
    }
}

impl Stmt {
    pub fn pos(&self) -> (r: Pos)
        requires stmt_ok(*self),
        ensures r == stmt_pos(*self), small(r),
        decreases *self,
    {
        proof { reveal_with_fuel(stmt_ok, 2); }
        match self {
            Stmt::Bad(b) => b.from,
            Stmt::Decl(d) => d.pos(),
            Stmt::Empty(e) => e.semi,
            Stmt::Labeled(l) => l.pos(),
            Stmt::Expr(e) => e.pos(),
            Stmt::Send(x) => x.chan.pos(),
            Stmt::IncDec(x) => x.expr.pos(),
            Stmt::Assign(a) => a.pos(),
            Stmt::Go(g) => g.go,
            Stmt::Defer(d) => d.defer,
            Stmt::Return(r) => r.ret,
            Stmt::Branch(b) => b.token_pos,
            Stmt::Block(b) => b.pos(),
            Stmt::If(i) => i.if_pos,
            Stmt::Case(c) => c.case,
            Stmt::Switch(w) => w.switch,
            Stmt::TypeSwitch(w) => w.switch,
            Stmt::Comm(c) => c.case,
            Stmt::Select(x) => x.select,
            Stmt::For(f) => f.for_pos,
            Stmt::Range(r) => r.for_pos,
        }
    }
}

impl Spec {
    pub fn pos(&self) -> (r: Pos)
        requires spec_node_ok(*self),
        ensures r == spec_node_pos(*self), small(r),
    {
        match self {
            Spec::Import(i) => match &i.name {
                Some(n) => n.pos,
                None => i.path.pos,
            },
            Spec::Value(v) => v.names[0].pos,
            Spec::Type(t) => t.name.pos,
        }
    }
}

impl Decl {
    pub fn pos(&self) -> (r: Pos)
        requires decl_ok(*self),
        ensures r == decl_pos(*self), small(r),
        decreases *self,
    {
        match self {
            Decl::Bad(b) => b.from,
            Decl::Gen(g) => g.token_pos,
            Decl::Func(f) => f.pos(),
        }
    }
}

impl File {
    pub fn pos(&self) -> (r: Pos)
        ensures r == self.package,
    {
        self.package
    }
}


pub proof fn lemma_exprs_push(v: Seq<Expr>, e: Expr)
    requires exprs_ok(v), expr_ok(e),
    ensures exprs_ok(v.push(e)),
{
    assert forall|i: int| 0 <= i < v.push(e).len() implies expr_ok(#[trigger] v.push(e)[i]) by {
        if i < v.len() {
            assert(v.push(e)[i] == v[i]);
        }
    };
}

pub proof fn lemma_idents_push(v: Seq<Ident>, e: Ident)
    requires idents_ok(v), ident_ok(e),
    ensures idents_ok(v.push(e)),
{
    assert forall|i: int| 0 <= i < v.push(e).len() implies ident_ok(#[trigger] v.push(e)[i]) by {
        if i < v.len() {
            assert(v.push(e)[i] == v[i]);
        }
    };
}

pub proof fn lemma_stmts_push(v: Seq<Stmt>, e: Stmt)
    requires stmts_ok(v), stmt_ok(e),
    ensures stmts_ok(v.push(e)),
{
    assert forall|i: int| 0 <= i < v.push(e).len() implies stmt_ok(#[trigger] v.push(e)[i]) by {
        if i < v.len() {
            assert(v.push(e)[i] == v[i]);
        }
    };
}

/// Every field of a list has defined spans.
pub open spec fn fields_ok(v: Seq<Field>) -> bool {
    forall|i: int| 0 <= i < v.len() ==> field_ok(#[trigger] v[i])
}

pub proof fn lemma_fields_push(v: Seq<Field>, e: Field)
    requires fields_ok(v), field_ok(e),
    ensures fields_ok(v.push(e)),
{
    assert forall|i: int| 0 <= i < v.push(e).len() implies field_ok(#[trigger] v.push(e)[i]) by {
        if i < v.len() {
            assert(v.push(e)[i] == v[i]);
        }
    };
}

pub proof fn lemma_specs_push(v: Seq<Spec>, e: Spec)
    requires forall|i: int| 0 <= i < v.len() ==> spec_node_ok(#[trigger] v[i]), spec_node_ok(e),
    ensures forall|i: int| 0 <= i < v.push(e).len() ==> spec_node_ok(#[trigger] v.push(e)[i]),
{
    assert forall|i: int| 0 <= i < v.push(e).len() implies spec_node_ok(#[trigger] v.push(e)[i]) by {
        if i < v.len() {
            assert(v.push(e)[i] == v[i]);
        }
    };
}

} // verus!
