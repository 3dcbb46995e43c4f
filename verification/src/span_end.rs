//! Where syntax tree nodes end: the position just after each node.
use vstd::prelude::*;
use crate::position::Pos;
use crate::token::{token_text, token_literal};
use crate::ast::{POS_LIMIT, small, Ident, BasicLit, Expr, Stmt, Spec, Decl, File, Field, FieldList, FuncType};
use crate::span::{ident_ok, lit_ok, field_ok, field_list_ok, func_type_ok, expr_ok, stmt_ok, spec_node_ok, decl_ok, file_ok, ident_end, expr_end, field_end, field_list_end, func_type_end, stmt_end, spec_node_end, decl_end};

verus! {

impl Ident {
    /// The position just after the identifier.
    pub fn end(&self) -> (r: Pos)
        requires ident_ok(*self),
        ensures r == ident_end(*self), r <= 2 * POS_LIMIT,
    {
        self.pos + self.name.as_str().unicode_len()
    }
}

impl BasicLit {
    /// The position just after the literal.
    pub fn end(&self) -> (r: Pos)
        requires lit_ok(*self),
        ensures r == self.pos + token_literal(self.token).len(), r <= 2 * POS_LIMIT,
    {
        let lit = self.token.get_literal();
        self.pos + lit.unicode_len()
    }
}

impl Field {
    pub fn end(&self) -> (r: Pos)
        requires field_ok(*self),
        ensures r == field_end(*self), r <= 2 * POS_LIMIT,
    {
        match &self.tag {
            Some(t) => t.end(),
            None => self.typ.end(),
        }
    }
}

impl FieldList {
    /// The closing position, or else where the last field starts.
    pub fn end(&self) -> (r: Pos)
        requires field_list_ok(*self),
        ensures r == field_list_end(*self), small(r),
    {
        match self.closing {
            Some(c) => c,
            None => self.list[self.list.len() - 1].pos(),
        }
    }
}

impl FuncType {
    pub fn end(&self) -> (r: Pos)
        requires func_type_ok(*self),
        ensures r == func_type_end(*self), small(r),
    {
        match &self.results {
            Some(res) => res.end(),
            None => self.params.end(),
        }
    }
}

impl Expr {
    pub fn end(&self) -> (r: Pos)
        requires expr_ok(*self),
        ensures r == expr_end(*self), r <= 2 * POS_LIMIT,
        decreases *self,
    {
        proof { reveal_with_fuel(expr_ok, 2); }
        match self {
            Expr::Bad(b) => b.to,
            Expr::Ident(i) => i.end(),
            Expr::Ellipsis(x) => match &x.elt {
                Some(t) => t.end(),
                None => x.pos + 3,
            },
            Expr::BasicLit(l) => l.end(),
            Expr::FuncLit(f) => f.body.end(),
            Expr::CompositeLit(c) => c.r_brace + 1,
            Expr::Paren(p) => p.r_paren + 1,
            Expr::Selector(x) => x.sel.end(),
            Expr::Index(x) => x.r_brack + 1,
            Expr::Slice(x) => x.r_brack + 1,
            Expr::TypeAssert(x) => x.r_paren + 1,
            Expr::Call(c) => c.r_paren + 1,
            Expr::Star(x) => x.expr.end(),
            Expr::Unary(u) => u.expr.end(),
            Expr::Binary(b) => b.expr_b.end(),
            Expr::KeyValue(k) => k.val.end(),
            Expr::Array(a) => a.elt.end(),
            Expr::Struct(x) => x.fields.end(),
            Expr::Func(f) => f.end(),
            Expr::Interface(i) => i.methods.end(),
            Expr::MapType(m) => m.val.end(),
            Expr::Chan(c) => c.val.end(),
        }
    }
}

impl Stmt {
    pub fn end(&self) -> (r: Pos)
        requires stmt_ok(*self),
        ensures r == stmt_end(*self), r <= 2 * POS_LIMIT,
        decreases *self,
    {
        proof { reveal_with_fuel(stmt_ok, 2); }
        match self {
            Stmt::Bad(b) => b.to,
            Stmt::Decl(d) => d.end(),
            Stmt::Empty(e) => {
                if e.implicit {
                    e.semi
                } else {
                    e.semi + 1
                }
            },
            Stmt::Labeled(l) => l.stmt.end(),
            Stmt::Expr(e) => e.end(),
            Stmt::Send(x) => x.val.end(),
            Stmt::IncDec(x) => x.token_pos + 2,
            Stmt::Assign(a) => a.rhs[a.rhs.len() - 1].end(),
            Stmt::Go(g) => g.call.end(),
            Stmt::Defer(d) => d.call.end(),
            Stmt::Return(r) => {
                let n = r.results.len();
                if n > 0 {
                    r.results[n - 1].end()
                } else {
                    r.ret + 6
                }
            },
            Stmt::Branch(b) => match &b.label {
                Some(l) => l.end(),
                None => {
                    let t = b.token.text();
                    b.token_pos + t.unicode_len()
                },
            },
            Stmt::Block(b) => b.end(),
            Stmt::If(i) => match &i.els {
                Some(e) => e.end(),
                None => i.body.end(),
            },
            Stmt::Case(c) => {
                let n = c.body.len();
                if n > 0 {
                    c.body[n - 1].end()
                } else {
                    c.colon + 1
                }
            },
            Stmt::Switch(w) => w.body.end(),
            Stmt::TypeSwitch(w) => w.body.end(),
            Stmt::Comm(c) => {
                let n = c.body.len();
                if n > 0 {
                    c.body[n - 1].end()
                } else {
                    c.colon + 1
                }
            },
            Stmt::Select(x) => x.body.end(),
            Stmt::For(f) => f.body.end(),
            Stmt::Range(r) => r.body.end(),
        }
    }
}

impl Spec {
    pub fn end(&self) -> (r: Pos)
        requires spec_node_ok(*self),
        ensures r == spec_node_end(*self), r <= 2 * POS_LIMIT,
    {
        match self {
            Spec::Import(i) => match i.end_pos {
                Some(p) => p,
                None => i.path.pos,
            },
            Spec::Value(v) => {
                let n = v.values.len();
                if n > 0 {
                    v.values[n - 1].end()
                } else {
                    match &v.typ {
                        Some(t) => t.end(),
                        None => v.names[v.names.len() - 1].end(),
                    }
                }
            },
            Spec::Type(t) => t.typ.end(),
        }
    }
}

impl Decl {
    pub fn end(&self) -> (r: Pos)
        requires decl_ok(*self),
        ensures r == decl_end(*self), r <= 2 * POS_LIMIT,
        decreases *self,
    {
        match self {
            Decl::Bad(b) => b.to,
            Decl::Gen(g) => match g.r_paren {
                Some(p) => p + 1,
                None => g.specs[0].end(),
            },
            Decl::Func(f) => match &f.body {
                Some(b) => b.end(),
                None => f.typ.end(),
            },
        }
    }
}

impl File {
    /// The end of the last declaration, or of the package name.
    pub fn end(&self) -> (r: Pos)
        requires file_ok(*self),
        ensures
            r == if self.decls@.len() > 0 { decl_end(self.decls@[self.decls@.len() - 1]) } else { ident_end(self.name) },
            r <= 2 * POS_LIMIT,
    {
        let n = self.decls.len();
        if n > 0 {
            self.decls[n - 1].end()
        } else {
            self.name.end()
        }
    }
}

} // verus!
