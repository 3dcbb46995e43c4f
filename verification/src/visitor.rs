//! Visitors over syntax trees: a visitor implements one method per kind of
//! node, and the walk functions call the method that fits the node.
use vstd::prelude::*;
use crate::ast::{
    BadDecl, BadExpr, BadStmt, BasicLit, BlockStmt, BranchStmt, CaseClause, ChanDir, CommClause, CompositeLit, Decl,
    DeferStmt, EmptyStmt, Expr, ForStmt, FuncLit, GenDecl, GoStmt, IfStmt, IncDecStmt, InterfaceType, RangeStmt,
    ReturnStmt, SelectStmt, SendStmt, Stmt, StructType, SwitchStmt, TypeSwitchStmt, Ident, FuncType, FuncDecl,
    LabeledStmt, AssignStmt,
};
use crate::token::Token;

verus! {

/// What to do at each kind of expression.
pub trait ExprVisitor {
    type Result;

    fn visit_expr_ident(&mut self, this: &Expr, ident: &Ident) -> Self::Result;

    fn visit_expr_ellipsis(&mut self, this: &Expr, els: &Option<Expr>) -> Self::Result;

    fn visit_expr_basic_lit(&mut self, this: &Expr, blit: &BasicLit) -> Self::Result;

    fn visit_expr_func_lit(&mut self, this: &Expr, flit: &FuncLit) -> Self::Result;

    fn visit_expr_composite_lit(&mut self, this: &Expr, clit: &CompositeLit) -> Self::Result;

    fn visit_expr_paren(&mut self, this: &Expr, expr: &Expr) -> Self::Result;

    fn visit_expr_selector(&mut self, this: &Expr, expr: &Expr, ident: &Ident) -> Self::Result;

    fn visit_expr_index(&mut self, this: &Expr, expr: &Expr, index: &Expr) -> Self::Result;

    fn visit_expr_slice(&mut self, this: &Expr, expr: &Expr, low: &Option<Expr>, high: &Option<Expr>,
        max: &Option<Expr>) -> Self::Result;

    fn visit_expr_type_assert(&mut self, this: &Expr, expr: &Expr, typ: &Option<Expr>) -> Self::Result;

    fn visit_expr_call(&mut self, this: &Expr, func: &Expr, args: &[Expr], ellipsis: bool) -> Self::Result;

    fn visit_expr_star(&mut self, this: &Expr, expr: &Expr) -> Self::Result;

    fn visit_expr_unary(&mut self, this: &Expr, expr: &Expr, op: &Token) -> Self::Result;

    fn visit_expr_binary(&mut self, this: &Expr, left: &Expr, op: &Token, right: &Expr) -> Self::Result;

    fn visit_expr_key_value(&mut self, this: &Expr, key: &Expr, val: &Expr) -> Self::Result;

    fn visit_expr_array_type(&mut self, this: &Expr, len: &Option<Expr>, elm: &Expr) -> Self::Result;

    fn visit_expr_struct_type(&mut self, this: &Expr, s: &StructType) -> Self::Result;

    fn visit_expr_func_type(&mut self, this: &Expr, s: &FuncType) -> Self::Result;

    fn visit_expr_interface_type(&mut self, this: &Expr, s: &InterfaceType) -> Self::Result;

    fn visit_map_type(&mut self, this: &Expr, key: &Expr, val: &Expr, map: &Expr) -> Self::Result;

    fn visit_chan_type(&mut self, this: &Expr, chan: &Expr, dir: &ChanDir) -> Self::Result;

    fn visit_bad_expr(&mut self, this: &Expr, e: &BadExpr) -> Self::Result;
}

/// What to do at each kind of statement and declaration.
pub trait StmtVisitor {
    type Result;

    fn visit_decl(&mut self, decl: &Decl) -> Self::Result;

    fn visit_stmt_decl_gen(&mut self, gdecl: &GenDecl) -> Self::Result;

    fn visit_stmt_decl_func(&mut self, fdecl: &FuncDecl) -> Self::Result;

    fn visit_stmt_labeled(&mut self, lstmt: &LabeledStmt) -> Self::Result;

    fn visit_stmt_send(&mut self, sstmt: &SendStmt) -> Self::Result;

    fn visit_stmt_incdec(&mut self, idcstmt: &IncDecStmt) -> Self::Result;

    fn visit_stmt_assign(&mut self, astmt: &AssignStmt) -> Self::Result;

    fn visit_stmt_go(&mut self, gostmt: &GoStmt) -> Self::Result;

    fn visit_stmt_defer(&mut self, dstmt: &DeferStmt) -> Self::Result;

    fn visit_stmt_return(&mut self, rstmt: &ReturnStmt) -> Self::Result;

    fn visit_stmt_branch(&mut self, bstmt: &BranchStmt) -> Self::Result;

    fn visit_stmt_block(&mut self, bstmt: &BlockStmt) -> Self::Result;

    fn visit_stmt_if(&mut self, ifstmt: &IfStmt) -> Self::Result;

    fn visit_stmt_case(&mut self, cclause: &CaseClause) -> Self::Result;

    fn visit_stmt_switch(&mut self, sstmt: &SwitchStmt) -> Self::Result;

    fn visit_stmt_type_switch(&mut self, tstmt: &TypeSwitchStmt) -> Self::Result;

    fn visit_stmt_comm(&mut self, cclause: &CommClause) -> Self::Result;

    fn visit_stmt_select(&mut self, sstmt: &SelectStmt) -> Self::Result;

    fn visit_stmt_for(&mut self, fstmt: &ForStmt) -> Self::Result;

    fn visit_stmt_range(&mut self, rstmt: &RangeStmt) -> Self::Result;

    fn visit_expr_stmt(&mut self, stmt: &Expr) -> Self::Result;

    fn visit_empty_stmt(&mut self, e: &EmptyStmt) -> Self::Result;

    fn visit_bad_stmt(&mut self, b: &BadStmt) -> Self::Result;

    fn visit_bad_decl(&mut self, b: &BadDecl) -> Self::Result;
}

/// Calls the visitor's method for the kind of `expr`, with its parts.
pub fn walk_expr<R, V: ExprVisitor<Result = R>>(v: &mut V, expr: &Expr) -> R {
    match expr {
        Expr::Bad(e) => v.visit_bad_expr(expr, e),
        Expr::Ident(e) => v.visit_expr_ident(expr, e),
        Expr::Ellipsis(e) => v.visit_expr_ellipsis(expr, &e.elt),
        Expr::BasicLit(e) => v.visit_expr_basic_lit(expr, e),
        Expr::FuncLit(e) => v.visit_expr_func_lit(expr, e),
        Expr::CompositeLit(e) => v.visit_expr_composite_lit(expr, e),
        Expr::Paren(e) => v.visit_expr_paren(expr, &e.expr),
        Expr::Selector(e) => v.visit_expr_selector(expr, &e.expr, &e.sel),
        Expr::Index(e) => v.visit_expr_index(expr, &e.expr, &e.index),
        Expr::Slice(e) => v.visit_expr_slice(expr, &e.expr, &e.low, &e.high, &e.max),
        Expr::TypeAssert(e) => v.visit_expr_type_assert(expr, &e.expr, &e.typ),
        Expr::Call(e) => v.visit_expr_call(expr, &e.func, e.args.as_slice(), e.ellipsis.is_some()),
        Expr::Star(e) => v.visit_expr_star(expr, &e.expr),
        Expr::Unary(e) => v.visit_expr_unary(expr, &e.expr, &e.op),
        Expr::Binary(e) => v.visit_expr_binary(expr, &e.expr_a, &e.op, &e.expr_b),
        Expr::KeyValue(e) => v.visit_expr_key_value(expr, &e.key, &e.val),
        Expr::Array(e) => v.visit_expr_array_type(expr, &e.len, &e.elt),
        Expr::Struct(e) => v.visit_expr_struct_type(expr, e),
        Expr::Func(e) => v.visit_expr_func_type(expr, e),
        Expr::Interface(e) => v.visit_expr_interface_type(expr, e),
        Expr::MapType(e) => v.visit_map_type(expr, &e.key, &e.val, expr),
        Expr::Chan(e) => v.visit_chan_type(expr, &e.val, &e.dir),
    }
}

/// Calls the visitor's method for the kind of `stmt`.
pub fn walk_stmt<R, V: StmtVisitor<Result = R> + ExprVisitor<Result = R>>(v: &mut V, stmt: &Stmt) -> R {
    match stmt {
        Stmt::Bad(s) => v.visit_bad_stmt(s),
        Stmt::Decl(s) => v.visit_decl(s),
        Stmt::Empty(s) => v.visit_empty_stmt(s),
        Stmt::Labeled(s) => v.visit_stmt_labeled(s),
        Stmt::Expr(s) => v.visit_expr_stmt(s),
        Stmt::Send(s) => v.visit_stmt_send(s),
        Stmt::IncDec(s) => v.visit_stmt_incdec(s),
        Stmt::Assign(s) => v.visit_stmt_assign(s),
        Stmt::Go(s) => v.visit_stmt_go(s),
        Stmt::Defer(s) => v.visit_stmt_defer(s),
        Stmt::Return(s) => v.visit_stmt_return(s),
        Stmt::Branch(s) => v.visit_stmt_branch(s),
        Stmt::Block(s) => v.visit_stmt_block(s),
        Stmt::If(s) => v.visit_stmt_if(s),
        Stmt::Case(s) => v.visit_stmt_case(s),
        Stmt::Switch(s) => v.visit_stmt_switch(s),
        Stmt::TypeSwitch(s) => v.visit_stmt_type_switch(s),
        Stmt::Comm(s) => v.visit_stmt_comm(s),
        Stmt::Select(s) => v.visit_stmt_select(s),
        Stmt::For(s) => v.visit_stmt_for(s),
        Stmt::Range(s) => v.visit_stmt_range(s),
    }
}

/// Calls the visitor's method for the kind of `decl`.
pub fn walk_decl<R, V: StmtVisitor<Result = R>>(v: &mut V, decl: &Decl) -> R {
    match decl {
        Decl::Bad(b) => v.visit_bad_decl(b),
        Decl::Gen(g) => v.visit_stmt_decl_gen(g),
        Decl::Func(f) => v.visit_stmt_decl_func(f),
    }
}

} // verus!
