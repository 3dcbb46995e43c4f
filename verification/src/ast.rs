//! The Go syntax tree: expressions, statements, declarations and files, with
//! the source span (`pos` .. `end`) of each node.
use vstd::prelude::*;
use vstd::string::*;
use crate::position::Pos;
use std::rc::Rc;
use crate::token::{Token, TokenData, RawTokenData, token_text, token_literal, token_data_ok};

verus! {

/// Positions and name lengths in a syntax tree stay below this limit, so that
/// span arithmetic cannot overflow.
pub const POS_LIMIT: usize = 0x4000_0000;

/// A position or length that respects `POS_LIMIT`.
pub open spec fn small(p: usize) -> bool {
    p <= POS_LIMIT
}

pub type EntityKey = usize;

/// `Rc::clone` (std): the copy points to the same value, so it equals the
/// given one.
#[verifier::external_body]
pub(crate) fn rc_clone<T>(b: &Rc<T>) -> (r: Rc<T>)
    ensures r == *b,
{
    Rc::clone(b)
}


#[derive(Debug, Clone)]
pub enum IdentEntity {
    NoEntity,
    Sentinel,
    Entity(EntityKey),
}

impl IdentEntity {
    /// An equal copy.
    pub fn duplicate(&self) -> (r: IdentEntity)
        ensures r == *self,
    {
        match self {
            IdentEntity::NoEntity => IdentEntity::NoEntity,
            IdentEntity::Sentinel => IdentEntity::Sentinel,
            IdentEntity::Entity(k) => IdentEntity::Entity(*k),
        }
    }

    pub fn is_none(&self) -> (r: bool)
        ensures r == (*self is NoEntity),
    {
        matches!(self, IdentEntity::NoEntity)
    }
}

/// An identifier.
#[derive(Debug, Clone)]
pub struct Ident {
    pub pos: Pos,
    pub name: String,
    pub entity: IdentEntity,
}

/// Whether a name is exported: its first character is an upper-case letter.
pub fn is_exported(s: &str) -> (r: bool)
    requires s@.len() > 0,
    ensures r == crate::strs::char_is_uppercase(s@[0]),
{
    crate::strs::is_uppercase(s.get_char(0))
}

impl Ident {
    /// An equal copy.
    pub fn duplicate(&self) -> (r: Ident)
        ensures r == *self,
    {
        Ident { pos: self.pos, name: self.name.clone(), entity: self.entity.duplicate() }
    }

    pub fn with_str(pos: Pos, s: &str) -> (r: Ident)
        ensures
            r.pos == pos,
            r.name@ == s@,
            r.entity is NoEntity,
    {
        Ident { pos, name: String::from_str(s), entity: IdentEntity::NoEntity }
    }

    pub fn blank(pos: Pos) -> (r: Ident)
        ensures
            r.pos == pos,
            r.name@ == "_"@,
            r.entity is NoEntity,
    {
        Ident::with_str(pos, "_")
    }

    pub fn true_(pos: Pos) -> (r: Ident)
        ensures
            r.pos == pos,
            r.name@ == "true"@,
            r.entity is NoEntity,
    {
        Ident::with_str(pos, "true")
    }

    /// The entity the identifier resolves to, if any.
    pub fn entity_obj<'a>(&self, objs: &'a crate::scope::AstObjects) -> (r: Option<&'a crate::scope::Entity>)
        requires self.entity matches IdentEntity::Entity(k) ==> k < objs.entities@.len(),
        ensures
            match self.entity {
                IdentEntity::Entity(k) => r == Some(&objs.entities@[k as int]),
                _ => r is None,
            },
    {
        match self.entity {
            IdentEntity::Entity(i) => Some(&objs.entities[i]),
            _ => None,
        }
    }

    pub fn is_blank(&self) -> (r: bool)
        ensures r == (self.name@ == "_"@),
    {
        crate::strs::str_matches(self.name.as_str(), "_")
    }

    pub fn is_exported(&self) -> (r: bool)
        requires self.name@.len() > 0,
        ensures r == crate::strs::char_is_uppercase(self.name@[0]),
    {
        is_exported(self.name.as_str())
    }
}

#[derive(Debug, Clone)]
pub struct BadExpr {
    pub from: Pos,
    pub to: Pos,
}

#[derive(Debug, Clone)]
pub struct Ellipsis {
    pub pos: Pos,
    pub elt: Option<Expr>,
}

#[derive(Debug, Clone)]
pub struct BasicLit {
    pub pos: Pos,
    pub token: Token,
}

#[derive(Debug, Clone)]
pub struct FuncLit {
    pub typ: FuncType,
    pub body: BlockStmt,
}

#[derive(Debug, Clone)]
pub struct CompositeLit {
    pub typ: Option<Expr>,
    pub l_brace: Pos,
    pub elts: Vec<Expr>,
    pub r_brace: Pos,
    pub incomplete: bool,
}

#[derive(Debug, Clone)]
pub struct ParenExpr {
    pub l_paren: Pos,
    pub expr: Expr,
    pub r_paren: Pos,
}

#[derive(Debug, Clone)]
pub struct SelectorExpr {
    pub expr: Expr,
    pub sel: Ident,
}

#[derive(Debug, Clone)]
pub struct IndexExpr {
    pub expr: Expr,
    pub l_brack: Pos,
    pub index: Expr,
    pub r_brack: Pos,
}

#[derive(Debug, Clone)]
pub struct SliceExpr {
    pub expr: Expr,
    pub l_brack: Pos,
    pub low: Option<Expr>,
    pub high: Option<Expr>,
    pub max: Option<Expr>,
    pub slice3: bool,
    pub r_brack: Pos,
}

#[derive(Debug, Clone)]
pub struct TypeAssertExpr {
    pub expr: Expr,
    pub l_paren: Pos,
    pub typ: Option<Expr>,
    pub r_paren: Pos,
}

#[derive(Debug, Clone)]
pub struct CallExpr {
    pub func: Expr,
    pub l_paren: Pos,
    pub args: Vec<Expr>,
    pub ellipsis: Option<Pos>,
    pub r_paren: Pos,
}

#[derive(Debug, Clone)]
pub struct StarExpr {
    pub star: Pos,
    pub expr: Expr,
}

#[derive(Debug, Clone)]
pub struct UnaryExpr {
    pub op_pos: Pos,
    pub op: Token,
    pub expr: Expr,
}

#[derive(Debug, Clone)]
pub struct BinaryExpr {
    pub expr_a: Expr,
    pub op_pos: Pos,
    pub op: Token,
    pub expr_b: Expr,
}

#[derive(Debug, Clone)]
pub struct KeyValueExpr {
    pub key: Expr,
    pub colon: Pos,
    pub val: Expr,
}

#[derive(Debug, Clone)]
pub struct ArrayType {
    pub l_brack: Pos,
    pub len: Option<Expr>,
    pub elt: Expr,
}

#[derive(Debug, Clone)]
pub struct StructType {
    pub struct_pos: Pos,
    pub fields: FieldList,
    pub incomplete: bool,
}

#[derive(Debug, Clone)]
pub struct FuncType {
    pub func: Option<Pos>,
    pub params: FieldList,
    pub results: Option<FieldList>,
}

impl FuncType {
    pub fn new(func: Option<Pos>, params: FieldList, results: Option<FieldList>) -> (r: FuncType)
        ensures r.func == func, r.params == params, r.results == results,
    {
        FuncType { func, params, results }
    }
}

#[derive(Debug, Clone)]
pub struct InterfaceType {
    pub interface: Pos,
    pub methods: FieldList,
    pub incomplete: bool,
}

#[derive(Debug, Clone)]
pub struct MapType {
    pub map: Pos,
    pub key: Expr,
    pub val: Expr,
}

#[derive(Debug, Clone, Copy, PartialEq, Eq, Structural)]
pub enum ChanDir {
    Send,
    Recv,
    SendRecv,
}

#[derive(Debug, Clone)]
pub struct ChanType {
    pub begin: Pos,
    pub arrow: Pos,
    pub dir: ChanDir,
    pub val: Expr,
}

/// A parameter, result or struct field: its names, type and optional tag.
#[derive(Debug, Clone)]
pub struct Field {
    pub names: Vec<Ident>,
    pub typ: Expr,
    pub tag: Option<Expr>,
}

#[derive(Debug, Clone)]
pub struct FieldList {
    pub opening: Option<Pos>,
    pub list: Vec<Field>,
    pub closing: Option<Pos>,
}

impl FieldList {
    pub fn new(opening: Option<Pos>, list: Vec<Field>, closing: Option<Pos>) -> (r: FieldList)
        ensures r.opening == opening, r.list == list, r.closing == closing,
    {
        FieldList { opening, list, closing }
    }
}

#[derive(Debug, Clone)]
pub enum Expr {
    Bad(Rc<BadExpr>),
    Ident(Rc<Ident>),
    Ellipsis(Rc<Ellipsis>),
    BasicLit(Rc<BasicLit>),
    FuncLit(Rc<FuncLit>),
    CompositeLit(Rc<CompositeLit>),
    Paren(Rc<ParenExpr>),
    Selector(Rc<SelectorExpr>),
    Index(Rc<IndexExpr>),
    Slice(Rc<SliceExpr>),
    TypeAssert(Rc<TypeAssertExpr>),
    Call(Rc<CallExpr>),
    Star(Rc<StarExpr>),
    Unary(Rc<UnaryExpr>),
    Binary(Rc<BinaryExpr>),
    KeyValue(Rc<KeyValueExpr>),
    Array(Rc<ArrayType>),
    Struct(Rc<StructType>),
    Func(Rc<FuncType>),
    Interface(Rc<InterfaceType>),
    MapType(Rc<MapType>),
    Chan(Rc<ChanType>),
}

#[derive(Debug, Clone)]
pub struct ImportSpec {
    pub name: Option<Ident>,
    pub path: BasicLit,
    pub end_pos: Option<Pos>,
}

#[derive(Debug, Clone)]
pub struct ValueSpec {
    pub names: Vec<Ident>,
    pub typ: Option<Expr>,
    pub values: Vec<Expr>,
}

#[derive(Debug, Clone)]
pub struct TypeSpec {
    pub name: Ident,
    pub assign: Pos,
    pub typ: Expr,
}

#[derive(Debug, Clone)]
pub enum Spec {
    Import(Rc<ImportSpec>),
    Value(Rc<ValueSpec>),
    Type(Rc<TypeSpec>),
}

#[derive(Debug, Clone)]
pub struct BadDecl {
    pub from: Pos,
    pub to: Pos,
}

#[derive(Debug, Clone)]
pub struct GenDecl {
    pub token_pos: Pos,
    pub token: Token,
    pub l_paran: Option<Pos>,
    pub specs: Vec<Spec>,
    pub r_paren: Option<Pos>,
}

#[derive(Debug, Clone)]
pub struct FuncDecl {
    pub recv: Option<FieldList>,
    pub name: Ident,
    pub typ: FuncType,
    pub body: Option<BlockStmt>,
}

#[derive(Debug, Clone)]
pub enum Decl {
    Bad(Rc<BadDecl>),
    Gen(Rc<GenDecl>),
    Func(Rc<FuncDecl>),
}

#[derive(Debug, Clone)]
pub struct BadStmt {
    pub from: Pos,
    pub to: Pos,
}

#[derive(Debug, Clone)]
pub struct EmptyStmt {
    pub semi: Pos,
    pub implicit: bool,
}

#[derive(Debug, Clone)]
pub struct LabeledStmt {
    pub label: Ident,
    pub colon: Pos,
    pub stmt: Stmt,
}

#[derive(Debug, Clone)]
pub struct SendStmt {
    pub chan: Expr,
    pub arrow: Pos,
    pub val: Expr,
}

#[derive(Debug, Clone)]
pub struct IncDecStmt {
    pub expr: Expr,
    pub token_pos: Pos,
    pub token: Token,
}

#[derive(Debug, Clone)]
pub struct AssignStmt {
    pub lhs: Vec<Expr>,
    pub token_pos: Pos,
    pub token: Token,
    pub rhs: Vec<Expr>,
}

#[derive(Debug, Clone)]
pub struct GoStmt {
    pub go: Pos,
    pub call: Expr,
}

#[derive(Debug, Clone)]
pub struct DeferStmt {
    pub defer: Pos,
    pub call: Expr,
}

#[derive(Debug, Clone)]
pub struct ReturnStmt {
    pub ret: Pos,
    pub results: Vec<Expr>,
}

/// A break, continue, goto or fallthrough statement.
#[derive(Debug, Clone)]
pub struct BranchStmt {
    pub token_pos: Pos,
    pub token: Token,
    pub label: Option<Ident>,
}

#[derive(Debug, Clone)]
pub struct BlockStmt {
    pub l_brace: Pos,
    pub list: Vec<Stmt>,
    pub r_brace: Pos,
}

impl BlockStmt {
    pub fn new(l: Pos, list: Vec<Stmt>, r: Pos) -> (b: BlockStmt)
        ensures b.l_brace == l, b.list == list, b.r_brace == r,
    {
        BlockStmt { l_brace: l, list, r_brace: r }
    }

    pub fn pos(&self) -> (r: Pos)
        ensures r == self.l_brace,
    {
        self.l_brace
    }

    pub fn end(&self) -> (r: Pos)
        requires small(self.r_brace),
        ensures r == self.r_brace + 1,
    {
        self.r_brace + 1
    }
}

#[derive(Debug, Clone)]
pub struct IfStmt {
    pub if_pos: Pos,
    pub init: Option<Stmt>,
    pub cond: Expr,
    pub body: BlockStmt,
    pub els: Option<Stmt>,
}

/// A case of an expression or type switch (`list` is None for `default`).
#[derive(Debug, Clone)]
pub struct CaseClause {
    pub case: Pos,
    pub list: Option<Vec<Expr>>,
    pub colon: Pos,
    pub body: Vec<Stmt>,
}

#[derive(Debug, Clone)]
pub struct SwitchStmt {
    pub switch: Pos,
    pub init: Option<Stmt>,
    pub tag: Option<Expr>,
    pub body: BlockStmt,
}

#[derive(Debug, Clone)]
pub struct TypeSwitchStmt {
    pub switch: Pos,
    pub init: Option<Stmt>,
    pub assign: Stmt,
    pub body: BlockStmt,
}

/// A case of a select statement (`comm` is None for `default`).
#[derive(Debug, Clone)]
pub struct CommClause {
    pub case: Pos,
    pub comm: Option<Stmt>,
    pub colon: Pos,
    pub body: Vec<Stmt>,
}

#[derive(Debug, Clone)]
pub struct SelectStmt {
    pub select: Pos,
    pub body: BlockStmt,
}

#[derive(Debug, Clone)]
pub struct ForStmt {
    pub for_pos: Pos,
    pub init: Option<Stmt>,
    pub cond: Option<Expr>,
    pub post: Option<Stmt>,
    pub body: BlockStmt,
}

#[derive(Debug, Clone)]
pub struct RangeStmt {
    pub for_pos: Pos,
    pub key: Option<Expr>,
    pub val: Option<Expr>,
    pub token_pos: Pos,
    pub token: Token,
    pub expr: Expr,
    pub body: BlockStmt,
}

#[derive(Debug, Clone)]
pub enum Stmt {
    Bad(Rc<BadStmt>),
    Decl(Rc<Decl>),
    Empty(Rc<EmptyStmt>),
    Labeled(Rc<LabeledStmt>),
    Expr(Rc<Expr>),
    Send(Rc<SendStmt>),
    IncDec(Rc<IncDecStmt>),
    Assign(Rc<AssignStmt>),
    Go(Rc<GoStmt>),
    Defer(Rc<DeferStmt>),
    Return(Rc<ReturnStmt>),
    Branch(Rc<BranchStmt>),
    Block(Rc<BlockStmt>),
    If(Rc<IfStmt>),
    Case(Rc<CaseClause>),
    Switch(Rc<SwitchStmt>),
    TypeSwitch(Rc<TypeSwitchStmt>),
    Comm(Rc<CommClause>),
    Select(Rc<SelectStmt>),
    For(Rc<ForStmt>),
    Range(Rc<RangeStmt>),
}

/// A parsed source file: the package clause, the declarations, and the
/// identifiers left unresolved.
#[derive(Debug, Clone)]
pub struct File {
    pub package: Pos,
    pub name: Ident,
    pub decls: Vec<Decl>,
    pub scope: usize,
    pub imports: Vec<ImportSpec>,
    pub unresolved: Vec<Ident>,
}

impl Expr {
    /// An equal copy (sharing the subtrees).
    pub fn duplicate(&self) -> (r: Expr)
        ensures r == *self,
    {
        match self {
            Expr::Bad(x) => Expr::Bad(rc_clone(x)),
            Expr::Ident(x) => Expr::Ident(rc_clone(x)),
            Expr::Ellipsis(x) => Expr::Ellipsis(rc_clone(x)),
            Expr::BasicLit(x) => Expr::BasicLit(rc_clone(x)),
            Expr::FuncLit(x) => Expr::FuncLit(rc_clone(x)),
            Expr::CompositeLit(x) => Expr::CompositeLit(rc_clone(x)),
            Expr::Paren(x) => Expr::Paren(rc_clone(x)),
            Expr::Selector(x) => Expr::Selector(rc_clone(x)),
            Expr::Index(x) => Expr::Index(rc_clone(x)),
            Expr::Slice(x) => Expr::Slice(rc_clone(x)),
            Expr::TypeAssert(x) => Expr::TypeAssert(rc_clone(x)),
            Expr::Call(x) => Expr::Call(rc_clone(x)),
            Expr::Star(x) => Expr::Star(rc_clone(x)),
            Expr::Unary(x) => Expr::Unary(rc_clone(x)),
            Expr::Binary(x) => Expr::Binary(rc_clone(x)),
            Expr::KeyValue(x) => Expr::KeyValue(rc_clone(x)),
            Expr::Array(x) => Expr::Array(rc_clone(x)),
            Expr::Struct(x) => Expr::Struct(rc_clone(x)),
            Expr::Func(x) => Expr::Func(rc_clone(x)),
            Expr::Interface(x) => Expr::Interface(rc_clone(x)),
            Expr::MapType(x) => Expr::MapType(rc_clone(x)),
            Expr::Chan(x) => Expr::Chan(rc_clone(x)),
        }
    }

    pub fn new_bad(from: Pos, to: Pos) -> (r: Expr)
        ensures r == Expr::Bad(Rc::new(BadExpr { from, to })),
    {
        Expr::Bad(Rc::new(BadExpr { from, to }))
    }

    pub fn new_selector(x: Expr, sel: Ident) -> (r: Expr)
        ensures r == Expr::Selector(Rc::new(SelectorExpr { expr: x, sel })),
    {
        Expr::Selector(Rc::new(SelectorExpr { expr: x, sel }))
    }

    pub fn new_ellipsis(pos: Pos, x: Option<Expr>) -> (r: Expr)
        ensures r == Expr::Ellipsis(Rc::new(Ellipsis { pos, elt: x })),
    {
        Expr::Ellipsis(Rc::new(Ellipsis { pos, elt: x }))
    }

    pub fn new_basic_lit(pos: Pos, token: Token) -> (r: Expr)
        ensures r == Expr::BasicLit(Rc::new(BasicLit { pos, token })),
    {
        Expr::BasicLit(Rc::new(BasicLit { pos, token }))
    }

    pub fn new_unary_expr(pos: Pos, op: Token, expr: Expr) -> (r: Expr)
        ensures r == Expr::Unary(Rc::new(UnaryExpr { op_pos: pos, op, expr })),
    {
        Expr::Unary(Rc::new(UnaryExpr { op_pos: pos, op, expr }))
    }

    pub fn box_func_type(ft: FuncType) -> (r: Expr)
        ensures r == Expr::Func(Rc::new(ft)),
    {
        Expr::Func(Rc::new(ft))
    }

    /// A copy of the expression if it is an identifier.
    pub fn clone_ident(&self) -> (r: Option<Expr>)
        ensures
            match *self {
                Expr::Ident(i) => r matches Some(Expr::Ident(j)) && j.pos == i.pos && j.name@ == i.name@,
                _ => r is None,
            },
    {
        match self {
            Expr::Ident(i) => Some(Expr::Ident(Rc::new(Ident {
                pos: i.pos,
                name: i.name.clone(),
                entity: i.entity.clone(),
            }))),
            _ => None,
        }
    }

    pub fn try_as_ident(&self) -> (r: Option<&Ident>)
        ensures
            match *self {
                Expr::Ident(i) => r == Some(&*i),
                _ => r is None,
            },
    {
        match self {
            Expr::Ident(i) => Some(&**i),
            _ => None,
        }
    }

    pub fn is_bad(&self) -> (r: bool)
        ensures r == (*self is Bad),
    {
        matches!(self, Expr::Bad(_))
    }

    /// Whether this is the `x.(type)` guard of a type switch.
    pub fn is_type_switch_assert(&self) -> (r: bool)
        ensures r == (*self matches Expr::TypeAssert(t) && t.typ is None),
    {
        match self {
            Expr::TypeAssert(t) => t.typ.is_none(),
            _ => false,
        }
    }
}

impl Stmt {
    /// An equal copy (sharing the subtrees).
    pub fn duplicate(&self) -> (r: Stmt)
        ensures r == *self,
    {
        match self {
            Stmt::Bad(x) => Stmt::Bad(rc_clone(x)),
            Stmt::Decl(x) => Stmt::Decl(rc_clone(x)),
            Stmt::Empty(x) => Stmt::Empty(rc_clone(x)),
            Stmt::Labeled(x) => Stmt::Labeled(rc_clone(x)),
            Stmt::Expr(x) => Stmt::Expr(rc_clone(x)),
            Stmt::Send(x) => Stmt::Send(rc_clone(x)),
            Stmt::IncDec(x) => Stmt::IncDec(rc_clone(x)),
            Stmt::Assign(x) => Stmt::Assign(rc_clone(x)),
            Stmt::Go(x) => Stmt::Go(rc_clone(x)),
            Stmt::Defer(x) => Stmt::Defer(rc_clone(x)),
            Stmt::Return(x) => Stmt::Return(rc_clone(x)),
            Stmt::Branch(x) => Stmt::Branch(rc_clone(x)),
            Stmt::Block(x) => Stmt::Block(rc_clone(x)),
            Stmt::If(x) => Stmt::If(rc_clone(x)),
            Stmt::Case(x) => Stmt::Case(rc_clone(x)),
            Stmt::Switch(x) => Stmt::Switch(rc_clone(x)),
            Stmt::TypeSwitch(x) => Stmt::TypeSwitch(rc_clone(x)),
            Stmt::Comm(x) => Stmt::Comm(rc_clone(x)),
            Stmt::Select(x) => Stmt::Select(rc_clone(x)),
            Stmt::For(x) => Stmt::For(rc_clone(x)),
            Stmt::Range(x) => Stmt::Range(rc_clone(x)),
        }
    }

    pub fn new_bad(from: Pos, to: Pos) -> (r: Stmt)
        ensures r == Stmt::Bad(Rc::new(BadStmt { from, to })),
    {
        Stmt::Bad(Rc::new(BadStmt { from, to }))
    }

    pub fn new_assign(lhs: Vec<Expr>, tpos: Pos, tok: Token, rhs: Vec<Expr>) -> (r: Stmt)
        ensures r == Stmt::Assign(Rc::new(AssignStmt { lhs, token_pos: tpos, token: tok, rhs })),
    {
        Stmt::Assign(Rc::new(AssignStmt::arena_new(lhs, tpos, tok, rhs)))
    }

    pub fn box_block(block: BlockStmt) -> (r: Stmt)
        ensures r == Stmt::Block(Rc::new(block)),
    {
        Stmt::Block(Rc::new(block))
    }
}

impl LabeledStmt {
    pub fn arena_new(label: Ident, colon: Pos, stmt: Stmt) -> (r: LabeledStmt)
        ensures r == (LabeledStmt { label, colon, stmt }),
    {
        LabeledStmt { label, colon, stmt }
    }

    pub fn pos(&self) -> (r: Pos)
        ensures r == self.label.pos,
    {
        self.label.pos
    }
}

impl AssignStmt {
    pub fn arena_new(lhs: Vec<Expr>, tpos: Pos, tok: Token, rhs: Vec<Expr>) -> (r: AssignStmt)
        ensures r == (AssignStmt { lhs, token_pos: tpos, token: tok, rhs }),
    {
        AssignStmt { lhs, token_pos: tpos, token: tok, rhs }
    }
}

} // verus!
