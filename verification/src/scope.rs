//! Named language entities and the scopes that map names to them.
use vstd::prelude::*;
use crate::position::Pos;
use crate::ast::EntityKey;
use crate::strs::str_matches;

verus! {

#[derive(Debug, Clone, Copy, PartialEq, Eq, Structural)]
pub enum EntityKind {
    Bad,
    Pkg,
    Con,
    Typ,
    Var,
    Fun,
    Lbl,
}

pub open spec fn entity_kind_text(k: EntityKind) -> Seq<char> {
    match k {
        EntityKind::Bad => "bad"@,
        EntityKind::Pkg => "package"@,
        EntityKind::Con => "const"@,
        EntityKind::Typ => "type"@,
        EntityKind::Var => "var"@,
        EntityKind::Fun => "func"@,
        EntityKind::Lbl => "label"@,
    }
}

impl EntityKind {
    pub fn kind_text(&self) -> (r: &'static str)
        ensures r@ == entity_kind_text(*self),
    {
        match self {
            EntityKind::Bad => "bad",
            EntityKind::Pkg => "package",
            EntityKind::Con => "const",
            EntityKind::Typ => "type",
            EntityKind::Var => "var",
            EntityKind::Fun => "func",
            EntityKind::Lbl => "label",
        }
    }
}

/// Where an entity is declared: the position of its declaring node, or none.
#[derive(Debug, Clone)]
pub enum DeclObj {
    At(Pos),
    NoDecl,
}

#[derive(Debug, Clone)]
pub enum EntityData {
    PkgScope(usize),
    ConIota(isize),
    NoData,
}

/// A named language entity: package, constant, type, variable, function or label.
#[derive(Debug, Clone)]
pub struct Entity {
    pub kind: EntityKind,
    pub name: String,
    pub decl: DeclObj,
    pub data: EntityData,
}

impl Entity {
    pub fn new(kind: EntityKind, name: String, decl: DeclObj, data: EntityData) -> (r: Entity)
        ensures r == (Entity { kind, name, decl, data }),
    {
        Entity { kind, name, decl, data }
    }

    pub fn with_no_data(kind: EntityKind, name: String, decl: DeclObj) -> (r: Entity)
        ensures r == (Entity { kind, name, decl, data: EntityData::NoData }),
    {
        Entity::new(kind, name, decl, EntityData::NoData)
    }

    /// The position of the entity's declaration, 0 if it has none.
    pub fn pos(&self) -> (r: Pos)
        ensures
            r == match self.decl {
                DeclObj::At(p) => p,
                DeclObj::NoDecl => 0,
            },
    {
        match &self.decl {
            DeclObj::At(p) => *p,
            DeclObj::NoDecl => 0,
        }
    }
}

/// A scope: the enclosing scope, and the entities declared in it by name
/// (each name at most once).
#[derive(Debug, Clone)]
pub struct Scope {
    pub outer: Option<usize>,
    pub entities: Vec<(String, EntityKey)>,
}

/// The entity a list of bindings gives a name, if any.
pub open spec fn binding_of(b: Seq<(String, EntityKey)>, name: Seq<char>) -> Option<EntityKey>
    decreases b.len(),
{
    if b.len() == 0 {
        None
    } else if b.last().0@ == name {
        Some(b.last().1)
    } else {
        binding_of(b.drop_last(), name)
    }
}

/// The names bound in a scope, as a map.
pub open spec fn scope_map(b: Seq<(String, EntityKey)>) -> Map<Seq<char>, EntityKey> {
    Map::new(|n: Seq<char>| binding_of(b, n) is Some, |n: Seq<char>| binding_of(b, n).unwrap())
}

impl Scope {
    pub open spec fn view_map(&self) -> Map<Seq<char>, EntityKey> {
        scope_map(self.entities@)
    }

    pub fn new(outer: Option<usize>) -> (r: Scope)
        ensures
            r.outer == outer,
            r.view_map() == Map::<Seq<char>, EntityKey>::empty(),
    {
        let r = Scope { outer, entities: Vec::new() };
        assert(r.view_map() =~= Map::<Seq<char>, EntityKey>::empty());
        r
    }

    /// The entity declared under `name` in this scope, if any.
    pub fn look_up(&self, name: &String) -> (r: Option<EntityKey>)
        ensures
            r == binding_of(self.entities@, name@),
            r matches Some(k) ==> self.view_map().contains_key(name@) && self.view_map()[name@] == k,
            r is None ==> !self.view_map().contains_key(name@),
    {
        let mut i = self.entities.len();
        assert(self.entities@.subrange(0, i as int) =~= self.entities@);
        while i > 0
            invariant
                i <= self.entities@.len(),
                binding_of(self.entities@, name@) == binding_of(self.entities@.subrange(0, i as int), name@),
            decreases i,
        {
            let ghost pre = self.entities@.subrange(0, i as int);
            assert(pre.drop_last() =~= self.entities@.subrange(0, i - 1));
            if str_matches(self.entities[i - 1].0.as_str(), name.as_str()) {
                return Some(self.entities[i - 1].1);
            }
            i -= 1;
        }
        None
    }

    /// Declares `entity` under `name`, returning the entity it replaces.
    pub fn insert(&mut self, name: String, entity: EntityKey) -> (r: Option<EntityKey>)
        ensures
            r == binding_of(old(self).entities@, name@),
            final(self).outer == old(self).outer,
            final(self).view_map() == old(self).view_map().insert(name@, entity),
    {
        let prev = self.look_up(&name);
        let ghost nm = name@;
        self.entities.push((name, entity));
        proof {
            let b = self.entities@;
            assert(b.drop_last() =~= old(self).entities@);
            assert forall|n: Seq<char>| #![auto] binding_of(b, n) == if n == nm { Some(entity) } else { binding_of(old(self).entities@, n) } by {
                assert(b.drop_last() =~= old(self).entities@);
            }
            assert(self.view_map() =~= old(self).view_map().insert(nm, entity));
        }
        prev
    }

    /// The scope's names, one per line, between `scope {` and `}`.
    pub fn fmt(&self) -> (r: String)
        ensures r@ == scope_text(self.entities@),
    {
        let mut s = String::from_str("scope {\n");
        let mut i: usize = 0;
        while i < self.entities.len()
            invariant
                i <= self.entities@.len(),
                s@ == "scope {\n"@ + names_text(self.entities@.subrange(0, i as int)),
            decreases self.entities@.len() - i,
        {
            crate::strs::string_push(&mut s, '\t');
            crate::strs::string_push_str(&mut s, self.entities[i].0.as_str());
            crate::strs::string_push(&mut s, '\n');
            proof {
                let sub = self.entities@.subrange(0, i + 1);
                assert(sub.drop_last() =~= self.entities@.subrange(0, i as int));
            }
            i += 1;
        }
        assert(self.entities@.subrange(0, self.entities@.len() as int) =~= self.entities@);
        crate::strs::string_push_str(&mut s, "}\n");
        s
    }
}

/// One tab-indented line per bound name.
pub open spec fn names_text(b: Seq<(String, EntityKey)>) -> Seq<char>
    decreases b.len(),
{
    if b.len() == 0 {
        Seq::empty()
    } else {
        names_text(b.drop_last()).push('\t') + b.last().0@ + seq!['\n']
    }
}

pub open spec fn scope_text(b: Seq<(String, EntityKey)>) -> Seq<char> {
    "scope {\n"@ + names_text(b) + "}\n"@
}

/// The arenas of entities and scopes that identifiers refer to.
#[derive(Debug, Clone)]
pub struct AstObjects {
    pub entities: Vec<Entity>,
    pub scopes: Vec<Scope>,
}

impl AstObjects {
    pub fn new() -> (r: AstObjects)
        ensures r.entities@.len() == 0, r.scopes@.len() == 0,
    {
        AstObjects { entities: Vec::new(), scopes: Vec::new() }
    }
}


/// What a scope gives back of a declaration: once `entity` is declared
/// under `name`, the scope gives `entity` for `name`, and for any other name
/// what it gave before.
pub proof fn lemma_look_up_after_insert(before: Scope, after: Scope, name: Seq<char>, entity: EntityKey, other: Seq<char>)
    requires
        after.view_map() == before.view_map().insert(name, entity),
    ensures
        after.view_map().contains_key(name),
        after.view_map()[name] == entity,
        other != name ==> after.view_map().contains_key(other) == before.view_map().contains_key(other),
        other != name && before.view_map().contains_key(other) ==> after.view_map()[other] == before.view_map()[other],
{
}

} // verus!
