//! The declarations of one analysis, as far as the site reads them: each with
//! its kind, its name, the declaration that it belongs to and the file that
//! defines it.

use vstd::prelude::*;

verus! {

/// The syntactic kind of a declaration.
#[derive(Clone, Copy, Debug, PartialEq, Eq, Structural)]
pub enum EntityKind {
    TranslationUnit,
    UnexposedDecl,
    UnexposedAttr,
    UnexposedExpr,
    UnexposedStmt,
    Namespace,
    ClassDecl,
    ClassTemplate,
    StructDecl,
    EnumDecl,
    FunctionDecl,
    FunctionTemplate,
    Method,
    Constructor,
    Destructor,
    ConversionFunction,
    /// Any kind that the site has no page for.
    Other,
}

/// One declaration.
#[derive(Debug, PartialEq)]
pub struct Declaration {
    pub kind: EntityKind,
    /// The display name; `None` for an anonymous declaration.
    pub name: Option<String>,
    /// The declaration that this one belongs to, by its index.
    pub parent: Option<usize>,
    /// The file that holds the definition.
    pub definition_file: Option<String>,
}

/// What a declaration holds.
pub struct DeclView {
    pub kind: EntityKind,
    pub name: Option<Seq<char>>,
    pub parent: Option<int>,
    pub definition_file: Option<Seq<char>>,
}

/// The text of a string, if there is one.
pub open spec fn opt_text(s: Option<String>) -> Option<Seq<char>> {
    match s {
        Some(s) => Some(s@),
        None => None,
    }
}

impl View for Declaration {
    type V = DeclView;

    open spec fn view(&self) -> DeclView {
        DeclView {
            kind: self.kind,
            name: opt_text(self.name),
            parent: match self.parent {
                Some(p) => Some(p as int),
                None => None,
            },
            definition_file: opt_text(self.definition_file),
        }
    }
}

/// What each declaration of a vector holds.
pub open spec fn decls_of(nodes: Seq<Declaration>) -> Seq<DeclView> {
    nodes.map_values(|d: Declaration| d@)
}

/// Whether every declaration comes after the one it belongs to.
pub open spec fn parents_first(decls: Seq<DeclView>) -> bool {
    forall|i: int|
        0 <= i < decls.len() ==> match (#[trigger] decls[i]).parent {
            Some(p) => 0 <= p < i,
            None => true,
        }
}

/// Whether `text` ends in `ending`.
pub open spec fn ends_in(text: Seq<char>, ending: Seq<char>) -> bool {
    ending.len() <= text.len() && text.subrange(text.len() - ending.len(), text.len() as int)
        == ending
}

/// Whether a name is that of a C++ source file.
pub open spec fn names_source_file(name: Seq<char>) -> bool {
    ends_in(name, ".cpp"@) || ends_in(name, ".cc"@) || ends_in(name, ".cxx"@) || ends_in(
        name,
        ".c++"@,
    )
}

/// Whether a kind stands for something that the analyzer made up, or for a
/// whole translation unit.
pub open spec fn synthetic(kind: EntityKind) -> bool {
    kind == EntityKind::TranslationUnit || kind == EntityKind::UnexposedDecl || kind
        == EntityKind::UnexposedAttr || kind == EntityKind::UnexposedExpr || kind
        == EntityKind::UnexposedStmt
}

/// Whether a declaration ends the chain of scopes: it is synthetic, or it is
/// named like a source file.
pub open spec fn ends_scopes(decl: DeclView) -> bool {
    synthetic(decl.kind) || match decl.name {
        Some(name) => names_source_file(name),
        None => false,
    }
}

/// The scope that a declaration stands in, if it stands in one.
pub open spec fn scope_of(decls: Seq<DeclView>, index: int) -> Option<int> {
    if 0 <= index < decls.len() {
        match decls[index].parent {
            Some(p) => if 0 <= p < index && !ends_scopes(decls[p]) {
                Some(p)
            } else {
                None
            },
            None => None,
        }
    } else {
        None
    }
}

/// The chain of scopes of a declaration, outermost first, the declaration
/// itself last.
pub open spec fn ancestry(decls: Seq<DeclView>, index: int) -> Seq<int>
    decreases index,
{
    match scope_of(decls, index) {
        Some(p) => ancestry(decls, p).push(index),
        None => seq![index],
    }
}

/// The name that stands for an anonymous scope.
pub open spec fn anonymous() -> Seq<char> {
    "_anon"@
}

/// The name of a declaration in a qualified name.
pub open spec fn name_of(decl: DeclView) -> Seq<char> {
    match decl.name {
        Some(name) => name,
        None => anonymous(),
    }
}

/// The names of the declarations of a chain.
pub open spec fn names_along(decls: Seq<DeclView>, chain: Seq<int>) -> Seq<Seq<char>> {
    Seq::new(chain.len(), |k: int| name_of(decls[chain[k]]))
}

/// The qualified name of a declaration.
pub open spec fn qualified_name(decls: Seq<DeclView>, index: int) -> Seq<Seq<char>> {
    names_along(decls, ancestry(decls, index))
}

/// The chain of a declaration ends with the declaration, each member stands
/// in the one before it, no member but the last is synthetic or a source
/// file, and the first stands in no scope.
pub proof fn law_ancestry_is_the_scope_chain(decls: Seq<DeclView>, index: int)
    requires
        0 <= index < decls.len(),
    ensures
        ancestry(decls, index).len() >= 1,
        ancestry(decls, index).last() == index,
        scope_of(decls, ancestry(decls, index)[0]).is_none(),
        forall|k: int|
            0 <= k < ancestry(decls, index).len() ==> 0 <= #[trigger] ancestry(decls, index)[k]
                <= index,
        forall|k: int|
            0 <= k < ancestry(decls, index).len() - 1 ==> scope_of(
                decls,
                #[trigger] ancestry(decls, index)[k + 1],
            ) == Some(ancestry(decls, index)[k]) && !ends_scopes(
                decls[ancestry(decls, index)[k]],
            ),
    decreases index,
{
    match scope_of(decls, index) {
        Some(p) => {
            law_ancestry_is_the_scope_chain(decls, p);
            let before = ancestry(decls, p);
            let chain = ancestry(decls, index);
            assert(chain == before.push(index));
            assert forall|k: int| 0 <= k < chain.len() - 1 implies scope_of(
                decls,
                #[trigger] chain[k + 1],
            ) == Some(chain[k]) && !ends_scopes(decls[chain[k]]) by {
                if k < before.len() - 1 {
                    assert(chain[k + 1] == before[k + 1]);
                    assert(chain[k] == before[k]);
                } else {
                    assert(chain[k + 1] == index);
                    assert(chain[k] == before.last());
                }
            }
            assert(chain[0] == before[0]);
        },
        None => {},
    }
}

/// The declarations of one analysis.
pub struct Ast {
    nodes: Vec<Declaration>,
}

impl View for Ast {
    type V = Seq<DeclView>;

    closed spec fn view(&self) -> Seq<DeclView> {
        decls_of(self.nodes@)
    }
}

impl Ast {
    #[verifier::type_invariant]
    closed spec fn inv(&self) -> bool {
        parents_first(self@)
    }

    /// No declarations.
    pub fn new() -> (r: Ast)
        ensures
            r@ == Seq::<DeclView>::empty(),
    {
        let nodes: Vec<Declaration> = Vec::new();
        assert(decls_of(nodes@) =~= Seq::empty());
        Ast { nodes }
    }

    /// How many declarations there are.
    pub fn len(&self) -> (n: usize)
        ensures
            n == self@.len(),
    {
        self.nodes.len()
    }

    /// Adds a declaration at the end and returns its index. One whose parent
    /// is not there yet is refused, and nothing changes.
    pub fn with(self, decl: Declaration) -> (r: (Ast, Option<usize>))
        ensures
            parents_first(r.0@),
            match r.1 {
                Some(index) => index == self@.len() && r.0@ == self@.push(decl@),
                None => r.0@ == self@ && decl.parent.is_some() && decl.parent.unwrap()
                    >= self@.len(),
            },
    {
        proof {
            use_type_invariant(&self);
        }
        let index: usize = self.nodes.len();
        let accepted: bool = match decl.parent {
            Some(p) => p < index,
            None => true,
        };
        if !accepted {
            return (self, None);
        }
        let mut nodes = self.nodes;
        let ghost before = decls_of(nodes@);
        nodes.push(decl);
        proof {
            assert(decls_of(nodes@) =~= before.push(decl@));
            assert forall|i: int| 0 <= i < decls_of(nodes@).len() implies match (
            #[trigger] decls_of(nodes@)[i]).parent {
                Some(p) => 0 <= p < i,
                None => true,
            } by {
                if i < before.len() {
                    assert(decls_of(nodes@)[i] == before[i]);
                }
            }
        }
        (Ast { nodes }, Some(index))
    }

    /// The declaration at `index`.
    pub fn entity<'a>(&'a self, index: usize) -> (r: Option<Entity<'a>>)
        ensures
            match r {
                Some(entity) => index < self@.len() && entity.decls() == self@ && entity.position()
                    == index,
                None => index >= self@.len(),
            },
    {
        proof {
            use_type_invariant(self);
        }
        if index < self.nodes.len() {
            Some(Entity { ast: self, index })
        } else {
            None
        }
    }
}

/// One declaration of an analysis.
#[derive(Clone, Copy)]
pub struct Entity<'a> {
    ast: &'a Ast,
    index: usize,
}

impl<'a> Entity<'a> {
    #[verifier::type_invariant]
    closed spec fn inv(&self) -> bool {
        self.index < self.ast@.len() && parents_first(self.ast@)
    }

    /// The declarations of the analysis that this one belongs to.
    pub closed spec fn decls(&self) -> Seq<DeclView> {
        self.ast@
    }

    /// The index of the declaration.
    pub closed spec fn position(&self) -> int {
        self.index as int
    }

    /// What the declaration holds.
    pub open spec fn decl(&self) -> DeclView {
        self.decls()[self.position()]
    }

    /// The index is in range, and parents come first.
    pub fn check(&self)
        ensures
            0 <= self.position() < self.decls().len(),
            parents_first(self.decls()),
    {
        proof {
            use_type_invariant(self);
        }
    }

    /// The index of the declaration in its analysis.
    pub fn index(&self) -> (r: usize)
        ensures
            r == self.position(),
    {
        self.index
    }

    /// The syntactic kind.
    pub fn get_kind(&self) -> (r: EntityKind)
        ensures
            r == self.decl().kind,
    {
        proof {
            use_type_invariant(self);
        }
        self.ast.nodes[self.index].kind
    }

    /// The display name, if the declaration has one.
    pub fn get_name(&self) -> (r: Option<String>)
        ensures
            opt_text(r) == self.decl().name,
    {
        proof {
            use_type_invariant(self);
        }
        self.ast.nodes[self.index].name.clone()
    }

    /// The file that holds the definition.
    pub fn get_definition_file(&self) -> (r: Option<String>)
        ensures
            opt_text(r) == self.decl().definition_file,
    {
        proof {
            use_type_invariant(self);
        }
        self.ast.nodes[self.index].definition_file.clone()
    }

    /// The declaration that this one belongs to.
    pub fn get_semantic_parent(&self) -> (r: Option<Entity<'a>>)
        ensures
            match r {
                Some(parent) => self.decl().parent == Some(parent.position()) && parent.decls()
                    == self.decls() && 0 <= parent.position() < self.position(),
                None => self.decl().parent.is_none(),
            },
    {
        proof {
            use_type_invariant(self);
            use_type_invariant(self.ast);
        }
        match self.ast.nodes[self.index].parent {
            Some(p) => {
                assert(self.ast@[self.index as int].parent == Some(p as int));
                Some(Entity { ast: self.ast, index: p })
            },
            None => None,
        }
    }
}

} // verus!
