//! The categories of the reference: what kind of page a declaration gets.

use crate::ast::EntityKind;
use crate::text::runs;
use crate::url::{slash, UrlPath};
use vstd::prelude::*;

verus! {

/// A category of the reference.
#[derive(Clone, Copy, Debug, PartialEq, Eq, Structural)]
pub enum CppItemKind {
    Namespace,
    Class,
    Struct,
    Enum,
    Function,
}

/// The category of a syntactic kind, if the reference has one for it.
pub open spec fn category_of(kind: EntityKind) -> Option<CppItemKind> {
    match kind {
        EntityKind::Namespace => Some(CppItemKind::Namespace),
        EntityKind::ClassDecl | EntityKind::ClassTemplate => Some(CppItemKind::Class),
        EntityKind::StructDecl => Some(CppItemKind::Struct),
        EntityKind::EnumDecl => Some(CppItemKind::Enum),
        EntityKind::FunctionDecl
        | EntityKind::FunctionTemplate
        | EntityKind::Method
        | EntityKind::Constructor
        | EntityKind::Destructor
        | EntityKind::ConversionFunction => Some(CppItemKind::Function),
        _ => None,
    }
}

/// The segment under which the pages of a category stand.
pub open spec fn category_segment(category: CppItemKind) -> Seq<char> {
    match category {
        CppItemKind::Namespace => "namespaces"@,
        CppItemKind::Class => "classes"@,
        CppItemKind::Struct => "structs"@,
        CppItemKind::Enum => "enums"@,
        CppItemKind::Function => "functions"@,
    }
}

/// The word for one member of a category.
pub open spec fn category_word(category: CppItemKind) -> Seq<char> {
    match category {
        CppItemKind::Namespace => "namespace"@,
        CppItemKind::Class => "class"@,
        CppItemKind::Struct => "struct"@,
        CppItemKind::Enum => "enum"@,
        CppItemKind::Function => "function"@,
    }
}

impl CppItemKind {
    /// The category of a syntactic kind.
    pub fn from(kind: EntityKind) -> (r: Option<CppItemKind>)
        ensures
            r == category_of(kind),
    {
        match kind {
            EntityKind::Namespace => Some(CppItemKind::Namespace),
            EntityKind::ClassDecl | EntityKind::ClassTemplate => Some(CppItemKind::Class),
            EntityKind::StructDecl => Some(CppItemKind::Struct),
            EntityKind::EnumDecl => Some(CppItemKind::Enum),
            EntityKind::FunctionDecl
            | EntityKind::FunctionTemplate
            | EntityKind::Method
            | EntityKind::Constructor
            | EntityKind::Destructor
            | EntityKind::ConversionFunction => Some(CppItemKind::Function),
            _ => None,
        }
    }

    fn segment(self) -> (r: &'static str)
        ensures
            r@ == category_segment(self),
    {
        match self {
            CppItemKind::Namespace => "namespaces",
            CppItemKind::Class => "classes",
            CppItemKind::Struct => "structs",
            CppItemKind::Enum => "enums",
            CppItemKind::Function => "functions",
        }
    }

    /// The word for one member of the category.
    pub fn word(self) -> (r: &'static str)
        ensures
            r@ == category_word(self),
    {
        match self {
            CppItemKind::Namespace => "namespace",
            CppItemKind::Class => "class",
            CppItemKind::Struct => "struct",
            CppItemKind::Enum => "enum",
            CppItemKind::Function => "function",
        }
    }

    /// The path under which the pages of the category stand.
    pub fn docs_category(self) -> (r: UrlPath)
        ensures
            r@ == seq![category_segment(self)],
    {
        let r = UrlPath::part(self.segment());
        proof {
            lemma_category_is_one_segment(self);
        }
        r
    }
}

/// The name of a category is one segment.
pub proof fn lemma_category_is_one_segment(category: CppItemKind)
    ensures
        runs(category_segment(category), slash()) == seq![category_segment(category)],
{
    reveal_strlit("namespaces");
    reveal_strlit("classes");
    reveal_strlit("structs");
    reveal_strlit("enums");
    reveal_strlit("functions");
    crate::url::lemma_runs_of_segment(category_segment(category));
}

} // verus!
