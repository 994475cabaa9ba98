//! The page of a function.

use crate::ast::{qualified_name, Entity};
use crate::builder::builder::Builder;
use crate::builder::shared::{declaration_slot_views, declaration_slots, slot_views};
use crate::builder::traits::{
    describe, described, rel_url, ASTEntry, BuildResult, EntityMethods, Entry, NavItem, NavView,
    OutputEntry,
};
use crate::html::Html;
use crate::text::{
    decimal, decimal_digits, lemma_decimal_injective, lemma_decimal_value, string_of, texts_of,
};
use crate::url::{lemma_runs_of_segment, valid_segment, valid_segments, with_suffix, UrlPath};
use vstd::prelude::*;

verus! {

/// A function, possibly one of several of its name.
pub struct Function<'e> {
    entity: Entity<'e>,
    overload_index: Option<usize>,
}

/// What is written behind the last segment of the URL of an overload: its
/// index, from 1 on; nothing for the first of a name.
pub open spec fn overload_suffix(index: Option<nat>) -> Seq<char> {
    match index {
        Some(index) => if index >= 1 {
            decimal(index)
        } else {
            Seq::empty()
        },
        None => Seq::empty(),
    }
}

/// The URL of an overload of the function at `url`.
pub open spec fn overload_url(url: Seq<Seq<char>>, index: Option<nat>) -> Seq<Seq<char>> {
    with_suffix(url, overload_suffix(index))
}

/// The name of a function that has none.
pub open spec fn unnamed() -> Seq<char> {
    "`Anonymous function`"@
}

/// A suffix of digits leaves a URL in one piece: only its last segment
/// grows.
pub proof fn lemma_overload_url(url: Seq<Seq<char>>, index: Option<nat>)
    requires
        valid_segments(url),
        url.len() > 0,
    ensures
        overload_url(url, index) == url.drop_last().push(url.last() + overload_suffix(index)),
{
    let suffix = overload_suffix(index);
    let whole = url.last() + suffix;
    assert(valid_segment(url.last()));
    match index {
        Some(i) => {
            if i >= 1 {
                lemma_decimal_value(i);
                assert forall|k: int| 0 <= k < suffix.len() implies suffix[k] != '/' by {
                    assert(crate::text::digit_value(suffix[k]) >= 0);
                }
            }
        },
        None => {},
    }
    assert(valid_segment(whole)) by {
        assert forall|k: int| 0 <= k < whole.len() implies whole[k] != '/' by {
            if k < url.last().len() {
                assert(whole[k] == url.last()[k]);
            } else {
                assert(whole[k] == suffix[k - url.last().len()]);
            }
        }
    }
    lemma_runs_of_segment(whole);
    assert(url.drop_last() + seq![whole] =~= url.drop_last().push(whole));
}

/// The overloads of one function have different URLs: the first keeps the
/// URL of the function, and each later one has its own index behind it.
pub proof fn law_overloads_have_distinct_urls(url: Seq<Seq<char>>, i: nat, j: nat)
    requires
        valid_segments(url),
        url.len() > 0,
        i != j,
    ensures
        overload_url(url, Some(i)) != overload_url(url, Some(j)),
        overload_url(url, Some(0nat)) == url,
        overload_url(url, None) == url,
{
    lemma_overload_url(url, Some(i));
    lemma_overload_url(url, Some(j));
    lemma_overload_url(url, Some(0nat));
    lemma_overload_url(url, None);
    let a = overload_suffix(Some(i));
    let b = overload_suffix(Some(j));
    assert(url.last() + Seq::<char>::empty() =~= url.last());
    assert(url.drop_last().push(url.last()) =~= url);
    if i >= 1 {
        lemma_decimal_value(i);
    }
    if j >= 1 {
        lemma_decimal_value(j);
    }
    if a == b {
        if i >= 1 && j >= 1 {
            lemma_decimal_injective(i, j);
        }
        assert(false);
    }
    if overload_url(url, Some(i)) == overload_url(url, Some(j)) {
        let x = url.drop_last().push(url.last() + a);
        let y = url.drop_last().push(url.last() + b);
        assert(x.last() == url.last() + a);
        assert(y.last() == url.last() + b);
        assert((url.last() + a).subrange(url.last().len() as int, (url.last() + a).len() as int)
            =~= a);
        assert((url.last() + b).subrange(url.last().len() as int, (url.last() + b).len() as int)
            =~= b);
        assert(false);
    }
}

impl<'e> Function<'e> {
    /// The function of a declaration, with no index yet.
    pub fn new(entity: Entity<'e>) -> (r: Self)
        ensures
            r.entity_of() == entity,
            r.overload().is_none(),
    {
        Self { entity, overload_index: None }
    }

    /// The declaration of the function.
    pub closed spec fn entity_of(&self) -> Entity<'e> {
        self.entity
    }

    /// The index among the functions of the same name, if one was given.
    pub closed spec fn overload(&self) -> Option<nat> {
        match self.overload_index {
            Some(index) => Some(index as nat),
            None => None,
        }
    }

    /// Whether two functions stand for the same declaration.
    pub open spec fn same_declaration(&self, other: Function<'e>) -> bool {
        self.entity_of() == other.entity_of()
    }

    /// The qualified name of the function.
    pub open spec fn qualified(&self) -> Seq<Seq<char>> {
        qualified_name(self.entity_of().decls(), self.entity_of().position())
    }

    /// The URL of the function before any index is added to it.
    pub open spec fn bare_url(&self) -> Option<Seq<Seq<char>>> {
        rel_url(self.entity_of().decls(), self.entity_of().position())
    }

    /// The URL of the function.
    pub open spec fn page_url(&self) -> Option<Seq<Seq<char>>> {
        match self.bare_url() {
            Some(url) => Some(overload_url(url, self.overload())),
            None => None,
        }
    }

    /// Gives the function its index among the functions of its name.
    pub fn add_overload_index(&mut self, index: usize)
        ensures
            final(self).entity_of() == old(self).entity_of(),
            final(self).overload() == Some(index as nat),
    {
        self.overload_index = Some(index);
    }

    /// The same function once more.
    pub fn copy(&self) -> (r: Self)
        ensures
            r.entity_of() == self.entity_of(),
            r.overload() == self.overload(),
    {
        Self { entity: self.entity, overload_index: self.overload_index }
    }

    /// The qualified name of the function.
    pub fn qualified_name(&self) -> (r: Vec<String>)
        ensures
            texts_of(r@) == self.qualified(),
    {
        self.entity.full_name()
    }
}

impl<'e> Function<'e> {
    /// The name that the page of the function shows.
    pub open spec fn shown_name(&self) -> Seq<char> {
        match self.entity_of().decl().name {
            Some(name) => name,
            None => unnamed(),
        }
    }

    fn page_name(&self) -> (r: String)
        ensures
            r@ == self.shown_name(),
    {
        match self.entity.get_name() {
            Some(name) => name,
            None => String::from_str("`Anonymous function`"),
        }
    }

    /// The URL of the page, where the function has one.
    pub fn try_url(&self) -> (r: Option<UrlPath>)
        ensures
            match r {
                Some(url) => self.page_url() == Some(url@),
                None => self.page_url().is_none(),
            },
    {
        match self.entity.rel_docs_url() {
            Some(url) => {
                let suffix: String = match self.overload_index {
                    Some(index) => if index >= 1 {
                        string_of(&decimal_digits(index))
                    } else {
                        String::new()
                    },
                    None => String::new(),
                };
                Some(url.append_to_last(suffix.as_str()))
            },
            None => None,
        }
    }
}

impl<'e> Entry for Function<'e> {
    open spec fn resolvable(&self) -> bool {
        self.bare_url().is_some()
    }

    fn is_resolvable(&self) -> (r: bool) {
        self.entity.rel_docs_url().is_some()
    }

    fn name(&self) -> (r: String)
        ensures
            r@ == self.shown_name(),
    {
        self.page_name()
    }

    fn url(&self) -> (r: UrlPath)
        ensures
            Some(r@) == self.page_url(),
    {
        match self.try_url() {
            Some(url) => url,
            None => UrlPath::new(),
        }
    }

    fn build(&self, builder: &Builder) -> (r: BuildResult)
        ensures
            r.is_ok() == self.resolvable(),
            crate::builder::builder::is_page_of(
                builder,
                self.page_url(),
                self.shown_name(),
                described(self.shown_name(), "function"@, builder.config.project.name@),
                builder.config.templates.function@,
                crate::builder::builder::slot_texts(
                    declaration_slot_views(
                        self.entity_of().decls(),
                        self.entity_of().position(),
                        self.shown_name(),
                        described(self.shown_name(), "function"@, builder.config.project.name@),
                        &builder.config,
                    ),
                ),
                r,
            ),
    {
        let name = self.page_name();
        let description = describe(
            name.as_str(),
            "function",
            builder.config.project.name.as_str(),
        );
        let slots = declaration_slots(&self.entity, name.as_str(), description.as_str(), builder);
        proof {
            crate::builder::builder::lemma_slot_texts(slots@);
        }
        builder.create_output(
            self.try_url(),
            name.as_str(),
            description.as_str(),
            builder.config.templates.function.as_str(),
            &slots,
        )
    }

    fn nav(&self) -> (r: NavItem)
        ensures
            self.page_url().is_some(),
            r@ == NavView::Link(self.shown_name(), self.page_url().unwrap(), Some(("code"@, true))),
    {
        let name = self.page_name();
        let url = match self.try_url() {
            Some(url) => url,
            None => UrlPath::new(),
        };
        NavItem::new_link(name.as_str(), url, Some(("code", true)))
    }
}

impl<'e> ASTEntry<'e> for Function<'e> {
    fn entity(&self) -> (r: &Entity<'e>)
        ensures
            *r == self.entity_of(),
    {
        &self.entity
    }

    fn category(&self) -> (r: &'static str)
        ensures
            r@ == "function"@,
    {
        "function"
    }

    fn output_description(&self, builder: &Builder) -> (r: String)
        ensures
            r@ == described(self.shown_name(), "function"@, builder.config.project.name@),
    {
        let name = self.name();
        let category = self.category();
        describe(name.as_str(), category, builder.config.project.name.as_str())
    }
}

impl<'e> OutputEntry for Function<'e> {
    fn output(&self, builder: &Builder) -> (r: (String, Vec<(&'static str, Html)>))
        ensures
            r.0@ == builder.config.templates.function@,
            slot_views(r.1@) == declaration_slot_views(
                self.entity_of().decls(),
                self.entity_of().position(),
                self.shown_name(),
                described(self.shown_name(), "function"@, builder.config.project.name@),
                &builder.config,
            ),
    {
        let name = self.page_name();
        let description = self.output_description(builder);
        (
            builder.config.templates.function.clone(),
            declaration_slots(&self.entity, name.as_str(), description.as_str(), builder),
        )
    }

    fn description(&self, builder: &Builder) -> (r: String)
        ensures
            r@ == described(self.shown_name(), "function"@, builder.config.project.name@),
    {
        self.output_description(builder)
    }
}

} // verus!
