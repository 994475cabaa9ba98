//! The navigation tree, and what every documentable unit can do.

use crate::ast::{
    ancestry, ends_in, ends_scopes, law_ancestry_is_the_scope_chain, name_of, opt_text,
    qualified_name, scope_of, DeclView, Entity, EntityKind,
};
use crate::builder::builder::Builder;
use crate::builder::namespace::{category_of, category_segment, CppItemKind};
use crate::config::{Config, Source};
use crate::html::{lemma_nodes_of_push, nodes_of, ElementView, Html, HtmlElement, HtmlView};
use crate::text::{
    chars_of, lemma_texts_of_push, matches_at, runs, slice_chars, string_of, texts_of,
};
use crate::url::{has_prefix, path_text, segments_of_all, site_base, slash, without_prefix, UrlPath};
use vstd::prelude::*;

verus! {

/// A node of the navigation tree.
#[derive(Debug, PartialEq)]
pub enum NavItem {
    /// The top of a tree, with or without a label.
    Root(Option<String>, Vec<NavItem>),
    /// A directory: label, content, icon, and whether it starts open.
    Dir(String, Vec<NavItem>, Option<(String, bool)>, bool),
    /// A link: label, target and icon.
    Link(String, UrlPath, Option<(String, bool)>),
}

/// What a `NavItem` holds.
pub enum NavView {
    Root(Option<Seq<char>>, Seq<NavView>),
    Dir(Seq<char>, Seq<NavView>, Option<(Seq<char>, bool)>, bool),
    Link(Seq<char>, Seq<Seq<char>>, Option<(Seq<char>, bool)>),
}

/// What an icon holds: its name, and whether it is the variant form.
pub open spec fn icon_of(icon: Option<(String, bool)>) -> Option<(Seq<char>, bool)> {
    match icon {
        Some(icon) => Some((icon.0@, icon.1)),
        None => None,
}
}

/// The text of a label, if there is one.
pub open spec fn label_of(label: Option<String>) -> Option<Seq<char>> {
    match label {
        Some(label) => Some(label@),
        None => None,
}
}

/// What a navigation item holds.
pub open spec fn nav_view(item: NavItem) -> NavView
    decreases item,
{
    match item {
        NavItem::Root(label, items) => NavView::Root(
            label_of(label),
            Seq::new(
                items@.len(),
                |i: int|
                    if 0 <= i < items@.len() {
                        nav_view(items@[i])
                    } else {
                        NavView::Root(None, Seq::empty())
                    },
            ),
        ),
        NavItem::Dir(label, items, icon, open) => NavView::Dir(
            label@,
            Seq::new(
                items@.len(),
                |i: int|
                    if 0 <= i < items@.len() {
                        nav_view(items@[i])
                    } else {
                        NavView::Root(None, Seq::empty())
                    },
            ),
            icon_of(icon),
            open,
        ),
        NavItem::Link(label, url, icon) => NavView::Link(label@, url@, icon_of(icon)),
}
}

impl View for NavItem {
    type V = NavView;

    open spec fn view(&self) -> NavView {
        nav_view(*self)
    }
}

/// What each item of a vector holds.
pub open spec fn items_of(items: Seq<NavItem>) -> Seq<NavView> {
    Seq::new(items.len(), |i: int| items[i]@)
}

/// What a root holds.
pub proof fn lemma_root(label: Option<String>, items: Vec<NavItem>)
    ensures
        NavItem::Root(label, items)@ == NavView::Root(label_of(label), items_of(items@)),
{
    let whole = NavItem::Root(label, items);
    let inner = whole@->Root_1;
    assert(inner.len() == items@.len());
    assert forall|i: int| 0 <= i < inner.len() implies inner[i] == items_of(items@)[i] by {
        assert(inner[i] == items@[i]@);
    }
    assert(inner =~= items_of(items@));
}

/// What a directory holds.
pub proof fn lemma_dir(label: String, items: Vec<NavItem>, icon: Option<(String, bool)>, open: bool)
    ensures
        NavItem::Dir(label, items, icon, open)@ == NavView::Dir(
            label@,
            items_of(items@),
            icon_of(icon),
            open,
        ),
{
    assert(NavItem::Dir(label, items, icon, open)@->Dir_1 =~= items_of(items@));
}

/// What a root or a directory holds: the views of its items.
pub proof fn lemma_items(item: NavItem)
    ensures
        match item {
            NavItem::Root(label, items) => item@ == NavView::Root(
                label_of(label),
                items_of(items@),
            ),
            NavItem::Dir(label, items, icon, open) => item@ == NavView::Dir(
                label@,
                items_of(items@),
                icon_of(icon),
                open,
            ),
            NavItem::Link(_, _, _) => true,
},
{
    match item {
        NavItem::Root(label, items) => {
            lemma_root(label, items);
        },
        NavItem::Dir(label, items, icon, open) => {
            lemma_dir(label, items, icon, open);
        },
        NavItem::Link(_, _, _) => {},
}
}

/// An element with nothing in it.
pub open spec fn bare(tag: Seq<char>) -> ElementView {
    ElementView {
        tag,
        classes: Seq::empty(),
        attributes: Seq::empty(),
        children: Seq::empty(),
}
}

/// The element of an icon.
pub open spec fn icon_html(icon: (Seq<char>, bool)) -> HtmlView {
    HtmlView::Element(
        ElementView {
            classes: if icon.1 {
                seq!["icon"@, "variant"@]
            } else {
                seq!["icon"@]
            },
            attributes: seq![("data-feather"@, icon.0)],
            ..bare("i"@)
        },
    )
}

/// The arrow in front of a label that opens and closes.
pub open spec fn chevron_html() -> HtmlView {
    HtmlView::Element(
        ElementView { attributes: seq![("data-feather"@, "chevron-right"@)], ..bare("i"@) },
    )
}

/// The icon, if there is one, and then the label.
pub open spec fn labelled(icon: Option<(Seq<char>, bool)>, label: Seq<char>) -> Seq<HtmlView> {
    match icon {
        Some(icon) => seq![icon_html(icon), HtmlView::Text(label)],
        None => seq![HtmlView::Text(label)],
}
}

/// The script that a click on a link runs.
pub open spec fn navigate_call(target: Seq<char>) -> Seq<char> {
    "return navigate('"@ + target + "')"@
}

/// A container that opens and closes: a summary line, and the content in a
/// `div`.
pub open spec fn details_html(
    attributes: Seq<(Seq<char>, Seq<char>)>,
    summary: Seq<HtmlView>,
    content: Seq<HtmlView>,
) -> HtmlView {
    HtmlView::Element(
        ElementView {
            attributes,
            children: seq![
                HtmlView::Element(ElementView { children: summary, ..bare("summary"@) }),
                HtmlView::Element(ElementView { children: content, ..bare("div"@) }),
            ],
            ..bare("details"@)
        },
    )
}

/// The HTML of a navigation tree on a site with the base URL `base`.
pub open spec fn nav_html(item: NavView, base: Seq<Seq<char>>) -> HtmlView
    decreases item,
{
    match item {
        NavView::Link(label, url, icon) => HtmlView::Element(
            ElementView {
                attributes: seq![
                    ("onclick"@, navigate_call(path_text(base + url))),
                    ("href"@, path_text(base + url)),
                ],
                children: labelled(icon, label),
                ..bare("a"@)
            },
        ),
        NavView::Dir(label, items, icon, open) => details_html(
            if open {
                seq![("open"@, Seq::empty())]
            } else {
                Seq::empty()
            },
            seq![chevron_html()] + labelled(icon, label),
            Seq::new(
                items.len(),
                |i: int|
                    if 0 <= i < items.len() {
                        nav_html(items[i], base)
                    } else {
                        HtmlView::List(Seq::empty())
                    },
            ),
        ),
        NavView::Root(Some(label), items) => details_html(
            seq![("open"@, Seq::empty()), ("class"@, "root"@)],
            seq![chevron_html(), HtmlView::Text(label)],
            Seq::new(
                items.len(),
                |i: int|
                    if 0 <= i < items.len() {
                        nav_html(items[i], base)
                    } else {
                        HtmlView::List(Seq::empty())
                    },
            ),
        ),
        NavView::Root(None, items) => HtmlView::List(
            Seq::new(
                items.len(),
                |i: int|
                    if 0 <= i < items.len() {
                        nav_html(items[i], base)
                    } else {
                        HtmlView::List(Seq::empty())
                    },
            ),
        ),
}
}

/// The HTML of each item in turn.
pub open spec fn nav_html_all(items: Seq<NavView>, base: Seq<Seq<char>>) -> Seq<HtmlView> {
    Seq::new(items.len(), |i: int| nav_html(items[i], base))
}

fn owned_icon(icon: Option<(&str, bool)>) -> (r: Option<(String, bool)>)
    ensures
        icon_of(r) == match icon {
            Some(icon) => Some((icon.0@, icon.1)),
            None => None,
},
{
    match icon {
        Some(icon) => Some((String::from_str(icon.0), icon.1)),
        None => None,
}
}

fn icon_element(icon: &(String, bool)) -> (r: Html)
    ensures
        r@ == icon_html((icon.0@, icon.1)),
{
    let element = HtmlElement::new("i").with_attr("data-feather", icon.0.as_str()).with_class(
        "icon",
    );
    let element = if icon.1 {
        element.with_class("variant")
    } else {
        element
    };
    proof {
        assert(element@.classes =~= if icon.1 {
            seq!["icon"@, "variant"@]
        } else {
            seq!["icon"@]
        });
        assert(element@.attributes =~= seq![("data-feather"@, icon.0@)]);
    }
    element.into_html()
}

fn chevron_element() -> (r: Html)
    ensures
        r@ == chevron_html(),
{
    let element = HtmlElement::new("i").with_attr("data-feather", "chevron-right");
    proof {
        assert(element@.attributes =~= seq![("data-feather"@, "chevron-right"@)]);
    }
    element.into_html()
}

/// Adds the icon, if there is one, and then the label.
fn with_label(element: HtmlElement, icon: &Option<(String, bool)>, label: &String) -> (r:
    HtmlElement)
    ensures
        r@ == (ElementView {
            children: element@.children + labelled(icon_of(*icon), label@),
            ..element@
        }),
{
    let with_icon = match icon {
        Some(icon) => element.with_child(icon_element(icon)),
        None => element,
};
    let r = with_icon.with_text(label.as_str());
    proof {
        assert(r@.children =~= element@.children + labelled(icon_of(*icon), label@));
    }
    r
}

fn details_element(attributes_holder: HtmlElement, summary: HtmlElement, content: Vec<Html>) -> (r:
    Html)
    requires
        attributes_holder@ == (ElementView {
            attributes: attributes_holder@.attributes,
            ..bare("details"@)
        }),
        summary@ == (ElementView { children: summary@.children, ..bare("summary"@) }),
    ensures
        r@ == details_html(
            attributes_holder@.attributes,
            summary@.children,
            nodes_of(content@),
        ),
{
    let div = HtmlElement::new("div").with_children(content);
    proof {
        assert(div@.children =~= nodes_of(content@));
    }
    let r = attributes_holder.with_child(summary.into_html()).with_child(div.into_html());
    proof {
        assert(div@ == (ElementView { children: nodes_of(content@), ..bare("div"@) }));
        assert(r@.children =~= seq![
            HtmlView::Element(ElementView { children: summary@.children, ..bare("summary"@) }),
            HtmlView::Element(ElementView { children: nodes_of(content@), ..bare("div"@) }),
        ]);
        assert(r@.attributes == attributes_holder@.attributes);
        assert(r@.tag == "details"@);
        assert(r@.classes == Seq::<Seq<char>>::empty());
    }
    r.into_html()
}

impl NavItem {
    /// A link.
    pub fn new_link(name: &str, url: UrlPath, icon: Option<(&str, bool)>) -> (r: NavItem)
        ensures
            r@ == NavView::Link(
                name@,
                url@,
                match icon {
                    Some(icon) => Some((icon.0@, icon.1)),
                    None => None,
},
            ),
    {
        NavItem::Link(String::from_str(name), url, owned_icon(icon))
    }

    /// A directory that starts closed.
    pub fn new_dir(name: &str, items: Vec<NavItem>, icon: Option<(&str, bool)>) -> (r: NavItem)
        ensures
            r@ == NavView::Dir(
                name@,
                items_of(items@),
                match icon {
                    Some(icon) => Some((icon.0@, icon.1)),
                    None => None,
},
                false,
            ),
    {
        let r = NavItem::Dir(String::from_str(name), items, owned_icon(icon), false);
        proof {
            lemma_items(r);
        }
        r
    }

    /// A directory that starts open or closed, as `open` says.
    pub fn new_dir_open(
        name: &str,
        items: Vec<NavItem>,
        icon: Option<(&str, bool)>,
        open: bool,
    ) -> (r: NavItem)
        ensures
            r@ == NavView::Dir(
                name@,
                items_of(items@),
                match icon {
                    Some(icon) => Some((icon.0@, icon.1)),
                    None => None,
},
                open,
            ),
    {
        let r = NavItem::Dir(String::from_str(name), items, owned_icon(icon), open);
        proof {
            lemma_items(r);
        }
        r
    }

    /// The top of a tree.
    pub fn new_root(name: Option<&str>, items: Vec<NavItem>) -> (r: NavItem)
        ensures
            r@ == NavView::Root(
                match name {
                    Some(name) => Some(name@),
                    None => None,
},
                items_of(items@),
            ),
    {
        let label = match name {
            Some(name) => Some(String::from_str(name)),
            None => None,
};
        let r = NavItem::Root(label, items);
        proof {
            lemma_items(r);
        }
        r
    }

    /// The HTML of the tree; every link is resolved against the site's base
    /// URL.
    pub fn to_html(&self, config: &Config) -> (r: Html)
        ensures
            r@ == nav_html(self@, site_base(config.base_view())),
        decreases self, 1int,
    {
        let ghost base = site_base(config.base_view());
        proof {
            lemma_items(*self);
        }
        match self {
            NavItem::Link(name, url, icon) => {
                let target = url.to_absolute(config).to_unencoded_string();
                let mut call = String::from_str("return navigate('");
                call.append(target.as_str());
                call.append("')");
                let element = HtmlElement::new("a").with_attr("onclick", call.as_str()).with_attr(
                    "href",
                    target.as_str(),
                );
                let element = with_label(element, icon, name);
                proof {
                    assert(element@.attributes =~= seq![
                        ("onclick"@, navigate_call(path_text(base + url@))),
                        ("href"@, path_text(base + url@)),
                    ]);
                    assert(element@.children =~= labelled(icon_of(*icon), name@));
                }
                element.into_html()
            },
            NavItem::Dir(name, items, icon, open) => {
                let content = Self::items_html(items, config);
                let holder = HtmlElement::new("details").with_attr_opt(
                    "open",
                    if *open {
                        Some("")
                    } else {
                        None
                    },
                );
                let summary = HtmlElement::new("summary").with_child(chevron_element());
                let summary = with_label(summary, icon, name);
                proof {
                    reveal_strlit("");
                    assert(""@ =~= Seq::<char>::empty());
                    assert(holder@.attributes =~= if *open {
                        seq![("open"@, Seq::<char>::empty())]
                    } else {
                        Seq::empty()
                    });
                    assert(summary@.children =~= seq![chevron_html()] + labelled(
                        icon_of(*icon),
                        name@,
                    ));
                    assert(nodes_of(content@) =~= self@->Dir_1.map_values(
                        |v: NavView| nav_html(v, base),
                    ));
                }
                let r = details_element(holder, summary, content);
                proof {
                    assert(nodes_of(content@) =~= nav_html(self@, base)->Element_0.children[1]->Element_0.children);
                }
                r
            },
            NavItem::Root(name, items) => {
                let content = Self::items_html(items, config);
                match name {
                    Some(name) => {
                        let holder = HtmlElement::new("details").with_attr("open", "").with_attr(
                            "class",
                            "root",
                        );
                        let summary = HtmlElement::new("summary").with_child(
                            chevron_element(),
                        ).with_text(name.as_str());
                        proof {
                            reveal_strlit("");
                            assert(""@ =~= Seq::<char>::empty());
                            assert(holder@.attributes =~= seq![
                                ("open"@, Seq::<char>::empty()),
                                ("class"@, "root"@),
                            ]);
                            assert(summary@.children =~= seq![
                                chevron_html(),
                                HtmlView::Text(name@),
                            ]);
                        }
                        let r = details_element(holder, summary, content);
                        proof {
                            assert(nodes_of(content@) =~= nav_html(self@, base)->Element_0.children[1]->Element_0.children);
                        }
                        r
                    },
                    None => {
                        let r = Html::list(content);
                        proof {
                            assert(nodes_of(content@) =~= nav_html(self@, base)->List_0);
                        }
                        r
                    },
}
            },
}
    }

    /// The HTML of each item in turn.
    fn items_html(items: &Vec<NavItem>, config: &Config) -> (r: Vec<Html>)
        ensures
            nodes_of(r@) == nav_html_all(items_of(items@), site_base(config.base_view())),
        decreases items, 0int,
    {
        let ghost base = site_base(config.base_view());
        let mut out: Vec<Html> = Vec::new();
        let mut i: usize = 0;
        while i < items.len()
            invariant
                0 <= i <= items.len(),
                base == site_base(config.base_view()),
                nodes_of(out@) == nav_html_all(items_of(items@).take(i as int), base),
            decreases items.len() - i,
        {
            let html = items[i].to_html(config);
            proof {
                lemma_nodes_of_push(out@, html);
                assert(nav_html_all(items_of(items@).take(i + 1), base) =~= nav_html_all(
                    items_of(items@).take(i as int),
                    base,
                ).push(html@));
            }
            out.push(html);
            i += 1;
        }
        proof {
            assert(items_of(items@).take(i as int) =~= items_of(items@));
        }
        out
    }
}

/// What is known of a declaration for the site.
pub trait EntityMethods<'e>: Sized {
    /// The configured root that holds the declaration's header.
    fn config_source<'c>(&self, config: &'c Config) -> Option<&'c Source>;

    /// The file that defines the declaration.
    fn definition_file(&self) -> Option<String>;

    /// The header of the declaration, from the input directory.
    fn header(&self, config: &Config) -> Option<UrlPath>;

    /// The URL of the declaration's page, from the root of the site.
    fn rel_docs_url(&self) -> Option<UrlPath>;

    /// The URL of the declaration's page, for links.
    fn abs_docs_url(&self, config: &Config) -> Option<UrlPath>;

    /// Where the declaration can be read online.
    fn github_url(&self, config: &Config) -> Option<String>;

    /// What to write in an `#include` for the declaration.
    fn include_path(&self, config: &Config) -> Option<UrlPath>;

    /// The qualified name.
    fn full_name(&self) -> Vec<String>;

    /// The scopes of the declaration, outermost first, and the declaration
    /// itself.
    fn ancestorage(&self) -> Vec<Entity<'e>>;
}

/// The header of a declaration: the file that defines it, without the input
/// directory in front where it lies below that.
pub open spec fn header_of(decl: DeclView, input_dir: Seq<char>) -> Option<Seq<Seq<char>>> {
    match decl.definition_file {
        Some(file) => Some(without_prefix(runs(file, slash()), runs(input_dir, slash()))),
        None => None,
}
}

/// The first root at or after `from` whose directory the header lies below.
pub open spec fn source_from(sources: Seq<Source>, header: Seq<Seq<char>>, from: int) -> Option<
    int,
>
    decreases sources.len() - from,
{
    if from < 0 || from >= sources.len() {
        None
    } else if has_prefix(header, sources[from].dir@) {
        Some(from)
    } else {
        source_from(sources, header, from + 1)
    }
}

/// The root of a declaration, by its index in the configuration.
pub open spec fn source_of(decl: DeclView, config: &Config) -> Option<int> {
    match header_of(decl, config.input_dir@) {
        Some(header) => source_from(config.sources@, header, 0),
        None => None,
}
}

/// Whether a declaration belongs to the standard library: whether its
/// outermost scope is `std`.
pub open spec fn is_std(decls: Seq<DeclView>, index: int) -> bool {
    qualified_name(decls, index).len() > 0 && qualified_name(decls, index)[0] == "std"@
}

/// The URL of a declaration's page from the root of the site: its category,
/// then its qualified name.
pub open spec fn rel_url(decls: Seq<DeclView>, index: int) -> Option<Seq<Seq<char>>> {
    match category_of(decls[index].kind) {
        Some(category) => Some(
            seq![category_segment(category)] + segments_of_all(qualified_name(decls, index)),
        ),
        None => None,
}
}

/// Where the last dot of a name stands, or -1.
pub open spec fn last_dot(name: Seq<char>) -> int
    decreases name.len(),
{
    if name.len() == 0 {
        -1
    } else if name.last() == '.' {
        name.len() - 1
    } else {
        last_dot(name.drop_last())
    }
}

/// A file name without its extension: what stands before the last dot,
/// unless that dot is the first character.
pub open spec fn stem_of(name: Seq<char>) -> Seq<char> {
    if last_dot(name) > 0 {
        name.take(last_dot(name))
    } else {
        name
    }
}

/// The stem of the file in which a path ends.
pub open spec fn header_stem(file: Seq<char>) -> Option<Seq<char>> {
    if runs(file, slash()).len() > 0 {
        Some(stem_of(runs(file, slash()).last()))
    } else {
        None
    }
}

/// The site that documents the standard library.
pub open spec fn reference_site() -> Seq<Seq<char>> {
    seq!["en.cppreference.com"@, "w"@, "cpp"@]
}

/// The page of a declaration of the standard library on the reference site:
/// below the stem of its header, under its own name.
pub open spec fn external_url(decl: DeclView) -> Option<Seq<Seq<char>>> {
    match (decl.definition_file, decl.name) {
        (Some(file), Some(name)) => match header_stem(file) {
            Some(stem) => Some(reference_site() + runs(stem, slash()) + runs(name, slash())),
            None => None,
},
        _ => None,
}
}

/// The URL of a declaration's page for links: on the reference site for the
/// standard library, else below the base of this site.
pub open spec fn abs_url(decls: Seq<DeclView>, index: int, base: Seq<Seq<char>>) -> Option<
    Seq<Seq<char>>,
> {
    if is_std(decls, index) {
        external_url(decls[index])
    } else {
        match rel_url(decls, index) {
            Some(url) => Some(base + url),
            None => None,
}
    }
}

/// Where a declaration can be read online: on the reference site for the
/// standard library; else in the project's repository, if its root is
/// configured as being there.
pub open spec fn browse_url(decls: Seq<DeclView>, index: int, config: &Config) -> Option<
    Seq<char>,
> {
    if is_std(decls, index) {
        match (decls[index].definition_file, decls[index].name) {
            (Some(file), Some(name)) => match header_stem(file) {
                Some(stem) => Some("https://en.cppreference.com/w/cpp/"@ + stem + seq!['/'] + name),
                None => None,
},
            _ => None,
}
    } else {
        match (header_of(decls[index], config.input_dir@), source_of(decls[index], config)) {
            (Some(header), Some(i)) => match config.project.tree {
                Some(tree) => if config.sources@[i].exists_online {
                    Some(tree@ + path_text(header))
                } else {
                    None
                },
                None => None,
},
            _ => None,
}
    }
}

/// The path of a declaration's header from the directory of its root.
pub open spec fn include_hint(decl: DeclView, config: &Config) -> Option<Seq<Seq<char>>> {
    match (header_of(decl, config.input_dir@), source_of(decl, config)) {
        (Some(header), Some(i)) => Some(without_prefix(header, config.sources@[i].dir@)),
        _ => None,
}
}

/// A declaration of the standard library has its page on the reference site
/// and nowhere else: whatever the base of this site and whatever its kind,
/// its URL for links is either unavailable or starts with the reference site.
pub proof fn law_std_resolves_outside(decls: Seq<DeclView>, index: int, base: Seq<Seq<char>>)
    requires
        0 <= index < decls.len(),
        is_std(decls, index),
    ensures
        abs_url(decls, index, base) == external_url(decls[index]),
        match abs_url(decls, index, base) {
            Some(url) => has_prefix(url, reference_site()),
            None => true,
},
{
    match abs_url(decls, index, base) {
        Some(url) => {
            assert(url.subrange(0, 3) =~= reference_site());
        },
        None => {},
}
}

/// Whether a text ends in another.
pub fn ends_with(text: &Vec<char>, ending: &str) -> (r: bool)
    ensures
        r == ends_in(text@, ending@),
{
    let ending = chars_of(ending);
    if ending.len() > text.len() {
        return false;
    }
    matches_at(text, text.len() - ending.len(), &ending)
}

/// Whether a declaration ends the chain of scopes.
pub fn is_scope_end(entity: &Entity<'_>) -> (r: bool)
    ensures
        r == ends_scopes(entity.decl()),
{
    let made_up = match entity.get_kind() {
        EntityKind::TranslationUnit
        | EntityKind::UnexposedDecl
        | EntityKind::UnexposedAttr
        | EntityKind::UnexposedExpr
        | EntityKind::UnexposedStmt => true,
        _ => false,
};
    if made_up {
        return true;
    }
    match entity.get_name() {
        Some(name) => {
            let chars = chars_of(name.as_str());
            ends_with(&chars, ".cpp") || ends_with(&chars, ".cc") || ends_with(&chars, ".cxx")
                || ends_with(&chars, ".c++")
        },
        None => false,
}
}

/// The positions of the entities of a vector.
pub open spec fn positions_of(entities: Seq<Entity<'_>>) -> Seq<int> {
    Seq::new(entities.len(), |k: int| entities[k].position())
}

/// Computes the stem of a file name.
pub fn stem(name: &Vec<char>) -> (r: Vec<char>)
    ensures
        r@ == stem_of(name@),
{
    let mut at: usize = name.len();
    proof {
        assert(name@.take(at as int) =~= name@);
    }
    while at > 0 && name[at - 1] != '.'
        invariant
            0 <= at <= name.len(),
            last_dot(name@) == last_dot(name@.take(at as int)),
        decreases at,
    {
        proof {
            assert(name@.take(at as int).drop_last() =~= name@.take(at - 1));
        }
        at -= 1;
    }
    proof {
        if at == name.len() {
            assert(name@.take(at as int) =~= name@);
        }
    }
    if at > 1 {
        proof {
            assert(name@.take(at as int).last() == '.');
        }
        slice_chars(name, 0, at - 1)
    } else {
        proof {
            if at == 1 {
                assert(name@.take(at as int).last() == '.');
            }
        }
        slice_chars(name, 0, name.len())
    }
}

impl<'e> Entity<'e> {
    /// The stem of the header that defines the declaration, and the
    /// declaration's own name.
    fn stem_and_name(&self) -> (r: Option<(Vec<char>, String)>)
        ensures
            match r {
                Some((stem, name)) => self.decl().definition_file.is_some() && header_stem(
                    self.decl().definition_file.unwrap(),
                ) == Some(stem@) && self.decl().name == Some(name@),
                None => self.decl().definition_file.is_none() || self.decl().name.is_none()
                    || header_stem(self.decl().definition_file.unwrap()).is_none(),
},
    {
        let file = match self.get_definition_file() {
            Some(file) => file,
            None => {
                return None;
            },
};
        let name = match self.get_name() {
            Some(name) => name,
            None => {
                return None;
            },
};
        let path = UrlPath::part(file.as_str());
        let n: usize = path.len();
        if n == 0 {
            return None;
        }
        let last = match path.segment(n - 1) {
            Some(last) => last,
            None => {
                return None;
            },
};
        let last_chars = chars_of(last.as_str());
        Some((stem(&last_chars), name))
    }

    /// Whether the outermost scope of the declaration is `std`.
    fn in_std(&self) -> (r: bool)
        ensures
            r == is_std(self.decls(), self.position()),
    {
        let names = self.full_name();
        if names.len() == 0 {
            return false;
        }
        let first = chars_of(names[0].as_str());
        assert(texts_of(names@)[0] == names@[0]@);
        crate::url::same_chars(&first, &chars_of("std"))
    }
}

impl<'e> EntityMethods<'e> for Entity<'e> {
    fn config_source<'c>(&self, config: &'c Config) -> (r: Option<&'c Source>)
        ensures
            match r {
                Some(source) => source_of(self.decl(), config).is_some() && *source
                    == config.sources@[source_of(self.decl(), config).unwrap()],
                None => source_of(self.decl(), config).is_none(),
},
    {
        let header = match self.header(config) {
            Some(header) => header,
            None => {
                return None;
            },
};
        let mut i: usize = 0;
        while i < config.sources.len()
            invariant
                0 <= i <= config.sources.len(),
                header_of(self.decl(), config.input_dir@) == Some(header@),
                source_from(config.sources@, header@, 0) == source_from(
                    config.sources@,
                    header@,
                    i as int,
                ),
            decreases config.sources.len() - i,
        {
            if header.starts_with(&config.sources[i].dir) {
                proof {
                    assert(source_from(config.sources@, header@, i as int) == Some(i as int));
                }
                return Some(&config.sources[i]);
            }
            i += 1;
        }
        None
    }

    fn definition_file(&self) -> (r: Option<String>)
        ensures
            opt_text(r) == self.decl().definition_file,
    {
        self.get_definition_file()
    }

    fn header(&self, config: &Config) -> (r: Option<UrlPath>)
        ensures
            match r {
                Some(path) => header_of(self.decl(), config.input_dir@) == Some(path@),
                None => header_of(self.decl(), config.input_dir@).is_none(),
},
    {
        match self.get_definition_file() {
            Some(file) => {
                let path = UrlPath::part(file.as_str());
                let input = UrlPath::part(config.input_dir.as_str());
                Some(path.strip_prefix(&input))
            },
            None => None,
}
    }

    fn rel_docs_url(&self) -> (r: Option<UrlPath>)
        ensures
            match r {
                Some(url) => rel_url(self.decls(), self.position()) == Some(url@),
                None => rel_url(self.decls(), self.position()).is_none(),
},
    {
        match CppItemKind::from(self.get_kind()) {
            Some(category) => {
                let names = self.full_name();
                Some(category.docs_category().join(&UrlPath::new_with_path(names)))
            },
            None => None,
}
    }

    fn abs_docs_url(&self, config: &Config) -> (r: Option<UrlPath>)
        ensures
            match r {
                Some(url) => abs_url(
                    self.decls(),
                    self.position(),
                    site_base(config.base_view()),
                ) == Some(url@),
                None => abs_url(self.decls(), self.position(), site_base(config.base_view()))
                    .is_none(),
},
    {
        if self.in_std() {
            match self.stem_and_name() {
                Some((stem, name)) => {
                    let mut parts: Vec<String> = Vec::new();
                    parts.push(String::from_str("en.cppreference.com"));
                    parts.push(String::from_str("w"));
                    parts.push(String::from_str("cpp"));
                    parts.push(string_of(&stem));
                    parts.push(name);
                    proof {
                        lemma_reference_path(stem@, name@);
                        assert(texts_of(parts@) =~= seq![
                            "en.cppreference.com"@,
                            "w"@,
                            "cpp"@,
                            stem@,
                            name@,
                        ]);
                    }
                    Some(UrlPath::new_with_path(parts))
                },
                None => None,
}
        } else {
            match self.rel_docs_url() {
                Some(url) => Some(url.to_absolute(config)),
                None => None,
}
        }
    }

    fn github_url(&self, config: &Config) -> (r: Option<String>)
        ensures
            match r {
                Some(url) => browse_url(self.decls(), self.position(), config) == Some(url@),
                None => browse_url(self.decls(), self.position(), config).is_none(),
},
    {
        if self.in_std() {
            match self.stem_and_name() {
                Some((stem, name)) => {
                    let mut url = String::from_str("https://en.cppreference.com/w/cpp/");
                    url.append(string_of(&stem).as_str());
                    url.append("/");
                    url.append(name.as_str());
                    proof {
                        reveal_strlit("/");
                        assert("/"@ =~= seq!['/']);
                    }
                    Some(url)
                },
                None => None,
}
        } else {
            let header = match self.header(config) {
                Some(header) => header,
                None => {
                    return None;
                },
};
            let source = match self.config_source(config) {
                Some(source) => source,
                None => {
                    return None;
                },
};
            if !source.exists_online {
                return None;
            }
            match &config.project.tree {
                Some(tree) => {
                    let mut url = tree.clone();
                    url.append(header.to_unencoded_string().as_str());
                    Some(url)
                },
                None => None,
}
        }
    }

    fn include_path(&self, config: &Config) -> (r: Option<UrlPath>)
        ensures
            match r {
                Some(path) => include_hint(self.decl(), config) == Some(path@),
                None => include_hint(self.decl(), config).is_none(),
},
    {
        let header = match self.header(config) {
            Some(header) => header,
            None => {
                return None;
            },
};
        match self.config_source(config) {
            Some(source) => Some(header.strip_prefix(&source.dir)),
            None => None,
}
    }

    fn full_name(&self) -> (r: Vec<String>)
        ensures
            texts_of(r@) == qualified_name(self.decls(), self.position()),
    {
        let chain = self.ancestorage();
        let ghost decls = self.decls();
        let ghost positions = ancestry(decls, self.position());
        let mut names: Vec<String> = Vec::new();
        let mut k: usize = 0;
        assert(texts_of(names@) =~= qualified_name(decls, self.position()).take(0));
        while k < chain.len()
            invariant
                0 <= k <= chain.len(),
                decls == self.decls(),
                positions == ancestry(decls, self.position()),
                positions_of(chain@) == positions,
                forall|j: int| 0 <= j < chain@.len() ==> (#[trigger] chain@[j]).decls() == decls,
                texts_of(names@) == qualified_name(decls, self.position()).take(k as int),
            decreases chain.len() - k,
        {
            let name = match chain[k].get_name() {
                Some(name) => name,
                None => String::from_str("_anon"),
};
            proof {
                assert(chain@[k as int].decls() == decls);
                assert(positions_of(chain@)[k as int] == chain@[k as int].position());
                assert(name@ == name_of(decls[positions[k as int]]));
                lemma_texts_of_push(names@, name);
                assert(qualified_name(decls, self.position()).take(k + 1) =~= qualified_name(
                    decls,
                    self.position(),
                ).take(k as int).push(name@));
            }
            names.push(name);
            k += 1;
        }
        proof {
            assert(qualified_name(decls, self.position()).take(k as int) =~= qualified_name(
                decls,
                self.position(),
            ));
        }
        names
    }

    fn ancestorage(&self) -> (r: Vec<Entity<'e>>)
        ensures
            positions_of(r@) == ancestry(self.decls(), self.position()),
            forall|j: int| 0 <= j < r@.len() ==> (#[trigger] r@[j]).decls() == self.decls(),
    {
        let ghost decls = self.decls();
        let ghost whole = ancestry(decls, self.position());
        self.check();
        let mut down: Vec<Entity<'e>> = Vec::new();
        down.push(*self);
        let mut current: Entity<'e> = *self;
        proof {
            law_ancestry_is_the_scope_chain(decls, self.position());
            assert(whole.drop_last() + positions_of(down@).reverse() =~= whole);
        }
        loop
            invariant
                decls == self.decls(),
                current.decls() == decls,
                0 <= current.position() < decls.len(),
                down@.len() >= 1,
                forall|j: int| 0 <= j < down@.len() ==> (#[trigger] down@[j]).decls() == decls,
                whole == ancestry(decls, current.position()).drop_last() + positions_of(
                    down@,
                ).reverse(),
            ensures
                whole == positions_of(down@).reverse(),
                forall|j: int| 0 <= j < down@.len() ==> (#[trigger] down@[j]).decls() == decls,
                down@.len() >= 1,
            decreases current.position(),
        {
            let ghost here = current.position();
            let ghost tail = positions_of(down@).reverse();
            match current.get_semantic_parent() {
                Some(parent) => {
                    if is_scope_end(&parent) {
                        proof {
                            assert(scope_of(decls, here).is_none());
                            assert(ancestry(decls, here).drop_last() =~= Seq::<int>::empty());
                            assert(Seq::<int>::empty() + tail =~= tail);
                        }
                        break ;
                    }
                    proof {
                        let p = parent.position();
                        assert(scope_of(decls, here) == Some(p));
                        law_ancestry_is_the_scope_chain(decls, p);
                        assert(ancestry(decls, here).drop_last() =~= ancestry(decls, p));
                        assert(ancestry(decls, p) =~= ancestry(decls, p).drop_last().push(p));
                        assert(positions_of(down@.push(parent)).reverse() =~= seq![p] + tail);
                        assert(ancestry(decls, p).drop_last() + (seq![p] + tail) =~= ancestry(
                            decls,
                            p,
                        ) + tail);
                    }
                    down.push(parent);
                    current = parent;
                },
                None => {
                    proof {
                        assert(scope_of(decls, here).is_none());
                        assert(ancestry(decls, here).drop_last() =~= Seq::<int>::empty());
                        assert(Seq::<int>::empty() + tail =~= tail);
                    }
                    break ;
                },
}
        }
        let mut out: Vec<Entity<'e>> = Vec::new();
        proof {
            assert(positions_of(out@) =~= whole.take(0));
        }
        while down.len() > 0
            invariant
                down@.len() <= whole.len(),
                forall|j: int| 0 <= j < down@.len() ==> (#[trigger] down@[j]).decls() == decls,
                forall|j: int| 0 <= j < out@.len() ==> (#[trigger] out@[j]).decls() == decls,
                forall|j: int|
                    0 <= j < down@.len() ==> (#[trigger] down@[j]).position() == whole[whole.len()
                        - 1 - j],
                positions_of(out@) == whole.take(whole.len() - down@.len()),
            decreases down.len(),
        {
            let ghost before = positions_of(out@);
            let ghost n = down@.len();
            let entity = down.pop().unwrap();
            proof {
                assert(entity.position() == whole[whole.len() - n]);
                assert(positions_of(out@.push(entity)) =~= before.push(entity.position()));
                assert(whole.take(whole.len() - n + 1) =~= whole.take(whole.len() - n).push(
                    whole[whole.len() - n],
                ));
            }
            out.push(entity);
        }
        proof {
            assert(whole.take(whole.len() as int) =~= whole);
        }
        out
    }
}

/// The parts of a page on the reference site, as segments.
pub proof fn lemma_reference_path(stem: Seq<char>, name: Seq<char>)
    ensures
        segments_of_all(seq!["en.cppreference.com"@, "w"@, "cpp"@, stem, name])
            == reference_site() + runs(stem, slash()) + runs(name, slash()),
{
    let parts = seq!["en.cppreference.com"@, "w"@, "cpp"@, stem, name];
    reveal_strlit("en.cppreference.com");
    reveal_strlit("w");
    reveal_strlit("cpp");
    crate::url::lemma_runs_of_segment("en.cppreference.com"@);
    crate::url::lemma_runs_of_segment("w"@);
    crate::url::lemma_runs_of_segment("cpp"@);
    let upto_stem = parts.drop_last();
    let site = upto_stem.drop_last();
    let two = site.drop_last();
    let one = two.drop_last();
    assert(one.drop_last() =~= Seq::<Seq<char>>::empty());
    assert(segments_of_all(one.drop_last()) =~= Seq::<Seq<char>>::empty());
    assert(one.last() == "en.cppreference.com"@);
    assert(segments_of_all(one) =~= seq!["en.cppreference.com"@]);
    assert(two.last() == "w"@);
    assert(segments_of_all(two) =~= seq!["en.cppreference.com"@, "w"@]);
    assert(site.last() == "cpp"@);
    assert(segments_of_all(site) =~= reference_site());
    assert(upto_stem.last() == stem);
    assert(segments_of_all(upto_stem) == segments_of_all(site) + runs(stem, slash()));
    assert(parts.last() == name);
    assert(segments_of_all(parts) == segments_of_all(upto_stem) + runs(name, slash()));
    assert(segments_of_all(parts) =~= reference_site() + runs(stem, slash()) + runs(
        name,
        slash(),
    ));
}

/// One page that is to be written.
#[derive(Debug, PartialEq)]
pub struct PageTask {
    /// The URL of the page, from the root of the site.
    pub url: UrlPath,
    /// The file to write, below the output directory.
    pub path: String,
    /// What to write.
    pub content: String,
}

/// The pages that an entry asks for, or why it cannot be built.
pub type BuildResult = Result<Vec<PageTask>, String>;

/// A documentable unit.
pub trait Entry {
    /// Whether the entry has a URL. This is what `is_resolvable` answers.
    spec fn resolvable(&self) -> bool;

    fn is_resolvable(&self) -> (r: bool)
        ensures
            r == self.resolvable(),
    ;

    fn name(&self) -> String;

    fn url(&self) -> UrlPath
        requires
            self.resolvable(),
    ;

    fn build(&self, builder: &Builder) -> BuildResult;

    fn nav(&self) -> NavItem
        requires
            self.resolvable(),
    ;
}

/// An entry that has a page of its own.
pub trait OutputEntry: Entry {
    /// The template of the page, and what stands in its slots.
    fn output(&self, builder: &Builder) -> (String, Vec<(&'static str, Html)>);

    fn description(&self, builder: &Builder) -> String;
}

/// What is said of a declaration that has no description of its own.
pub open spec fn described(name: Seq<char>, category: Seq<char>, project: Seq<char>) -> Seq<
    char,
> {
    "Documentation for the "@ + name + seq![' '] + category + " in "@ + project
}

/// Writes what is said of a declaration that has no description of its own.
pub fn describe(name: &str, category: &str, project: &str) -> (r: String)
    ensures
        r@ == described(name@, category@, project@),
{
    let mut out = String::from_str("Documentation for the ");
    out.append(name);
    out.append(" ");
    out.append(category);
    out.append(" in ");
    out.append(project);
    proof {
        reveal_strlit(" ");
        assert(" "@ =~= seq![' ']);
    }
    out
}

/// An entry that stands for a declaration.
pub trait ASTEntry<'e>: Entry {
    fn entity(&self) -> &Entity<'e>;

    /// The word for what the declaration is.
    fn category(&self) -> &'static str;

    fn output_description(&self, builder: &Builder) -> (r: String)
        ensures
            exists|name: String, category: &'static str|
                #![trigger
                    call_ensures(Self::name, (self,), name),
                    call_ensures(Self::category, (self,), category)]
                call_ensures(Self::name, (self,), name) && call_ensures(
                    Self::category,
                    (self,),
                    category,
                ) && r@ == described(name@, category@, builder.config.project.name@),
    {
        let name = self.name();
        let category = self.category();
        describe(name.as_str(), category, builder.config.project.name.as_str())
    }
}

} // verus!
